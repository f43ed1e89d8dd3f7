//! On-disk snapshots of an index: best-effort, keyed by a hash of the root
//! path, and usable only while the root's freshness stamp is unchanged.
use vstd::prelude::*;
use vstd::string::StringSliceAdditionalSpecFns;

verus! {

/// The 64-bit XXH3 hash of a byte string.
pub uninterp spec fn xxh3_of(bytes: Seq<u8>) -> u64;

/// Relies on xxhash_rust's `xxh3::xxh3_64`: the hash depends on the bytes alone.
#[verifier::external_body]
fn xxh3_64_of(bytes: &[u8]) -> (r: u64)
    ensures
        r == xxh3_of(bytes@),
{
    xxhash_rust::xxh3::xxh3_64(bytes)
}

/// The key that names the snapshot file of a root: the XXH3 hash of the
/// root path's bytes, so distinct roots get distinct files without any
/// directory scan.
pub fn snapshot_key(root: &str) -> (r: u64)
    ensures
        r == xxh3_of(root.spec_bytes()),
{
    xxh3_64_of(root.as_bytes())
}

/// A persisted index: the freshness stamp it was built at and its payload.
pub struct Snapshot<P> {
    pub stamp: u64,
    pub payload: P,
}

impl<P> Snapshot<P> {
    /// The payload, if the snapshot was taken at the root's current stamp;
    /// otherwise `None`, which callers treat as no snapshot at all.
    pub fn take_if_fresh(self, stamp: u64) -> (r: Option<P>)
        ensures
            self.stamp == stamp ==> r == Some(self.payload),
            self.stamp != stamp ==> r is None,
    {
        if self.stamp == stamp {
            Some(self.payload)
        } else {
            None
        }
    }
}

} // verus!

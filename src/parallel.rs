//! Data-parallel mapping over the shared worker pool.
use vstd::prelude::*;
use rayon::iter::{IndexedParallelIterator, IntoParallelRefIterator, ParallelIterator};

verus! {

/// Relies on rayon's `par_iter().map(f).collect_into_vec(..)`: the target is
/// cleared, then holds `f` of each item of the indexed iterator, in order.
#[verifier::external_body]
pub(crate) fn par_map<T: Sync, U: Send, F: Fn(&T) -> U + Sync + Send>(items: &Vec<T>, f: F) -> (r:
    Vec<U>)
    requires
        forall|i: int| 0 <= i < items@.len() ==> f.requires((&items@[i],)),
    ensures
        r@.len() == items@.len(),
        forall|i: int| 0 <= i < items@.len() ==> f.ensures((&items@[i],), #[trigger] r@[i]),
{
    let mut out = Vec::new();
    items.par_iter().map(f).collect_into_vec(&mut out);
    out
}

} // verus!

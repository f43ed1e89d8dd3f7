//! Content Index: one signature per text file, queried by trigram overlap.
use vstd::prelude::*;
use vstd::string::StringSliceAdditionalSpecFns;
use vstd::utf8::valid_utf8;
use crate::overlap::{common_count, intersection_size, lemma_common_count_is_intersection_size};
use crate::parallel::par_map;
use crate::rank::{Hit, hits_view, page, paths_of, rank_page, ranked, strings_view, page_window,
    DEFAULT_PAGE_SIZE};
use crate::trigram::{ascending, is_signature_of, signature_of_bytes, extract_trigrams, trigram_set};

verus! {

/// Largest file, in bytes, that the Content Index takes in.
pub const MAX_FILE_SIZE: u64 = 1048576;

/// An indexed file: its path relative to the root, and its signature,
/// which is always ascending.
pub struct FileRecord {
    path: String,
    signature: Vec<u32>,
}

impl View for FileRecord {
    type V = (Seq<char>, Seq<u32>);

    closed spec fn view(&self) -> (Seq<char>, Seq<u32>) {
        (self.path@, self.signature@)
    }
}

impl FileRecord {
    /// The signature is ascending, as the merge-walk needs.
    #[verifier::type_invariant]
    spec fn ascending_signature(&self) -> bool {
        ascending(self.signature@)
    }

    /// The path of the file, relative to the root.
    pub fn path(&self) -> (r: &String)
        ensures
            r@ == self@.0,
    {
        &self.path
    }

    /// The signature of the file's contents.
    pub fn signature(&self) -> (r: &Vec<u32>)
        ensures
            r@ == self@.1,
            ascending(r@),
    {
        proof {
            use_type_invariant(self);
        }
        &self.signature
    }
}

/// The signature of a file record.
pub open spec fn signature_view(f: FileRecord) -> Seq<u32> {
    f@.1
}

/// The models of a sequence of file records.
pub open spec fn records_view(s: Seq<FileRecord>) -> Seq<(Seq<char>, Seq<u32>)> {
    s.map_values(|f: FileRecord| f@)
}

/// The file is taken into the Content Index: no larger than the limit, valid
/// UTF-8 text (ASCII included), and at least one trigram long.
pub open spec fn admits_content(bytes: Seq<u8>) -> bool {
    bytes.len() <= MAX_FILE_SIZE && valid_utf8(bytes) && bytes.len() >= 3
}

/// How many of the query's trigrams a signature holds.
pub open spec fn overlap_of(query: Seq<u8>, sig: Seq<u32>) -> nat {
    trigram_set(query).intersect(sig.to_set()).len()
}

/// The files that share at least one trigram with the query, in index order,
/// each with the number of trigrams shared.
pub open spec fn content_hits(files: Seq<(Seq<char>, Seq<u32>)>, query: Seq<u8>) -> Seq<
    (Seq<char>, int),
>
    decreases files.len(),
{
    if files.len() == 0 {
        Seq::empty()
    } else {
        let f = files.last();
        let rest = content_hits(files.drop_last(), query);
        if overlap_of(query, f.1) > 0 {
            rest.push((f.0, overlap_of(query, f.1) as int))
        } else {
            rest
        }
    }
}

/// The answer to a Content Index query: nothing for a query shorter than
/// three bytes; otherwise the page of matching files, ranked by overlap.
pub open spec fn content_query_result(
    files: Seq<(Seq<char>, Seq<u32>)>,
    query: Seq<u8>,
    offset: int,
    limit: int,
) -> Seq<Seq<char>> {
    if query.len() < 3 {
        Seq::empty()
    } else {
        paths_of(page(ranked(content_hits(files, query)), offset, limit))
    }
}

/// Relies on `std::str::from_utf8`: it succeeds exactly on valid UTF-8.
#[verifier::external_body]
fn is_utf8(bytes: &[u8]) -> (r: bool)
    ensures
        r == valid_utf8(bytes@),
{
    std::str::from_utf8(bytes).is_ok()
}

/// A file of this size may be read for the Content Index.
pub fn within_size_limit(len: u64) -> (r: bool)
    ensures
        r == (len <= MAX_FILE_SIZE),
{
    len <= MAX_FILE_SIZE
}

/// Builds the record of a file from its contents, or `None` when the file is
/// left out: larger than the limit, not UTF-8 text, or under three bytes (no
/// signature).
pub fn content_record(path: String, bytes: &[u8]) -> (r: Option<FileRecord>)
    ensures
        r.is_some() <==> admits_content(bytes@),
        r matches Some(f) ==> f@.0 == path@ && is_signature_of(f@.1, bytes@) && f@.1.len() > 0,
{
    if bytes.len() as u64 > MAX_FILE_SIZE {
        return None;
    }
    if !is_utf8(bytes) {
        return None;
    }
    let signature = signature_of_bytes(bytes);
    if signature.len() == 0 {
        return None;
    }
    Some(FileRecord { path, signature })
}

/// Content shorter than three bytes has an empty signature, so it is never
/// indexed and shares no trigram with any query.
pub proof fn lemma_short_content_never_matches(bytes: Seq<u8>, sig: Seq<u32>, query: Seq<u8>)
    requires
        bytes.len() < 3,
        is_signature_of(sig, bytes),
    ensures
        sig.len() == 0,
        !admits_content(bytes),
        overlap_of(query, sig) == 0,
{
    assert(trigram_set(bytes) =~= Set::<u32>::empty());
    if sig.len() > 0 {
        assert(sig.to_set().contains(sig[0]));
    }
    assert(trigram_set(query).intersect(sig.to_set()) =~= Set::<u32>::empty());
}

/// Scores the files against a query signature, keeping those that share a
/// trigram, ranks them, and returns the page `[offset, offset + limit)`.
pub fn rank_content_matches(
    files: &Vec<FileRecord>,
    query_sig: &Vec<u32>,
    query: &[u8],
    offset: usize,
    limit: usize,
) -> (r: Vec<String>)
    requires
        is_signature_of(query_sig@, query@),
    ensures
        strings_view(r@) == paths_of(
            page(ranked(content_hits(records_view(files@), query@)), offset as int, limit as int),
        ),
{
    let overlap = |f: &FileRecord| -> (s: usize)
        requires
            ascending(query_sig@),
        ensures
            s == common_count(query_sig@, signature_view(*f)),
        { intersection_size(query_sig.as_slice(), f.signature().as_slice()) };
    let overlaps = par_map(files, overlap);
    let mut hits: Vec<Hit> = Vec::new();
    let mut i: usize = 0;
    while i < files.len()
        invariant
            i <= files.len(),
            is_signature_of(query_sig@, query@),
            overlaps@.len() == files@.len(),
            forall|k: int| 0 <= k < files@.len() ==> overlaps@[k] == common_count(query_sig@, signature_view(files@[k])),
            hits_view(hits@) == content_hits(records_view(files@).take(i as int), query@),
        decreases files.len() - i,
    {
        let ghost h0 = hits@;
        let ghost fs = records_view(files@);
        proof {
            assert(fs.take(i + 1).drop_last() =~= fs.take(i as int));
            assert(fs.take(i + 1).last() == files@[i as int]@);
            lemma_common_count_is_intersection_size(query_sig@, files@[i as int]@.1);
        }
        let s = overlaps[i];
        if s > 0 {
            hits.push(Hit { path: files[i].path().clone(), score: s as i128 });
            proof {
                assert(hits_view(hits@) =~= hits_view(h0).push(hits@.last()@));
            }
        }
        i = i + 1;
    }
    proof {
        assert(records_view(files@).take(files@.len() as int) =~= records_view(files@));
    }
    rank_page(&hits, offset, limit)
}

/// Answers a Content Index query: a query under three bytes gives nothing;
/// otherwise the files sharing at least one trigram with the query, most
/// shared trigrams first, page `[offset, offset + limit)` (offset defaults to
/// 0, limit to the default page size).
pub fn query_content(
    files: &Vec<FileRecord>,
    query: &str,
    offset: Option<usize>,
    limit: Option<usize>,
) -> (r: Vec<String>)
    ensures
        strings_view(r@) == content_query_result(
            records_view(files@),
            query.spec_bytes(),
            match offset {
                Some(o) => o as int,
                None => 0,
            },
            match limit {
                Some(l) => l as int,
                None => DEFAULT_PAGE_SIZE as int,
            },
        ),
{
    let (off, lim) = page_window(offset, limit);
    let n = query.as_bytes().len();
    if n < 3 {
        let r: Vec<String> = Vec::new();
        proof {
            assert(query.spec_bytes().len() < 3);
            assert(strings_view(r@) =~= Seq::<Seq<char>>::empty());
        }
        return r;
    }
    let sig = extract_trigrams(query);
    rank_content_matches(files, &sig, query.as_bytes(), off, lim)
}

} // verus!

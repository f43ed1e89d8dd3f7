//! Path Index queries: fuzzy scoring of indexed paths against a query, with a
//! bonus for source files, ranked and paginated.
use vstd::prelude::*;
use fuzzy_matcher::FuzzyMatcher;
use crate::parallel::par_map;
use crate::rank::{
    Hit, hits_view, page, paths_of, path_bytes, rank_page, ranked, strings_view, page_window,
    DEFAULT_PAGE_SIZE,
};

verus! {

/// Score added to a match whose path has a source-code extension.
pub const SOURCE_BONUS: i128 = 100;

/// What the skim fuzzy matcher (default settings: smart case) scores `choice`
/// against `pattern`; `None` when it does not match.
pub uninterp spec fn skim_score(choice: Seq<char>, pattern: Seq<char>) -> Option<i64>;

/// The lower-case form of a text.
pub uninterp spec fn lower_of(s: Seq<char>) -> Seq<char>;

/// A text without its leading and trailing white space.
pub uninterp spec fn trimmed(s: Seq<char>) -> Seq<char>;

/// Relies on fuzzy_matcher's `SkimMatcherV2::fuzzy_match` with the default
/// matcher: the score depends on the two texts alone, and an empty pattern
/// matches with score 0.
#[verifier::external_body]
fn skim_match(choice: &str, pattern: &str) -> (r: Option<i64>)
    ensures
        r == skim_score(choice@, pattern@),
        pattern@.len() == 0 ==> r == Some(0i64),
{
    fuzzy_matcher::skim::SkimMatcherV2::default().fuzzy_match(choice, pattern)
}

/// Relies on `str::to_lowercase`: the result depends on the characters alone.
#[verifier::external_body]
fn lowercase(s: &str) -> (r: String)
    ensures
        r@ == lower_of(s@),
        s@.len() == 0 ==> r@.len() == 0,
{
    s.to_lowercase()
}

/// Relies on `str::trim`: a sub-slice of the text, empty for an empty text.
#[verifier::external_body]
pub(crate) fn trim_text(s: &str) -> (r: &str)
    ensures
        r@ == trimmed(s@),
        r@.len() <= s@.len(),
{
    s.trim()
}

// ASCII codes of '.', 'j', 'r', 's', 't' and 'x' appear below as integers.

/// `b` ends with `suffix`.
pub open spec fn ends_with(b: Seq<u8>, suffix: Seq<u8>) -> bool {
    b.len() >= suffix.len() && b.subrange(b.len() - suffix.len(), b.len() as int) == suffix
}

/// The path has one of the source extensions `.rs`, `.ts`, `.tsx`, `.js`.
pub open spec fn is_source_path(p: Seq<char>) -> bool {
    let b = path_bytes(p);
    ||| ends_with(b, seq![46u8, 114u8, 115u8])
    ||| ends_with(b, seq![46u8, 116u8, 115u8])
    ||| ends_with(b, seq![46u8, 116u8, 115u8, 120u8])
    ||| ends_with(b, seq![46u8, 106u8, 115u8])
}

/// The bonus a path gets on a match.
pub open spec fn bonus_of(p: Seq<char>) -> int {
    if is_source_path(p) {
        SOURCE_BONUS as int
    } else {
        0
    }
}

/// The scored matches among `paths`, in their order, given the matcher's
/// result for each path.
pub open spec fn path_hits(paths: Seq<Seq<char>>, scores: Seq<Option<i64>>) -> Seq<(Seq<char>, int)>
    decreases paths.len(),
{
    if paths.len() == 0 {
        Seq::empty()
    } else {
        let k = paths.len() - 1;
        let rest = path_hits(paths.drop_last(), scores);
        match scores[k] {
            Some(s) => rest.push((paths[k], s as int + bonus_of(paths[k]))),
            None => rest,
        }
    }
}

/// Every path with score 0, in order.
pub open spec fn unscored(paths: Seq<Seq<char>>) -> Seq<(Seq<char>, int)> {
    paths.map_values(|p: Seq<char>| (p, 0int))
}

/// The matcher's result for each path against `pattern`.
pub open spec fn skim_scores(paths: Seq<Seq<char>>, pattern: Seq<char>) -> Seq<Option<i64>> {
    paths.map_values(|p: Seq<char>| skim_score(p, pattern))
}

/// The answer to a Path Index query: for a blank query the shortest paths
/// (ties by bytes) up to `limit`; otherwise the page of fuzzy matches of the
/// lower-cased query, ranked.
pub open spec fn path_query_result(
    paths: Seq<Seq<char>>,
    query: Seq<char>,
    offset: int,
    limit: int,
) -> Seq<Seq<char>> {
    if trimmed(query).len() == 0 {
        paths_of(page(ranked(unscored(paths)), 0, limit))
    } else {
        paths_of(page(ranked(path_hits(paths, skim_scores(paths, lower_of(query)))), offset, limit))
    }
}

fn ends_with3(b: &[u8], x: u8, y: u8, z: u8) -> (r: bool)
    ensures
        r == ends_with(b@, seq![x, y, z]),
{
    let n = b.len();
    let r = n >= 3 && b[n - 3] == x && b[n - 2] == y && b[n - 1] == z;
    proof {
        if n >= 3 {
            let t = b@.subrange(n - 3, n as int);
            if r {
                assert(t =~= seq![x, y, z]);
            } else {
                if t == seq![x, y, z] {
                    assert(t[0] == x && t[1] == y && t[2] == z);
                }
            }
        }
    }
    r
}

fn ends_with4(b: &[u8], w: u8, x: u8, y: u8, z: u8) -> (r: bool)
    ensures
        r == ends_with(b@, seq![w, x, y, z]),
{
    let n = b.len();
    let r = n >= 4 && b[n - 4] == w && b[n - 3] == x && b[n - 2] == y && b[n - 1] == z;
    proof {
        if n >= 4 {
            let t = b@.subrange(n - 4, n as int);
            if r {
                assert(t =~= seq![w, x, y, z]);
            } else {
                if t == seq![w, x, y, z] {
                    assert(t[0] == w && t[1] == x && t[2] == y && t[3] == z);
                }
            }
        }
    }
    r
}

/// The path ends in a source-code extension.
pub fn has_source_extension(path: &str) -> (r: bool)
    ensures
        r == is_source_path(path@),
{
    let b = path.as_bytes();
    ends_with3(b, 46u8, 114u8, 115u8) || ends_with3(b, 46u8, 116u8, 115u8) || ends_with4(
        b,
        46u8,
        116u8,
        115u8,
        120u8,
    ) || ends_with3(b, 46u8, 106u8, 115u8)
}

/// The score of a match on `path`: the matcher's score plus the source bonus.
pub fn match_score(path: &str, fuzzy: i64) -> (r: i128)
    ensures
        r == fuzzy as int + bonus_of(path@),
{
    let bonus: i128 = if has_source_extension(path) {
        SOURCE_BONUS
    } else {
        0
    };
    fuzzy as i128 + bonus
}

/// Ranks the paths by the given matcher results (`scores[i]` belongs to
/// `paths[i]`; `None` drops the path) and returns the page
/// `[offset, offset + limit)`.
pub fn rank_path_matches(
    paths: &Vec<String>,
    scores: &Vec<Option<i64>>,
    offset: usize,
    limit: usize,
) -> (r: Vec<String>)
    requires
        scores.len() == paths.len(),
    ensures
        strings_view(r@) == paths_of(
            page(ranked(path_hits(strings_view(paths@), scores@)), offset as int, limit as int),
        ),
{
    let mut hits: Vec<Hit> = Vec::new();
    let mut i: usize = 0;
    while i < paths.len()
        invariant
            i <= paths.len(),
            scores.len() == paths.len(),
            hits_view(hits@) == path_hits(strings_view(paths@).take(i as int), scores@),
        decreases paths.len() - i,
    {
        let ghost h0 = hits@;
        let ghost ps = strings_view(paths@);
        proof {
            assert(ps.take(i + 1).drop_last() =~= ps.take(i as int));
        }
        match scores[i] {
            Some(s) => {
                let score = match_score(paths[i].as_str(), s);
                hits.push(Hit { path: paths[i].clone(), score });
                proof {
                    assert(hits_view(hits@) =~= hits_view(h0).push(hits@.last()@));
                }
            },
            None => {},
        }
        i = i + 1;
    }
    proof {
        assert(strings_view(paths@).take(paths@.len() as int) =~= strings_view(paths@));
    }
    rank_page(&hits, offset, limit)
}

/// The shortest paths first (ties by bytes), up to `limit` of them.
pub fn shortest_paths(paths: &Vec<String>, limit: usize) -> (r: Vec<String>)
    ensures
        strings_view(r@) == paths_of(page(ranked(unscored(strings_view(paths@))), 0, limit as int)),
{
    let mut hits: Vec<Hit> = Vec::new();
    let mut i: usize = 0;
    while i < paths.len()
        invariant
            i <= paths.len(),
            hits_view(hits@) =~= unscored(strings_view(paths@)).take(i as int),
        decreases paths.len() - i,
    {
        let ghost h0 = hits@;
        hits.push(Hit { path: paths[i].clone(), score: 0 });
        proof {
            assert(hits_view(hits@) =~= hits_view(h0).push(hits@.last()@));
        }
        i = i + 1;
    }
    proof {
        assert(unscored(strings_view(paths@)).take(paths@.len() as int) =~= unscored(
            strings_view(paths@),
        ));
    }
    rank_page(&hits, 0, limit)
}

/// Answers a Path Index query over the indexed `paths`. A blank query returns
/// the shortest paths, up to the limit; otherwise each path is scored, in
/// parallel, by the fuzzy matcher against the lower-cased query, non-matches
/// are dropped, and
/// the page `[offset, offset + limit)` of the ranking is returned. Offset
/// defaults to 0 and limit to the default page size.
pub fn query_paths(
    paths: &Vec<String>,
    query: &str,
    offset: Option<usize>,
    limit: Option<usize>,
) -> (r: Vec<String>)
    ensures
        strings_view(r@) == path_query_result(
            strings_view(paths@),
            query@,
            match offset {
                Some(o) => o as int,
                None => 0,
            },
            match limit {
                Some(l) => l as int,
                None => DEFAULT_PAGE_SIZE as int,
            },
        ),
{
    let (off, lim) = page_window(offset, limit);
    let t = trim_text(query);
    if t.is_empty() {
        return shortest_paths(paths, lim);
    }
    let pattern = lowercase(query);
    let score = |p: &String| -> (s: Option<i64>)
        ensures
            s == skim_score(p@, pattern@),
        { skim_match(p.as_str(), pattern.as_str()) };
    let scores = par_map(paths, score);
    proof {
        assert(scores@ =~= skim_scores(strings_view(paths@), pattern@));
    }
    rank_path_matches(paths, &scores, off, lim)
}

} // verus!

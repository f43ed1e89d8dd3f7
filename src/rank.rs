//! Deterministic ranking and pagination of scored paths.
//!
//! Order: score descending, then path length (in bytes) ascending, then path
//! bytes in lexicographic order. It is a total order on (path, score) pairs,
//! so the ranked sequence of a collection of hits is unique.
use vstd::prelude::*;
use vstd::relations::{sorted_by, total_ordering};
use vstd::utf8::encode_utf8;

verus! {

/// Page size used when a query gives no limit.
pub const DEFAULT_PAGE_SIZE: usize = 150;

/// A path with its relevance score.
pub struct Hit {
    pub path: String,
    pub score: i128,
}

impl View for Hit {
    type V = (Seq<char>, int);

    open spec fn view(&self) -> (Seq<char>, int) {
        (self.path@, self.score as int)
    }
}

/// The models of a sequence of hits.
pub open spec fn hits_view(s: Seq<Hit>) -> Seq<(Seq<char>, int)> {
    s.map_values(|h: Hit| h@)
}

/// The UTF-8 bytes of a path.
pub open spec fn path_bytes(p: Seq<char>) -> Seq<u8> {
    encode_utf8(p)
}

/// Lexicographic `<=` on byte strings; a prefix comes first.
pub open spec fn bytes_le(a: Seq<u8>, b: Seq<u8>) -> bool
    decreases a.len(),
{
    if a.len() == 0 {
        true
    } else if b.len() == 0 {
        false
    } else if a[0] != b[0] {
        a[0] < b[0]
    } else {
        bytes_le(a.drop_first(), b.drop_first())
    }
}

/// `x` may stand before `y` in a ranking: a higher score, or an equal score
/// and a shorter path, or an equal score and length and a path that is not
/// lexicographically greater.
pub open spec fn ranks_no_later(x: (Seq<char>, int), y: (Seq<char>, int)) -> bool {
    let bx = path_bytes(x.0);
    let by = path_bytes(y.0);
    x.1 > y.1 || (x.1 == y.1 && (bx.len() < by.len() || (bx.len() == by.len() && bytes_le(
        bx,
        by,
    ))))
}

/// `ranks_no_later` as a relation, for `sorted_by` and the order laws.
pub open spec fn rank_order() -> spec_fn((Seq<char>, int), (Seq<char>, int)) -> bool {
    |x: (Seq<char>, int), y: (Seq<char>, int)| ranks_no_later(x, y)
}

/// `s` holds exactly the items, each as often, in ranking order.
pub open spec fn is_ranking(s: Seq<(Seq<char>, int)>, items: Seq<(Seq<char>, int)>) -> bool {
    sorted_by(s, rank_order()) && s.to_multiset() == items.to_multiset()
}

/// The ranking of `items` (unique, see `lemma_ranking_unique`).
pub open spec fn ranked(items: Seq<(Seq<char>, int)>) -> Seq<(Seq<char>, int)> {
    choose|s: Seq<(Seq<char>, int)>| is_ranking(s, items)
}

/// The window `[offset, offset + limit)` of `s`, cut at its end; empty when
/// `offset` is at or past the end.
pub open spec fn page<A>(s: Seq<A>, offset: int, limit: int) -> Seq<A> {
    if offset >= s.len() {
        Seq::empty()
    } else if offset + limit >= s.len() {
        s.subrange(offset, s.len() as int)
    } else {
        s.subrange(offset, offset + limit)
    }
}

/// The paths of a sequence of ranked items.
pub open spec fn paths_of(s: Seq<(Seq<char>, int)>) -> Seq<Seq<char>> {
    s.map_values(|x: (Seq<char>, int)| x.0)
}

/// The views of a sequence of strings.
pub open spec fn strings_view(s: Seq<String>) -> Seq<Seq<char>> {
    s.map_values(|p: String| p@)
}

proof fn lemma_bytes_le_reflexive(a: Seq<u8>)
    ensures
        bytes_le(a, a),
    decreases a.len(),
{
    if a.len() > 0 {
        lemma_bytes_le_reflexive(a.drop_first());
    }
}

proof fn lemma_bytes_le_antisymmetric(a: Seq<u8>, b: Seq<u8>)
    requires
        bytes_le(a, b),
        bytes_le(b, a),
    ensures
        a == b,
    decreases a.len(),
{
    if a.len() > 0 && b.len() > 0 {
        lemma_bytes_le_antisymmetric(a.drop_first(), b.drop_first());
        assert forall|i: int| 0 <= i < a.len() implies a[i] == b[i] by {
            if i > 0 {
                assert(a[i] == a.drop_first()[i - 1]);
                assert(b[i] == b.drop_first()[i - 1]);
            }
        }
        assert(a =~= b);
    } else {
        assert(a =~= b);
    }
}

proof fn lemma_bytes_le_transitive(a: Seq<u8>, b: Seq<u8>, c: Seq<u8>)
    requires
        bytes_le(a, b),
        bytes_le(b, c),
    ensures
        bytes_le(a, c),
    decreases a.len(),
{
    if a.len() > 0 && b.len() > 0 && c.len() > 0 {
        if a[0] == b[0] && b[0] == c[0] {
            lemma_bytes_le_transitive(a.drop_first(), b.drop_first(), c.drop_first());
        }
    }
}

proof fn lemma_bytes_le_total(a: Seq<u8>, b: Seq<u8>)
    ensures
        bytes_le(a, b) || bytes_le(b, a),
    decreases a.len(),
{
    if a.len() > 0 && b.len() > 0 && a[0] == b[0] {
        lemma_bytes_le_total(a.drop_first(), b.drop_first());
    }
}

pub proof fn lemma_path_bytes_injective(p: Seq<char>, q: Seq<char>)
    requires
        path_bytes(p) == path_bytes(q),
    ensures
        p == q,
{
    vstd::utf8::encode_utf8_decode_utf8(p);
    vstd::utf8::encode_utf8_decode_utf8(q);
}

/// The ranking relation is a total order.
pub proof fn lemma_rank_order_total()
    ensures
        total_ordering(rank_order()),
{
    let f = rank_order();
    assert forall|x: (Seq<char>, int)| #[trigger] f(x, x) by {
        lemma_bytes_le_reflexive(path_bytes(x.0));
    }
    assert forall|x: (Seq<char>, int), y: (Seq<char>, int)|
        #[trigger] f(x, y) && #[trigger] f(y, x) implies x == y by {
        lemma_bytes_le_antisymmetric(path_bytes(x.0), path_bytes(y.0));
        lemma_path_bytes_injective(x.0, y.0);
    }
    assert forall|x: (Seq<char>, int), y: (Seq<char>, int), z: (Seq<char>, int)|
        #[trigger] f(x, y) && #[trigger] f(y, z) implies f(x, z) by {
        if path_bytes(x.0).len() == path_bytes(y.0).len() && path_bytes(y.0).len() == path_bytes(
            z.0,
        ).len() && x.1 == y.1 && y.1 == z.1 {
            lemma_bytes_le_transitive(path_bytes(x.0), path_bytes(y.0), path_bytes(z.0));
        }
    }
    assert forall|x: (Seq<char>, int), y: (Seq<char>, int)|
        #[trigger] f(x, y) || #[trigger] f(y, x) by {
        lemma_bytes_le_total(path_bytes(x.0), path_bytes(y.0));
    }
}

/// Two rankings of the same items are the same sequence: items with equal
/// scores come out in the same relative order every time.
pub proof fn lemma_ranking_unique(
    s1: Seq<(Seq<char>, int)>,
    s2: Seq<(Seq<char>, int)>,
    items: Seq<(Seq<char>, int)>,
)
    requires
        is_ranking(s1, items),
        is_ranking(s2, items),
    ensures
        s1 == s2,
{
    lemma_rank_order_total();
    vstd::seq_lib::lemma_sorted_unique(s1, s2, rank_order());
}

/// A ranking of the items is what `ranked` denotes.
pub proof fn lemma_ranked_is(s: Seq<(Seq<char>, int)>, items: Seq<(Seq<char>, int)>)
    requires
        is_ranking(s, items),
    ensures
        ranked(items) == s,
{
    let t = ranked(items);
    assert(is_ranking(t, items));
    lemma_ranking_unique(s, t, items);
}

/// The paths of the first `k` pages of size `limit` of `s`, one after another.
pub open spec fn pages_joined(s: Seq<(Seq<char>, int)>, limit: int, k: nat) -> Seq<Seq<char>>
    decreases k,
{
    if k == 0 {
        Seq::empty()
    } else {
        pages_joined(s, limit, (k - 1) as nat) + paths_of(page(s, (k - 1) * limit, limit))
    }
}

/// Pagination law: the pages at offsets `0, limit, 2 * limit, ...` joined
/// give the ranked paths from the start, each exactly once; once the pages
/// cover the whole sequence they give all of it, and a page whose offset is
/// at or past the end is empty.
pub proof fn lemma_pages_reassemble(s: Seq<(Seq<char>, int)>, limit: int, k: nat)
    requires
        limit > 0,
    ensures
        pages_joined(s, limit, k) == paths_of(s).take(
            if k * limit <= s.len() {
                k * limit
            } else {
                s.len() as int
            },
        ),
        k * limit >= s.len() ==> pages_joined(s, limit, k) == paths_of(s),
        forall|offset: int| offset >= s.len() ==> #[trigger] page(s, offset, limit).len() == 0,
    decreases k,
{
    if k > 0 {
        let k1 = (k - 1) as nat;
        lemma_pages_reassemble(s, limit, k1);
        let o = k1 * limit;
        assert(k * limit == o + limit) by (nonlinear_arith)
            requires
                k1 == k - 1,
                o == k1 * limit,
        ;
        assert(o >= 0) by (nonlinear_arith)
            requires
                o == k1 * limit,
                limit > 0,
        ;
        let n = s.len() as int;
        if o >= n {
            assert(pages_joined(s, limit, k) =~= pages_joined(s, limit, k1));
        } else {
            let end = if o + limit <= n {
                o + limit
            } else {
                n
            };
            assert(paths_of(page(s, o, limit)) =~= paths_of(s).subrange(o, end));
            assert(paths_of(s).take(o) + paths_of(s).subrange(o, end) =~= paths_of(s).take(end));
        }
    } else {
        assert(pages_joined(s, limit, k) =~= paths_of(s).take(0));
    }
    assert(k * limit >= s.len() ==> paths_of(s).take(s.len() as int) =~= paths_of(s));
}

/// Lexicographic comparison of two byte strings.
fn bytes_no_greater(a: &[u8], b: &[u8]) -> (r: bool)
    ensures
        r == bytes_le(a@, b@),
{
    let mut i: usize = 0;
    assert(a@.skip(0) =~= a@);
    assert(b@.skip(0) =~= b@);
    while i < a.len() && i < b.len()
        invariant
            i <= a.len(),
            i <= b.len(),
            bytes_le(a@, b@) == bytes_le(a@.skip(i as int), b@.skip(i as int)),
        decreases a.len() - i,
    {
        assert(a@.skip(i as int).drop_first() =~= a@.skip(i + 1));
        assert(b@.skip(i as int).drop_first() =~= b@.skip(i + 1));
        if a[i] != b[i] {
            return a[i] < b[i];
        }
        i = i + 1;
    }
    i == a.len()
}

/// Whether `a` may stand before `b` in a ranking.
pub fn ranks_before_or_with(a: &Hit, b: &Hit) -> (r: bool)
    ensures
        r == ranks_no_later(a@, b@),
{
    if a.score != b.score {
        return a.score > b.score;
    }
    let ab = a.path.as_str().as_bytes();
    let bb = b.path.as_str().as_bytes();
    if ab.len() != bb.len() {
        return ab.len() < bb.len();
    }
    bytes_no_greater(ab, bb)
}

fn copy_hit(h: &Hit) -> (r: Hit)
    ensures
        r@ == h@,
{
    Hit { path: h.path.clone(), score: h.score }
}

proof fn lemma_hits_view_push(s: Seq<Hit>, h: Hit)
    ensures
        hits_view(s.push(h)) == hits_view(s).push(h@),
{
    assert(hits_view(s.push(h)) =~= hits_view(s).push(h@));
}

proof fn lemma_hits_view_take_push(s: Seq<Hit>, i: int)
    requires
        0 <= i < s.len(),
    ensures
        hits_view(s.take(i + 1)) == hits_view(s.take(i)).push(s[i]@),
{
    assert(s.take(i + 1) =~= s.take(i).push(s[i]));
    lemma_hits_view_push(s.take(i), s[i]);
}

/// Merge of two ranked runs into one.
fn merge_ranked(a: &Vec<Hit>, b: &Vec<Hit>) -> (r: Vec<Hit>)
    requires
        sorted_by(hits_view(a@), rank_order()),
        sorted_by(hits_view(b@), rank_order()),
    ensures
        sorted_by(hits_view(r@), rank_order()),
        hits_view(r@).to_multiset() == hits_view(a@).to_multiset().add(
            hits_view(b@).to_multiset(),
        ),
{
    broadcast use vstd::seq_lib::group_to_multiset_ensures;
    broadcast use vstd::multiset::group_multiset_axioms;

    proof {
        lemma_rank_order_total();
    }
    let ghost f = rank_order();
    let mut r: Vec<Hit> = Vec::new();
    let mut i: usize = 0;
    let mut j: usize = 0;
    while i < a.len() || j < b.len()
        invariant
            total_ordering(f),
            f == rank_order(),
            sorted_by(hits_view(a@), f),
            sorted_by(hits_view(b@), f),
            i <= a.len(),
            j <= b.len(),
            sorted_by(hits_view(r@), f),
            hits_view(r@).to_multiset() == hits_view(a@.take(i as int)).to_multiset().add(
                hits_view(b@.take(j as int)).to_multiset(),
            ),
            r@.len() > 0 && i < a.len() ==> f(r@.last()@, a@[i as int]@),
            r@.len() > 0 && j < b.len() ==> f(r@.last()@, b@[j as int]@),
        decreases a.len() + b.len() - i - j,
    {
        let ghost r0 = r@;
        let ghost i0 = i as int;
        let ghost j0 = j as int;
        proof {
            if i < a.len() && j < b.len() {
                assert(f(a@[i0]@, b@[j0]@) || f(b@[j0]@, a@[i0]@));
            }
        }
        let take_a = if i >= a.len() {
            false
        } else if j >= b.len() {
            true
        } else {
            ranks_before_or_with(&a[i], &b[j])
        };
        let h;
        if take_a {
            h = copy_hit(&a[i]);
            i = i + 1;
        } else {
            h = copy_hit(&b[j]);
            j = j + 1;
        }
        let ghost hv = h@;
        r.push(h);
        proof {
            lemma_hits_view_push(r0, r@.last());
            assert(r@ == r0.push(r@.last()));
            if take_a {
                lemma_hits_view_take_push(a@, i0);
                assert(hv == hits_view(a@)[i0]);
                if i < a.len() {
                    assert(f(hits_view(a@)[i0], hits_view(a@)[i as int]));
                }
                if j < b.len() {
                    assert(f(hv, b@[j as int]@));
                }
            } else {
                lemma_hits_view_take_push(b@, j0);
                assert(hv == hits_view(b@)[j0]);
                if j < b.len() {
                    assert(f(hits_view(b@)[j0], hits_view(b@)[j as int]));
                }
                if i < a.len() {
                    assert(f(hv, a@[i as int]@));
                }
            }
            let rv = hits_view(r@);
            assert forall|p: int, q: int| 0 <= p < q < rv.len() implies #[trigger] f(
                rv[p],
                rv[q],
            ) by {
                if q == rv.len() - 1 && p < q - 1 {
                    assert(f(rv[p], rv[q - 1]));
                    assert(f(rv[q - 1], rv[q]));
                }
            }
            vstd::seq_lib::to_multiset_build(hits_view(r0), hv);
            if take_a {
                vstd::seq_lib::to_multiset_build(hits_view(a@.take(i0)), hv);
            } else {
                vstd::seq_lib::to_multiset_build(hits_view(b@.take(j0)), hv);
            }
            assert(hits_view(r@).to_multiset() =~= hits_view(a@.take(i as int)).to_multiset().add(
                hits_view(b@.take(j as int)).to_multiset(),
            ));
        }
    }
    proof {
        assert(a@.take(i as int) == a@);
        assert(b@.take(j as int) == b@);
    }
    r
}

/// The hits of `v[lo..hi]`, in ranking order.
fn sort_ranked(v: &Vec<Hit>, lo: usize, hi: usize) -> (r: Vec<Hit>)
    requires
        lo <= hi <= v.len(),
    ensures
        is_ranking(hits_view(r@), hits_view(v@.subrange(lo as int, hi as int))),
    decreases hi - lo,
{
    broadcast use vstd::seq_lib::group_to_multiset_ensures;

    if hi - lo <= 1 {
        let mut r: Vec<Hit> = Vec::new();
        if hi - lo == 1 {
            r.push(copy_hit(&v[lo]));
        }
        proof {
            assert(hits_view(r@) =~= hits_view(v@.subrange(lo as int, hi as int)));
        }
        r
    } else {
        let mid: usize = lo + (hi - lo) / 2;
        let left = sort_ranked(v, lo, mid);
        let right = sort_ranked(v, mid, hi);
        let r = merge_ranked(&left, &right);
        proof {
            let s = v@.subrange(lo as int, hi as int);
            let s1 = v@.subrange(lo as int, mid as int);
            let s2 = v@.subrange(mid as int, hi as int);
            assert(s =~= s1 + s2);
            assert(hits_view(s) =~= hits_view(s1) + hits_view(s2));
            vstd::seq_lib::lemma_multiset_commutative(hits_view(s1), hits_view(s2));
        }
        r
    }
}

/// The hits in ranking order.
pub fn rank_hits(hits: &Vec<Hit>) -> (r: Vec<Hit>)
    ensures
        is_ranking(hits_view(r@), hits_view(hits@)),
        hits_view(r@) == ranked(hits_view(hits@)),
{
    let r = sort_ranked(hits, 0, hits.len());
    proof {
        assert(hits@.subrange(0, hits@.len() as int) =~= hits@);
        lemma_ranked_is(hits_view(r@), hits_view(hits@));
    }
    r
}

/// The page `[offset, offset + limit)` of a sequence of hits, as paths.
pub fn page_paths(ranked_hits: &Vec<Hit>, offset: usize, limit: usize) -> (r: Vec<String>)
    ensures
        strings_view(r@) == paths_of(page(hits_view(ranked_hits@), offset as int, limit as int)),
{
    let n = ranked_hits.len();
    let mut r: Vec<String> = Vec::new();
    if offset >= n {
        proof {
            assert(strings_view(r@) =~= paths_of(
                page(hits_view(ranked_hits@), offset as int, limit as int),
            ));
        }
        return r;
    }
    let end: usize = if limit >= n - offset {
        n
    } else {
        offset + limit
    };
    let ghost want = paths_of(page(hits_view(ranked_hits@), offset as int, limit as int));
    assert(want.len() == end - offset);
    let mut k: usize = offset;
    while k < end
        invariant
            offset <= k <= end <= n,
            n == ranked_hits@.len(),
            want == paths_of(page(hits_view(ranked_hits@), offset as int, limit as int)),
            want.len() == end - offset,
            forall|t: int| 0 <= t < want.len() ==> #[trigger] want[t] == ranked_hits@[offset
                + t].path@,
            strings_view(r@) =~= want.take(k - offset),
        decreases end - k,
    {
        let ghost r0 = r@;
        let p = ranked_hits[k].path.clone();
        r.push(p);
        proof {
            assert(strings_view(r@) =~= strings_view(r0).push(p@));
            assert(want.take(k + 1 - offset) =~= want.take(k - offset).push(want[k - offset]));
        }
        k = k + 1;
    }
    proof {
        assert(want.take(end - offset) =~= want);
    }
    r
}

/// Ranks the hits and returns the page `[offset, offset + limit)` of their
/// paths. An offset at or past the number of hits gives an empty page.
pub fn rank_page(hits: &Vec<Hit>, offset: usize, limit: usize) -> (r: Vec<String>)
    ensures
        strings_view(r@) == paths_of(page(ranked(hits_view(hits@)), offset as int, limit as int)),
{
    let sorted = rank_hits(hits);
    page_paths(&sorted, offset, limit)
}

/// The offset and limit of a query, with their defaults filled in.
pub fn page_window(offset: Option<usize>, limit: Option<usize>) -> (r: (usize, usize))
    ensures
        r.0 == match offset {
            Some(o) => o,
            None => 0,
        },
        r.1 == match limit {
            Some(l) => l,
            None => DEFAULT_PAGE_SIZE,
        },
{
    let off = match offset {
        Some(o) => o,
        None => 0,
    };
    let lim = match limit {
        Some(l) => l,
        None => DEFAULT_PAGE_SIZE,
    };
    (off, lim)
}

} // verus!

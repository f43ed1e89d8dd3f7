//! Overlap of two signatures, counted by a linear merge-walk.
use vstd::prelude::*;
use crate::trigram::ascending;

verus! {

/// How many elements of `a` also occur in `b`: the plain, element-by-element
/// reference count.
pub open spec fn common_count(a: Seq<u32>, b: Seq<u32>) -> nat
    decreases a.len(),
{
    if a.len() == 0 {
        0
    } else {
        common_count(a.drop_last(), b) + if b.contains(a.last()) {
            1nat
        } else {
            0nat
        }
    }
}

proof fn lemma_common_count_tail_absent(a: Seq<u32>, b: Seq<u32>, i: int)
    requires
        0 <= i <= a.len(),
        forall|k: int| i <= k < a.len() ==> !b.contains(#[trigger] a[k]),
    ensures
        common_count(a, b) == common_count(a.take(i), b),
    decreases a.len(),
{
    if a.len() > i {
        assert(a.drop_last().take(i) =~= a.take(i));
        lemma_common_count_tail_absent(a.drop_last(), b, i);
    } else {
        assert(a.take(i) =~= a);
    }
}

/// The merge-walk count agrees with the size of the set intersection.
pub proof fn lemma_common_count_is_intersection_size(a: Seq<u32>, b: Seq<u32>)
    requires
        ascending(a),
    ensures
        common_count(a, b) == a.to_set().intersect(b.to_set()).len(),
    decreases a.len(),
{
    broadcast use vstd::seq_lib::group_seq_properties;
    broadcast use vstd::set::group_set_axioms;

    if a.len() == 0 {
        assert(a.to_set() =~= Set::<u32>::empty());
        assert(a.to_set().intersect(b.to_set()) =~= Set::<u32>::empty());
    } else {
        let init = a.drop_last();
        let x = a.last();
        assert(ascending(init));
        lemma_common_count_is_intersection_size(init, b);
        assert(a == init.push(x));
        init.lemma_push_to_set_commute(x);
        assert(!init.contains(x)) by {
            if init.contains(x) {
                let k = choose|k: int| 0 <= k < init.len() && init[k] == x;
                assert(a[k] < a[a.len() - 1]);
            }
        }
        let s = init.to_set().intersect(b.to_set());
        if b.contains(x) {
            assert(a.to_set().intersect(b.to_set()) =~= s.insert(x));
            assert(!s.contains(x));
        } else {
            assert(a.to_set().intersect(b.to_set()) =~= s);
        }
    }
}

/// Number of values common to two ascending signatures, found in one linear
/// merge-walk: advance the smaller side, count and advance both on a match.
pub fn intersection_size(a: &[u32], b: &[u32]) -> (r: usize)
    requires
        ascending(a@),
        ascending(b@),
    ensures
        r == common_count(a@, b@),
        r == a@.to_set().intersect(b@.to_set()).len(),
{
    let mut i: usize = 0;
    let mut j: usize = 0;
    let mut count: usize = 0;
    while i < a.len() && j < b.len()
        invariant
            ascending(a@),
            ascending(b@),
            i <= a.len(),
            j <= b.len(),
            count <= i,
            count == common_count(a@.take(i as int), b@),
            i > 0 && j < b.len() ==> a@[i - 1] < b@[j as int],
            j > 0 && i < a.len() ==> b@[j - 1] < a@[i as int],
        decreases a.len() + b.len() - i - j,
    {
        let ghost i0 = i as int;
        assert(a@.take(i0 + 1).drop_last() =~= a@.take(i0));
        if a[i] == b[j] {
            assert(b@.contains(a@[i0]));
            count = count + 1;
            i = i + 1;
            j = j + 1;
        } else if a[i] < b[j] {
            assert(!b@.contains(a@[i0])) by {
                if b@.contains(a@[i0]) {
                    let k = choose|k: int| 0 <= k < b@.len() && b@[k] == a@[i0];
                    if k >= j {
                        assert(b@[k] >= b@[j as int]);
                    } else if k < j - 1 {
                        assert(b@[k] < b@[j - 1]);
                    }
                }
            }
            i = i + 1;
        } else {
            j = j + 1;
        }
    }
    proof {
        if i < a.len() {
            assert forall|k: int| i <= k < a@.len() implies !b@.contains(#[trigger] a@[k]) by {
                if b@.contains(a@[k]) {
                    let m = choose|m: int| 0 <= m < b@.len() && b@[m] == a@[k];
                    if m < j - 1 {
                        assert(b@[m] < b@[j - 1]);
                    }
                    if k > i {
                        assert(a@[k] > a@[i as int]);
                    }
                }
            }
        }
        lemma_common_count_tail_absent(a@, b@, i as int);
        lemma_common_count_is_intersection_size(a@, b@);
    }
    count
}

} // verus!

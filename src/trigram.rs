//! Trigram signatures: the sorted, duplicate-free set of 3-byte windows of a text.
use vstd::prelude::*;
use vstd::string::StringSliceAdditionalSpecFns;

verus! {

/// The 24-bit code of one 3-byte window: first byte in bits 16..23, second in
/// bits 8..15, third in bits 0..7.
pub open spec fn trigram_code(b0: u8, b1: u8, b2: u8) -> u32 {
    (b0 as int * 65536 + b1 as int * 256 + b2 as int) as u32
}

/// The code of every 3-byte window of `bytes`, in order of position.
pub open spec fn window_codes(bytes: Seq<u8>) -> Seq<u32> {
    if bytes.len() < 3 {
        Seq::empty()
    } else {
        Seq::new(
            (bytes.len() - 2) as nat,
            |i: int| trigram_code(bytes[i], bytes[i + 1], bytes[i + 2]),
        )
    }
}

/// The set of trigram codes that occur in `bytes`.
pub open spec fn trigram_set(bytes: Seq<u8>) -> Set<u32> {
    window_codes(bytes).to_set()
}

/// Strictly ascending, hence sorted and free of duplicates.
pub open spec fn ascending(s: Seq<u32>) -> bool {
    forall|i: int, j: int| 0 <= i < j < s.len() ==> s[i] < s[j]
}

/// `sig` is the signature of `bytes`: its trigram codes, ascending, each once.
pub open spec fn is_signature_of(sig: Seq<u32>, bytes: Seq<u8>) -> bool {
    ascending(sig) && sig.to_set() == trigram_set(bytes)
}

/// Packs one window into its code.
pub fn pack_trigram(b0: u8, b1: u8, b2: u8) -> (r: u32)
    ensures
        r == trigram_code(b0, b1, b2),
        r < 16777216,
{
    (b0 as u32) * 65536 + (b1 as u32) * 256 + (b2 as u32)
}

/// Union of two ascending sequences, ascending.
fn merge_union(a: &Vec<u32>, b: &Vec<u32>) -> (r: Vec<u32>)
    requires
        ascending(a@),
        ascending(b@),
    ensures
        ascending(r@),
        r@.to_set() == a@.to_set() + b@.to_set(),
{
    broadcast use vstd::seq_lib::group_seq_properties;

    let mut r: Vec<u32> = Vec::new();
    let mut i: usize = 0;
    let mut j: usize = 0;
    while i < a.len() || j < b.len()
        invariant
            ascending(a@),
            ascending(b@),
            i <= a.len(),
            j <= b.len(),
            ascending(r@),
            r@.to_set() == a@.take(i as int).to_set() + b@.take(j as int).to_set(),
            r@.len() > 0 && i < a.len() ==> r@.last() < a@[i as int],
            r@.len() > 0 && j < b.len() ==> r@.last() < b@[j as int],
        decreases a.len() + b.len() - i - j,
    {
        let ghost r0 = r@;
        let ghost i0 = i as int;
        let ghost j0 = j as int;
        if j >= b.len() || (i < a.len() && a[i] < b[j]) {
            r.push(a[i]);
            i = i + 1;
            proof {
                assert(a@.take(i as int) == a@.take(i0).push(a@[i0]));
            }
        } else if i >= a.len() || b[j] < a[i] {
            r.push(b[j]);
            j = j + 1;
            proof {
                assert(b@.take(j as int) == b@.take(j0).push(b@[j0]));
            }
        } else {
            r.push(a[i]);
            i = i + 1;
            j = j + 1;
            proof {
                assert(a@.take(i as int) == a@.take(i0).push(a@[i0]));
                assert(b@.take(j as int) == b@.take(j0).push(b@[j0]));
            }
        }
        proof {
            let x = r@.last();
            assert(r@ == r0.push(x));
            r0.lemma_push_to_set_commute(x);
            if i as int > i0 {
                a@.take(i0).lemma_push_to_set_commute(a@[i0]);
            }
            if j as int > j0 {
                b@.take(j0).lemma_push_to_set_commute(b@[j0]);
            }
            assert(r@.to_set() =~= a@.take(i as int).to_set() + b@.take(j as int).to_set());
        }
    }
    proof {
        assert(a@.take(i as int) == a@);
        assert(b@.take(j as int) == b@);
    }
    r
}

/// The distinct values of `v[lo..hi]`, ascending.
fn sort_unique(v: &Vec<u32>, lo: usize, hi: usize) -> (r: Vec<u32>)
    requires
        lo <= hi <= v.len(),
    ensures
        ascending(r@),
        r@.to_set() == v@.subrange(lo as int, hi as int).to_set(),
    decreases hi - lo,
{
    broadcast use vstd::seq_lib::group_seq_properties;

    if hi - lo == 0 {
        let r: Vec<u32> = Vec::new();
        proof {
            assert(v@.subrange(lo as int, hi as int) =~= Seq::<u32>::empty());
            assert(r@.to_set() =~= Set::<u32>::empty());
        }
        r
    } else if hi - lo == 1 {
        let mut r: Vec<u32> = Vec::new();
        r.push(v[lo]);
        proof {
            assert(v@.subrange(lo as int, hi as int) =~= r@);
        }
        r
    } else {
        let mid: usize = lo + (hi - lo) / 2;
        let left = sort_unique(v, lo, mid);
        let right = sort_unique(v, mid, hi);
        let r = merge_union(&left, &right);
        proof {
            assert(v@.subrange(lo as int, hi as int) =~= v@.subrange(lo as int, mid as int)
                + v@.subrange(mid as int, hi as int));
            vstd::seq_lib::seq_to_set_distributes_over_add(
                v@.subrange(lo as int, mid as int),
                v@.subrange(mid as int, hi as int),
            );
        }
        r
    }
}

/// The signature of a byte string: each 3-byte window packed into its code,
/// ascending and without duplicates. Empty exactly when `bytes` is shorter
/// than three bytes.
pub fn signature_of_bytes(bytes: &[u8]) -> (r: Vec<u32>)
    ensures
        is_signature_of(r@, bytes@),
        r@.len() == 0 <==> bytes@.len() < 3,
{
    broadcast use vstd::seq_lib::group_seq_properties;

    let mut codes: Vec<u32> = Vec::new();
    if bytes.len() >= 3 {
        let n: usize = bytes.len() - 2;
        let mut i: usize = 0;
        while i < n
            invariant
                n == bytes@.len() - 2,
                i <= n,
                codes@ =~= window_codes(bytes@).take(i as int),
            decreases n - i,
        {
            let c = pack_trigram(bytes[i], bytes[i + 1], bytes[i + 2]);
            codes.push(c);
            i = i + 1;
        }
    }
    proof {
        assert(codes@ =~= window_codes(bytes@));
    }
    let r = sort_unique(&codes, 0, codes.len());
    proof {
        assert(codes@.subrange(0, codes@.len() as int) =~= codes@);
        if bytes@.len() >= 3 {
            assert(codes@.to_set().contains(codes@[0]));
            if r@.len() == 0 {
                assert(r@.to_set() =~= Set::<u32>::empty());
            }
        } else {
            assert(codes@.to_set() =~= Set::<u32>::empty());
            if r@.len() > 0 {
                assert(r@.to_set().contains(r@[0]));
            }
        }
    }
    r
}

/// The signature of a text, taken over its UTF-8 bytes.
pub fn extract_trigrams(text: &str) -> (r: Vec<u32>)
    ensures
        is_signature_of(r@, text.spec_bytes()),
        r@.len() == 0 <==> text.spec_bytes().len() < 3,
{
    signature_of_bytes(text.as_bytes())
}

} // verus!

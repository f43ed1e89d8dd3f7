//! The index cache: at most one record per workspace root, valid exactly
//! while the root's freshness stamp (its own modification time) is unchanged.
//!
//! A lookup walks the short list of cached roots; at one to three open roots
//! a linear scan is cheaper and simpler than a map. A rebuild replaces the
//! whole record of its root and leaves the others alone.
use vstd::prelude::*;
use vstd::string::StringSliceAdditionalSpecFns;
use crate::rank::lemma_path_bytes_injective;

verus! {

/// The cached index of one root.
pub struct IndexRecord<P> {
    pub root: String,
    pub stamp: u64,
    pub payload: P,
}

/// Cached records, keyed by root.
pub struct IndexCache<P> {
    records: Vec<IndexRecord<P>>,
}

/// The model of a record: root, freshness stamp, payload.
pub open spec fn record_view<P>(r: IndexRecord<P>) -> (Seq<char>, u64, P) {
    (r.root@, r.stamp, r.payload)
}

/// Some record of `s` belongs to `root`.
pub open spec fn has_root<P>(s: Seq<(Seq<char>, u64, P)>, root: Seq<char>) -> bool {
    exists|i: int| 0 <= i < s.len() && (#[trigger] s[i]).0 == root
}

/// The position of the record of `root` (meaningful when `has_root`).
pub open spec fn root_index<P>(s: Seq<(Seq<char>, u64, P)>, root: Seq<char>) -> int {
    choose|i: int| 0 <= i < s.len() && (#[trigger] s[i]).0 == root
}

/// No root has two records.
pub open spec fn unique_roots<P>(s: Seq<(Seq<char>, u64, P)>) -> bool {
    forall|i: int, j: int| 0 <= i < j < s.len() ==> (#[trigger] s[i]).0 != (#[trigger] s[j]).0
}

/// The records after installing `rec`: it replaces the record of its root,
/// or is added when the root had none.
pub open spec fn installed<P>(s: Seq<(Seq<char>, u64, P)>, rec: (Seq<char>, u64, P)) -> Seq<
    (Seq<char>, u64, P),
> {
    if has_root(s, rec.0) {
        s.update(root_index(s, rec.0), rec)
    } else {
        s.push(rec)
    }
}

/// The payload cached for `root` if its stamp is `stamp`; `None` when the
/// root has no record or its record carries another stamp.
pub open spec fn fresh_entry<P>(s: Seq<(Seq<char>, u64, P)>, root: Seq<char>, stamp: u64) -> Option<
    P,
> {
    if has_root(s, root) && s[root_index(s, root)].1 == stamp {
        Some(s[root_index(s, root)].2)
    } else {
        None
    }
}

proof fn lemma_root_index_unique<P>(s: Seq<(Seq<char>, u64, P)>, root: Seq<char>, i: int)
    requires
        unique_roots(s),
        0 <= i < s.len(),
        s[i].0 == root,
    ensures
        has_root(s, root),
        root_index(s, root) == i,
{
    assert(has_root(s, root));
    let k = root_index(s, root);
    if k != i {
        if k < i {
            assert(s[k].0 != s[i].0);
        } else {
            assert(s[i].0 != s[k].0);
        }
    }
}

/// Idempotence of the cache: once a record is installed, a lookup of its
/// root at the same stamp finds exactly that payload (so a second build
/// finds it without scanning), a lookup at any other stamp finds nothing,
/// and the records of other roots are as before.
pub proof fn lemma_install_then_lookup<P>(
    s: Seq<(Seq<char>, u64, P)>,
    root: Seq<char>,
    stamp: u64,
    payload: P,
)
    requires
        unique_roots(s),
    ensures
        unique_roots(installed(s, (root, stamp, payload))),
        fresh_entry(installed(s, (root, stamp, payload)), root, stamp) == Some(payload),
        forall|other: u64|
            other != stamp ==> #[trigger] fresh_entry(installed(s, (root, stamp, payload)), root, other)
                is None,
        forall|r: Seq<char>, st: u64|
            r != root ==> #[trigger] fresh_entry(installed(s, (root, stamp, payload)), r, st)
                == fresh_entry(s, r, st),
{
    let rec = (root, stamp, payload);
    let t = installed(s, rec);
    let pos = if has_root(s, root) {
        root_index(s, root)
    } else {
        s.len() as int
    };
    assert(t[pos] == rec);
    assert forall|i: int, j: int| 0 <= i < j < t.len() implies (#[trigger] t[i]).0 != (
    #[trigger] t[j]).0 by {
        if i != pos && j != pos {
            assert(t[i] == s[i] && t[j] == s[j]);
        } else if i == pos {
            if j < s.len() {
                assert(t[j] == s[j]);
                if s[j].0 == root {
                    lemma_root_index_unique(s, root, j);
                }
            }
        } else {
            if i < s.len() {
                assert(t[i] == s[i]);
                if s[i].0 == root {
                    lemma_root_index_unique(s, root, i);
                }
            }
        }
    }
    lemma_root_index_unique(t, root, pos);
    assert forall|r: Seq<char>, st: u64| r != root implies #[trigger] fresh_entry(t, r, st)
        == fresh_entry(s, r, st) by {
        if has_root(s, r) {
            let k = root_index(s, r);
            assert(k != pos);
            assert(t[k] == s[k]);
            lemma_root_index_unique(t, r, k);
        }
        if has_root(t, r) {
            let k = root_index(t, r);
            assert(k != pos);
            assert(t[k] == s[k]);
            lemma_root_index_unique(s, r, k);
        }
    }
}

/// The two texts are the same.
pub fn same_text(a: &str, b: &str) -> (r: bool)
    ensures
        r == (a@ == b@),
{
    let x = a.as_bytes();
    let y = b.as_bytes();
    if x.len() != y.len() {
        return false;
    }
    let mut i: usize = 0;
    while i < x.len()
        invariant
            x@ == a.spec_bytes(),
            y@ == b.spec_bytes(),
            x.len() == y.len(),
            i <= x.len(),
            forall|k: int| 0 <= k < i ==> x@[k] == y@[k],
        decreases x.len() - i,
    {
        if x[i] != y[i] {
            return false;
        }
        i = i + 1;
    }
    proof {
        assert(x@ =~= y@);
        lemma_path_bytes_injective(a@, b@);
    }
    true
}

impl<P> View for IndexCache<P> {
    type V = Seq<(Seq<char>, u64, P)>;

    closed spec fn view(&self) -> Seq<(Seq<char>, u64, P)> {
        self.records@.map_values(|r: IndexRecord<P>| record_view(r))
    }
}

impl<P> IndexCache<P> {
    /// The cache keeps at most one record per root.
    #[verifier::type_invariant]
    spec fn one_record_per_root(&self) -> bool {
        unique_roots(self@)
    }

    /// An empty cache.
    pub fn new() -> (r: Self)
        ensures
            r@ == Seq::<(Seq<char>, u64, P)>::empty(),
    {
        let r = IndexCache { records: Vec::new() };
        proof {
            assert(r@ =~= Seq::<(Seq<char>, u64, P)>::empty());
        }
        r
    }

    /// Number of cached roots.
    pub fn len(&self) -> (r: usize)
        ensures
            r == self@.len(),
    {
        self.records.len()
    }

    /// Position of the record of `root`, if any.
    fn find_root(&self, root: &str) -> (r: Option<usize>)
        ensures
            r matches Some(i) ==> i < self@.len() && has_root(self@, root@) && root_index(
                self@,
                root@,
            ) == i,
            r is None ==> !has_root(self@, root@),
    {
        proof {
            use_type_invariant(self);
        }
        let mut i: usize = 0;
        while i < self.records.len()
            invariant
                unique_roots(self@),
                i <= self.records.len(),
                forall|k: int| 0 <= k < i ==> (#[trigger] self@[k]).0 != root@,
            decreases self.records.len() - i,
        {
            assert(self@[i as int] == record_view(self.records@[i as int]));
            if same_text(self.records[i].root.as_str(), root) {
                proof {
                    lemma_root_index_unique(self@, root@, i as int);
                }
                return Some(i);
            }
            i = i + 1;
        }
        None
    }

    /// The payload cached for `root`, if its record carries `stamp`; `None`
    /// means the index has to be built.
    pub fn lookup(&self, root: &str, stamp: u64) -> (r: Option<&P>)
        ensures
            r matches Some(p) ==> fresh_entry(self@, root@, stamp) == Some(*p),
            r is None ==> fresh_entry(self@, root@, stamp) is None,
    {
        match self.find_root(root) {
            Some(i) => {
                assert(self@[i as int] == record_view(self.records@[i as int]));
                if self.records[i].stamp == stamp {
                    Some(&self.records[i].payload)
                } else {
                    None
                }
            },
            None => None,
        }
    }

    /// Installs a freshly built record for `root`, replacing the whole
    /// previous record of that root (never merging with it).
    pub fn install(&mut self, root: String, stamp: u64, payload: P)
        ensures
            final(self)@ == installed(old(self)@, (root@, stamp, payload)),
    {
        let ghost rec = (root@, stamp, payload);
        let ghost s = self@;
        proof {
            use_type_invariant(&*self);
            lemma_install_then_lookup(s, root@, stamp, payload);
        }
        let found = self.find_root(root.as_str());
        let mut records: Vec<IndexRecord<P>> = Vec::new();
        std::mem::swap(&mut records, &mut self.records);
        let ghost rv = records@.map_values(|r: IndexRecord<P>| record_view(r));
        assert(rv == s);
        match found {
            Some(i) => {
                records.set(i, IndexRecord { root, stamp, payload });
            },
            None => {
                records.push(IndexRecord { root, stamp, payload });
            },
        }
        proof {
            let nv = records@.map_values(|r: IndexRecord<P>| record_view(r));
            assert(nv =~= installed(s, rec));
        }
        self.records = records;
    }
}

} // verus!

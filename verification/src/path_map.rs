//! An ordered mapping from relative paths to values, kept as a sorted list.
//!
//! The order of the entries is part of what the differ states: the report
//! lists the paths in it, and a path comes before all that lies below it.
//! The mapping therefore orders its paths by `path_less`, of which the facts
//! are proved, and not by an `Ord` impl, of which nothing is.

use vstd::prelude::*;
use crate::order::Order;
use crate::path::lemma_path_less_asymmetric;
use crate::path::lemma_path_less_irreflexive;
use crate::path::lemma_path_less_transitive;
use crate::path::path_less;
use crate::path::valid_components;
use crate::path::RelativePath;

verus! {

/// The keys come one before the other in the order of paths.
pub open spec fn sorted(keys: Seq<Seq<Seq<char>>>) -> bool {
    forall|i: int, j: int| 0 <= i < j < keys.len() ==> path_less(keys[i], keys[j])
}

/// A mapping from relative paths to values that keeps its entries in the
/// order of their paths.
#[derive(Debug)]
pub struct PathMap<V> {
    entries: Vec<(RelativePath, V)>,
}

/// The paths of a list of entries.
spec fn keys_of<V>(entries: Seq<(RelativePath, V)>) -> Seq<Seq<Seq<char>>> {
    Seq::new(entries.len(), |i: int| entries[i].0@)
}

/// What a list of entries must be to stand in a mapping.
spec fn entries_wf<V>(entries: Seq<(RelativePath, V)>) -> bool {
    &&& sorted(keys_of(entries))
    &&& forall|i: int|
        0 <= i < keys_of(entries).len() ==> valid_components(#[trigger] keys_of(entries)[i])
}

impl<V> View for PathMap<V> {
    type V = Map<Seq<Seq<char>>, V>;

    closed spec fn view(&self) -> Map<Seq<Seq<char>>, V> {
        Map::new(
            |p: Seq<Seq<char>>| self.keys().contains(p),
            |p: Seq<Seq<char>>| self.values()[self.keys().index_of(p)],
        )
    }
}

impl<V> PathMap<V> {
    /// The paths of the entries, in their order.
    pub closed spec fn keys(self) -> Seq<Seq<Seq<char>>> {
        keys_of(self.entries@)
    }

    /// The values of the entries, in the order of their paths.
    pub closed spec fn values(self) -> Seq<V> {
        Seq::new(self.entries@.len(), |i: int| self.entries@[i].1)
    }

    /// The paths are valid and stand in strictly rising order.
    #[verifier::type_invariant]
    pub closed spec fn wf(self) -> bool {
        entries_wf(self.entries@)
    }

    /// How the list of entries and the mapping belong together.
    pub proof fn lemma_entries(self)
        requires
            self.wf(),
        ensures
            sorted(self.keys()),
            self.keys().len() == self.values().len(),
            self.keys().no_duplicates(),
            forall|i: int|
                0 <= i < self.keys().len() ==> valid_components(#[trigger] self.keys()[i]),
            forall|i: int|
                0 <= i < self.keys().len() ==> self@.contains_key(#[trigger] self.keys()[i])
                    && self@[self.keys()[i]] == self.values()[i],
            forall|p: Seq<Seq<char>>| self@.contains_key(p) <==> self.keys().contains(p),
            forall|p: Seq<Seq<char>>| #[trigger]
                self@.contains_key(p) ==> valid_components(p),
    {
        let keys = self.keys();
        assert forall|i: int, j: int| 0 <= i < keys.len() && 0 <= j < keys.len() && i != j implies keys[i]
            != keys[j] by {
            if i < j {
                lemma_path_less_asymmetric(keys[i], keys[j]);
            } else {
                lemma_path_less_asymmetric(keys[j], keys[i]);
            }
        }
        assert forall|i: int| 0 <= i < keys.len() implies self@.contains_key(#[trigger] keys[i])
            && self@[keys[i]] == self.values()[i] by {
            assert(keys.contains(keys[i]));
            let k = keys.index_of(keys[i]);
            assert(k == i);
        }
    }

    /// The mapping without entries.
    pub fn new() -> (r: Self)
        ensures
            r@ == Map::<Seq<Seq<char>>, V>::empty(),
            r.keys().len() == 0,
            r.wf(),
    {
        let r = PathMap { entries: Vec::new() };
        assert(r@ =~= Map::<Seq<Seq<char>>, V>::empty());
        r
    }

    /// The number of entries.
    pub fn len(&self) -> (r: usize)
        ensures
            r == self.keys().len(),
            r == self.values().len(),
    {
        self.entries.len()
    }

    /// The entry at a position in the order of paths.
    pub fn entry(&self, i: usize) -> (r: Option<(&RelativePath, &V)>)
        ensures
            r is Some <==> i < self.keys().len(),
            r matches Some(e) ==> e.0@ == self.keys()[i as int] && *e.1 == self.values()[i as int]
                && e.0.wf(),
    {
        if i < self.entries.len() {
            let e = &self.entries[i];
            proof {
                use_type_invariant(&e.0);
            }
            Some((&e.0, &e.1))
        } else {
            None
        }
    }

    /// Looks a path up: `Ok` with the position of its entry, or `Err` with
    /// the position at which an entry for it would stand.
    pub fn search(&self, path: &RelativePath) -> (r: Result<usize, usize>)
        ensures
            match r {
                Ok(i) => i < self.keys().len() && self.keys()[i as int] == path@,
                Err(i) => {
                    &&& i <= self.keys().len()
                    &&& !self.keys().contains(path@)
                    &&& forall|j: int| 0 <= j < i ==> path_less(#[trigger] self.keys()[j], path@)
                    &&& forall|j: int|
                        i <= j < self.keys().len() ==> path_less(path@, #[trigger] self.keys()[j])
                },
            },
    {
        proof {
            use_type_invariant(self);
        }
        let ghost keys = self.keys();
        let mut lo: usize = 0;
        let mut hi: usize = self.entries.len();
        while lo < hi
            invariant
                keys == self.keys(),
                sorted(keys),
                hi <= self.entries.len(),
                self.entries.len() == keys.len(),
                0 <= lo <= hi,
                forall|j: int| 0 <= j < lo ==> path_less(#[trigger] keys[j], path@),
                forall|j: int| hi <= j < keys.len() ==> path_less(path@, #[trigger] keys[j]),
            decreases hi - lo,
        {
            let mid = lo + (hi - lo) / 2;
            match self.entries[mid].0.compare(path) {
                Order::Equal => {
                    return Ok(mid);
                },
                Order::Less => {
                    proof {
                        assert forall|j: int| 0 <= j < mid + 1 implies path_less(
                            #[trigger] keys[j],
                            path@,
                        ) by {
                            if j < mid {
                                lemma_path_less_transitive(keys[j], keys[mid as int], path@);
                            }
                        }
                    }
                    lo = mid + 1;
                },
                Order::Greater => {
                    proof {
                        assert forall|j: int| mid <= j < keys.len() implies path_less(
                            path@,
                            #[trigger] keys[j],
                        ) by {
                            if mid < j {
                                lemma_path_less_transitive(path@, keys[mid as int], keys[j]);
                            }
                        }
                    }
                    hi = mid;
                },
            }
        }
        proof {
            assert forall|j: int| 0 <= j < keys.len() implies keys[j] != path@ by {
                lemma_path_less_irreflexive(path@);
            }
        }
        Err(lo)
    }

    /// The value of a path, where the mapping holds one.
    pub fn get(&self, path: &RelativePath) -> (r: Option<&V>)
        ensures
            r is Some <==> self@.contains_key(path@),
            r matches Some(v) ==> *v == self@[path@],
    {
        proof {
            use_type_invariant(self);
            self.lemma_entries();
        }
        match self.search(path) {
            Ok(i) => Some(&self.entries[i].1),
            Err(_) => None,
        }
    }

    /// Tells whether the mapping holds a value for a path.
    pub fn contains(&self, path: &RelativePath) -> (r: bool)
        ensures
            r == self@.contains_key(path@),
    {
        self.get(path).is_some()
    }

    /// The mapping with an entry for the path, where it had none. The
    /// entry that a path has stays: the first value given for a path wins.
    pub fn insert(self, path: RelativePath, value: V) -> (r: Self)
        ensures
            r@ == (if self@.contains_key(path@) {
                self@
            } else {
                self@.insert(path@, value)
            }),
            r.wf(),
    {
        proof {
            use_type_invariant(&self);
            use_type_invariant(&path);
            self.lemma_entries();
            path.lemma_wf();
        }
        match self.search(&path) {
            Ok(_) => self,
            Err(i) => {
                let ghost before = self;
                let ghost p = path@;
                let mut entries = self.entries;
                entries.insert(i, (path, value));
                proof {
                    let old_keys = before.keys();
                    let keys = keys_of(entries@);
                    assert(keys =~= old_keys.insert(i as int, p));
                    assert forall|a: int, b: int| 0 <= a < b < keys.len() implies path_less(
                        keys[a],
                        keys[b],
                    ) by {
                        if b < i {
                            assert(keys[a] == old_keys[a] && keys[b] == old_keys[b]);
                        } else if b == i {
                            assert(keys[a] == old_keys[a]);
                        } else if a < i {
                            assert(keys[a] == old_keys[a] && keys[b] == old_keys[b - 1]);
                        } else if a == i {
                            assert(keys[b] == old_keys[b - 1]);
                        } else {
                            assert(keys[a] == old_keys[a - 1] && keys[b] == old_keys[b - 1]);
                        }
                    }
                    assert forall|a: int| 0 <= a < keys.len() implies valid_components(
                        #[trigger] keys[a],
                    ) by {
                        if a < i {
                            assert(keys[a] == old_keys[a]);
                        } else if a > i {
                            assert(keys[a] == old_keys[a - 1]);
                        }
                    }
                }
                let r = PathMap { entries };
                proof {
                    let old_keys = before.keys();
                    let keys = r.keys();
                    assert(r.values() =~= before.values().insert(i as int, value));
                    assert(r.wf());
                    r.lemma_entries();
                    assert forall|q: Seq<Seq<char>>| r@.contains_key(q) <==> (q == p
                        || before@.contains_key(q)) by {
                        if r@.contains_key(q) {
                            let a = keys.index_of(q);
                            if a < i {
                                assert(old_keys[a] == q);
                            } else if a > i {
                                assert(old_keys[a - 1] == q);
                            }
                        }
                        if before@.contains_key(q) {
                            let a = old_keys.index_of(q);
                            if a < i {
                                assert(keys[a] == q);
                            } else {
                                assert(keys[a + 1] == q);
                            }
                        }
                        if q == p {
                            assert(keys[i as int] == q);
                        }
                    }
                    assert forall|q: Seq<Seq<char>>| r@.contains_key(q) implies r@[q]
                        == before@.insert(p, value)[q] by {
                        let a = keys.index_of(q);
                        if a < i {
                            assert(old_keys[a] == q);
                            assert(r.values()[a] == before.values()[a]);
                        } else if a > i {
                            assert(old_keys[a - 1] == q);
                            assert(r.values()[a] == before.values()[a - 1]);
                        } else {
                            assert(r.values()[a] == value);
                        }
                    }
                    assert(r@ =~= before@.insert(p, value));
                }
                r
            },
        }
    }
}

/// Where every key of `a` is a key of `b`, the key at a position in `a`
/// stands at that position or behind it in `b`.
proof fn lemma_position_bound(a: Seq<Seq<Seq<char>>>, b: Seq<Seq<Seq<char>>>, i: int)
    requires
        sorted(a),
        sorted(b),
        forall|k: int| 0 <= k < a.len() ==> b.contains(#[trigger] a[k]),
        0 <= i < a.len(),
    ensures
        i <= b.index_of(a[i]) < b.len(),
        b[b.index_of(a[i])] == a[i],
    decreases i,
{
    assert(b.contains(a[i]));
    let j = b.index_of(a[i]);
    if i > 0 {
        lemma_position_bound(a, b, i - 1);
        let before = b.index_of(a[i - 1]);
        assert(path_less(a[i - 1], a[i]));
        if j == before {
            lemma_path_less_irreflexive(a[i]);
        } else if j < before {
            lemma_path_less_asymmetric(b[j], b[before]);
        }
    }
}

/// Two sorted lists with the same keys are one list.
proof fn lemma_sorted_keys_decided(a: Seq<Seq<Seq<char>>>, b: Seq<Seq<Seq<char>>>)
    requires
        sorted(a),
        sorted(b),
        forall|p: Seq<Seq<char>>| a.contains(p) <==> b.contains(p),
    ensures
        a == b,
{
    assert forall|i: int| 0 <= i < a.len() implies i < b.len() && #[trigger] a[i] == b[i] by {
        assert forall|k: int| 0 <= k < a.len() implies b.contains(#[trigger] a[k]) by {
            assert(a.contains(a[k]));
        }
        assert forall|k: int| 0 <= k < b.len() implies a.contains(#[trigger] b[k]) by {
            assert(b.contains(b[k]));
        }
        lemma_position_bound(a, b, i);
        let j = b.index_of(a[i]);
        lemma_position_bound(b, a, j);
        let back = a.index_of(b[j]);
        if back < i {
            lemma_path_less_asymmetric(a[back], a[i]);
        } else if back > i {
            lemma_path_less_asymmetric(a[i], a[back]);
        }
    }
    if b.len() > 0 {
        assert forall|k: int| 0 <= k < b.len() implies a.contains(#[trigger] b[k]) by {
            assert(b.contains(b[k]));
        }
        lemma_position_bound(b, a, b.len() - 1);
    }
    if a.len() > 0 {
        assert(a[a.len() - 1] == b[a.len() - 1]);
    }
    assert(a =~= b);
}

/// The order of the paths is decided by the paths: two mappings that hold
/// values for the same paths list them in the same order.
pub proof fn law_keys_decided<V, W>(a: PathMap<V>, b: PathMap<W>)
    requires
        a.wf(),
        b.wf(),
        forall|p: Seq<Seq<char>>| a@.contains_key(p) <==> b@.contains_key(p),
    ensures
        a.keys() == b.keys(),
{
    a.lemma_entries();
    b.lemma_entries();
    lemma_sorted_keys_decided(a.keys(), b.keys());
}

/// The entries of a mapping, and their order, are decided by what the
/// mapping holds: two mappings with the same view list the same paths with
/// the same values in the same order.
pub proof fn law_entries_decided<V>(a: PathMap<V>, b: PathMap<V>)
    requires
        a.wf(),
        b.wf(),
        a@ == b@,
    ensures
        a.keys() == b.keys(),
        a.values() == b.values(),
{
    a.lemma_entries();
    b.lemma_entries();
    law_keys_decided(a, b);
    assert forall|i: int| 0 <= i < a.values().len() implies a.values()[i] == b.values()[i] by {
        assert(a@[a.keys()[i]] == a.values()[i]);
        assert(b@[b.keys()[i]] == b.values()[i]);
    }
    assert(a.values() =~= b.values());
}

} // verus!

//! Lexicographic order on sequences, and the facts about it that sorted
//! containers rest on.

use vstd::prelude::*;

verus! {

/// The outcome of comparing two values.
#[derive(Clone, Copy, Debug, PartialEq, Eq, Structural)]
pub enum Order {
    Less,
    Equal,
    Greater,
}

/// `lt` is irreflexive, transitive and total: a strict total order.
pub open spec fn strict_order<T>(lt: spec_fn(T, T) -> bool) -> bool {
    &&& forall|x: T| !#[trigger] lt(x, x)
    &&& forall|x: T, y: T, z: T| #[trigger] lt(x, y) && #[trigger] lt(y, z) ==> lt(x, z)
    &&& forall|x: T, y: T| #[trigger] lt(x, y) || x == y || lt(y, x)
}

/// `a` and `b` agree below index `k`, and at `k` either `a` ends while `b`
/// goes on, or `a` holds the smaller element.
pub open spec fn lex_less_at<T>(a: Seq<T>, b: Seq<T>, k: int, lt: spec_fn(T, T) -> bool) -> bool {
    &&& 0 <= k <= a.len()
    &&& k <= b.len()
    &&& forall|i: int| 0 <= i < k ==> a[i] == b[i]
    &&& k < b.len()
    &&& k < a.len() ==> lt(a[k], b[k])
}

/// `a` comes before `b` in the lexicographic order that `lt` induces.
pub open spec fn lex_less<T>(a: Seq<T>, b: Seq<T>, lt: spec_fn(T, T) -> bool) -> bool {
    exists|k: int| lex_less_at(a, b, k, lt)
}

/// `a` is a proper prefix of `b`.
pub open spec fn proper_prefix<T>(a: Seq<T>, b: Seq<T>) -> bool {
    &&& a.len() < b.len()
    &&& forall|i: int| 0 <= i < a.len() ==> a[i] == b[i]
}

/// No sequence comes before itself.
pub proof fn lemma_lex_irreflexive<T>(a: Seq<T>, lt: spec_fn(T, T) -> bool)
    requires
        strict_order(lt),
    ensures
        !lex_less(a, a, lt),
{
    assert forall|k: int| !lex_less_at(a, a, k, lt) by {
        if 0 <= k < a.len() {
            assert(!lt(a[k], a[k]));
        }
    }
}

/// The lexicographic order is transitive.
pub proof fn lemma_lex_transitive<T>(a: Seq<T>, b: Seq<T>, c: Seq<T>, lt: spec_fn(T, T) -> bool)
    requires
        strict_order(lt),
        lex_less(a, b, lt),
        lex_less(b, c, lt),
    ensures
        lex_less(a, c, lt),
{
    let k1 = choose|k: int| lex_less_at(a, b, k, lt);
    let k2 = choose|k: int| lex_less_at(b, c, k, lt);
    let k = if k1 <= k2 { k1 } else { k2 };
    if k < a.len() {
        if k1 < k2 {
            assert(lt(a[k], b[k]));
            assert(b[k] == c[k]);
        } else if k2 < k1 {
            assert(a[k] == b[k]);
            assert(lt(b[k], c[k]));
        } else {
            assert(lt(a[k], b[k]) && lt(b[k], c[k]));
        }
        assert(lt(a[k], c[k]));
    }
    assert(lex_less_at(a, c, k, lt));
}

/// From index `k` on, below which `a` and `b` agree, one of the three
/// cases is found.
proof fn lemma_lex_scan<T>(a: Seq<T>, b: Seq<T>, k: int, lt: spec_fn(T, T) -> bool)
    requires
        strict_order(lt),
        0 <= k <= a.len(),
        k <= b.len(),
        forall|i: int| 0 <= i < k ==> a[i] == b[i],
    ensures
        lex_less(a, b, lt) || a == b || lex_less(b, a, lt),
    decreases a.len() - k,
{
    if k == a.len() && k == b.len() {
        assert(a =~= b);
    } else if k == a.len() {
        assert(lex_less_at(a, b, k, lt));
    } else if k == b.len() {
        assert(lex_less_at(b, a, k, lt));
    } else if a[k] == b[k] {
        lemma_lex_scan(a, b, k + 1, lt);
    } else {
        assert(lt(a[k], b[k]) || a[k] == b[k] || lt(b[k], a[k]));
        if lt(a[k], b[k]) {
            assert(lex_less_at(a, b, k, lt));
        } else {
            assert(lex_less_at(b, a, k, lt));
        }
    }
}

/// Of two different sequences one comes before the other.
pub proof fn lemma_lex_total<T>(a: Seq<T>, b: Seq<T>, lt: spec_fn(T, T) -> bool)
    requires
        strict_order(lt),
    ensures
        lex_less(a, b, lt) || a == b || lex_less(b, a, lt),
{
    lemma_lex_scan(a, b, 0, lt);
}

/// A sequence comes after each of its proper prefixes.
pub proof fn lemma_prefix_is_less<T>(a: Seq<T>, b: Seq<T>, lt: spec_fn(T, T) -> bool)
    requires
        proper_prefix(a, b),
    ensures
        lex_less(a, b, lt),
{
    assert(lex_less_at(a, b, a.len() as int, lt));
}

} // verus!

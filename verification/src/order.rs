//! Ascending lists: a set of values has one ascending list and no other.

use vstd::prelude::*;

verus! {

/// `less` orders its values strictly and totally.
pub open spec fn is_strict_total<T>(less: spec_fn(T, T) -> bool) -> bool {
    &&& forall|x: T| !#[trigger] less(x, x)
    &&& forall|x: T, y: T| #[trigger] less(x, y) || less(y, x) || x == y
    &&& forall|x: T, y: T, z: T| #[trigger] less(x, y) && #[trigger] less(y, z) ==> less(x, z)
}

/// The list ascends strictly.
pub open spec fn ascends<T>(list: Seq<T>, less: spec_fn(T, T) -> bool) -> bool {
    forall|i: int, j: int| 0 <= i < j < list.len() ==> less(#[trigger] list[i], #[trigger] list[j])
}

/// Two ascending lists that hold the same values are the same list.
pub proof fn lemma_ascending_unique<T>(a: Seq<T>, b: Seq<T>, less: spec_fn(T, T) -> bool)
    requires
        is_strict_total(less),
        ascends(a, less),
        ascends(b, less),
        forall|x: T| a.contains(x) <==> b.contains(x),
    ensures
        a == b,
    decreases a.len(),
{
    if a.len() == 0 {
        if b.len() > 0 {
            assert(b.contains(b[0]));
        }
        assert(a =~= b);
    } else {
        let top = a.last();
        assert(a.contains(top));
        assert(b.contains(top));
        let other = b.last();
        assert(b.contains(other));
        assert(a.contains(other));
        let i = a.index_of(other);
        let j = b.index_of(top);
        assert(a[i] == other && b[j] == top);
        if top != other {
            assert(i < a.len() - 1);
            assert(less(a[i], a[a.len() - 1]));
            assert(j < b.len() - 1);
            assert(less(b[j], b[b.len() - 1]));
            assert(less(top, top));
        }
        let x = a.drop_last();
        let y = b.drop_last();
        assert forall|v: T| x.contains(v) <==> y.contains(v) by {
            if x.contains(v) {
                let k = x.index_of(v);
                assert(a[k] == v);
                assert(less(a[k], a[a.len() - 1]));
                assert(a.contains(v));
                let m = b.index_of(v);
                assert(b[m] == v);
                assert(m < b.len() - 1);
                assert(y[m] == v);
            }
            if y.contains(v) {
                let k = y.index_of(v);
                assert(b[k] == v);
                assert(less(b[k], b[b.len() - 1]));
                assert(b.contains(v));
                let m = a.index_of(v);
                assert(a[m] == v);
                assert(m < a.len() - 1);
                assert(x[m] == v);
            }
        }
        assert(ascends(x, less)) by {
            assert forall|p: int, q: int| 0 <= p < q < x.len() implies less(
                #[trigger] x[p],
                #[trigger] x[q],
            ) by {
                assert(less(a[p], a[q]));
            }
        }
        assert(ascends(y, less)) by {
            assert forall|p: int, q: int| 0 <= p < q < y.len() implies less(
                #[trigger] y[p],
                #[trigger] y[q],
            ) by {
                assert(less(b[p], b[q]));
            }
        }
        lemma_ascending_unique(x, y, less);
        assert(a =~= x.push(top));
        assert(b =~= y.push(other));
    }
}

} // verus!

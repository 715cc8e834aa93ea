//! The order of rank keys: they are compared from the front, entry by entry.

use vstd::prelude::*;

verus! {

/// `a` and `b` agree before position `k`, and at `k` either `a` holds the
/// smaller entry or `a` has ended while `b` goes on.
pub open spec fn decided_at(a: Seq<int>, b: Seq<int>, k: int) -> bool {
    &&& 0 <= k <= a.len()
    &&& k <= b.len()
    &&& forall|j: int| 0 <= j < k ==> a[j] == b[j]
    &&& if k == a.len() {
        k < b.len()
    } else {
        k < b.len() && a[k] < b[k]
    }
}

/// `a` comes before `b` in the lexicographic order.
pub open spec fn key_less(a: Seq<int>, b: Seq<int>) -> bool {
    exists|k: int| decided_at(a, b, k)
}

/// A rank key as mathematical integers.
pub open spec fn key_values(key: Seq<i64>) -> Seq<int> {
    Seq::new(key.len(), |i: int| key[i] as int)
}

/// No key comes before itself.
pub proof fn lemma_key_less_irreflexive(a: Seq<int>)
    ensures
        !key_less(a, a),
{
}

/// The order is transitive.
pub proof fn lemma_key_less_transitive(a: Seq<int>, b: Seq<int>, c: Seq<int>)
    requires
        key_less(a, b),
        key_less(b, c),
    ensures
        key_less(a, c),
{
    let k1 = choose|k: int| decided_at(a, b, k);
    let k2 = choose|k: int| decided_at(b, c, k);
    if k1 <= k2 {
        assert(decided_at(a, c, k1));
    } else {
        assert(decided_at(a, c, k2));
    }
}

/// Two keys either agree up to position `n` or one comes before the other.
proof fn lemma_key_compared_up_to(a: Seq<int>, b: Seq<int>, n: int)
    requires
        0 <= n <= a.len(),
        n <= b.len(),
    ensures
        key_less(a, b) || key_less(b, a) || forall|j: int| 0 <= j < n ==> a[j] == b[j],
    decreases n,
{
    if n > 0 {
        lemma_key_compared_up_to(a, b, n - 1);
        if !key_less(a, b) && !key_less(b, a) {
            if a[n - 1] < b[n - 1] {
                assert(decided_at(a, b, n - 1));
            } else if b[n - 1] < a[n - 1] {
                assert(decided_at(b, a, n - 1));
            }
        }
    }
}

/// Of two keys, one comes before the other unless they are the same key.
pub proof fn lemma_key_less_total(a: Seq<int>, b: Seq<int>)
    ensures
        key_less(a, b) || key_less(b, a) || a == b,
{
    let n = if a.len() <= b.len() {
        a.len() as int
    } else {
        b.len() as int
    };
    lemma_key_compared_up_to(a, b, n);
    if !key_less(a, b) && !key_less(b, a) {
        if a.len() < b.len() {
            assert(decided_at(a, b, n));
        } else if b.len() < a.len() {
            assert(forall|j: int| 0 <= j < n ==> b[j] == a[j]);
            assert(decided_at(b, a, n));
        }
        assert(a =~= b);
    }
}

/// A key that comes before one that another key does not come before comes
/// before that other key too.
pub proof fn lemma_key_less_than_no_smaller(a: Seq<int>, b: Seq<int>, c: Seq<int>)
    requires
        key_less(a, b),
        !key_less(c, b),
    ensures
        key_less(a, c),
{
    lemma_key_less_total(b, c);
    if b != c {
        lemma_key_less_transitive(a, b, c);
    }
}

/// Keys of one entry are ordered as their entries are.
pub proof fn lemma_key_less_single(x: int, y: int)
    ensures
        key_less(seq![x], seq![y]) <==> x < y,
{
    if x < y {
        assert(decided_at(seq![x], seq![y], 0));
    }
    if key_less(seq![x], seq![y]) {
        let k = choose|k: int| decided_at(seq![x], seq![y], k);
        if k == 1 {
            assert(seq![x][0] == seq![y][0]);
        }
    }
}

/// Whether `a` comes before `b` in the lexicographic order.
pub fn key_is_less(a: &Vec<i64>, b: &Vec<i64>) -> (r: bool)
    ensures
        r == key_less(key_values(a@), key_values(b@)),
{
    let ghost x = key_values(a@);
    let ghost y = key_values(b@);
    let mut i: usize = 0;
    while i < a.len() && i < b.len()
        invariant
            i <= a@.len(),
            i <= b@.len(),
            x == key_values(a@),
            y == key_values(b@),
            forall|j: int| 0 <= j < i ==> x[j] == y[j],
        decreases a@.len() - i,
    {
        if a[i] < b[i] {
            assert(decided_at(x, y, i as int));
            return true;
        }
        if a[i] > b[i] {
            assert forall|k: int| !decided_at(x, y, k) by {
                if decided_at(x, y, k) {
                    if k > i {
                        assert(x[i as int] == y[i as int]);
                    }
                }
            }
            return false;
        }
        i += 1;
    }
    if i < b.len() {
        assert(decided_at(x, y, i as int));
        true
    } else {
        assert forall|k: int| !decided_at(x, y, k) by {
            if decided_at(x, y, k) {
                if k < i {
                    assert(x[k] == y[k]);
                }
            }
        }
        false
    }
}

} // verus!

//! Sums over sequences, and what a reordering leaves alone.

use vstd::prelude::*;

verus! {

/// The sum of `f` over the entries of `s`.
pub open spec fn sum_of<T>(s: Seq<T>, f: spec_fn(T) -> nat) -> nat
    decreases s.len(),
{
    if s.len() == 0 {
        0
    } else {
        sum_of(s.drop_last(), f) + f(s.last())
    }
}

/// No entry contributes more than the whole sum.
pub proof fn lemma_sum_bounds_entry<T>(s: Seq<T>, f: spec_fn(T) -> nat, i: int)
    requires
        0 <= i < s.len(),
    ensures
        f(s[i]) <= sum_of(s, f),
    decreases s.len(),
{
    if i < s.len() - 1 {
        lemma_sum_bounds_entry(s.drop_last(), f, i);
    }
}

/// Taking one entry out lowers the sum by what the entry contributed.
pub proof fn lemma_sum_remove<T>(s: Seq<T>, f: spec_fn(T) -> nat, i: int)
    requires
        0 <= i < s.len(),
    ensures
        sum_of(s, f) == sum_of(s.remove(i), f) + f(s[i]),
    decreases s.len(),
{
    let shorter = s.remove(i);
    if i == s.len() - 1 {
        assert(shorter =~= s.drop_last());
    } else {
        assert(shorter.drop_last() =~= s.drop_last().remove(i));
        assert(shorter.last() == s.last());
        lemma_sum_remove(s.drop_last(), f, i);
    }
}

/// Replacing one entry moves the sum by the difference of the two
/// contributions.
pub proof fn lemma_sum_update<T>(s: Seq<T>, f: spec_fn(T) -> nat, i: int, x: T)
    requires
        0 <= i < s.len(),
    ensures
        sum_of(s.update(i, x), f) == sum_of(s, f) - f(s[i]) + f(x),
    decreases s.len(),
{
    let changed = s.update(i, x);
    if i == s.len() - 1 {
        assert(changed.drop_last() =~= s.drop_last());
    } else {
        assert(changed.drop_last() =~= s.drop_last().update(i, x));
        lemma_sum_update(s.drop_last(), f, i, x);
    }
}

/// Two functions that agree on every entry have the same sum.
pub proof fn lemma_sum_agree<T>(s: Seq<T>, f: spec_fn(T) -> nat, g: spec_fn(T) -> nat)
    requires
        forall|i: int| 0 <= i < s.len() ==> f(#[trigger] s[i]) == g(s[i]),
    ensures
        sum_of(s, f) == sum_of(s, g),
    decreases s.len(),
{
    if s.len() > 0 {
        assert(f(s[s.len() - 1]) == g(s[s.len() - 1]));
        assert forall|i: int| 0 <= i < s.drop_last().len() implies f(#[trigger] s.drop_last()[i])
            == g(s.drop_last()[i]) by {
            assert(s.drop_last()[i] == s[i]);
        }
        lemma_sum_agree(s.drop_last(), f, g);
    }
}

/// A sum over nothing but zeros is zero.
pub proof fn lemma_sum_zero<T>(s: Seq<T>, f: spec_fn(T) -> nat)
    requires
        forall|i: int| 0 <= i < s.len() ==> f(#[trigger] s[i]) == 0,
    ensures
        sum_of(s, f) == 0,
    decreases s.len(),
{
    if s.len() > 0 {
        assert(f(s[s.len() - 1]) == 0);
        assert forall|i: int| 0 <= i < s.drop_last().len() implies f(#[trigger] s.drop_last()[i])
            == 0 by {
            assert(s.drop_last()[i] == s[i]);
        }
        lemma_sum_zero(s.drop_last(), f);
    }
}

/// A reordering keeps the sum.
pub proof fn lemma_sum_reordered<T>(a: Seq<T>, b: Seq<T>, f: spec_fn(T) -> nat)
    requires
        a.to_multiset() == b.to_multiset(),
    ensures
        sum_of(a, f) == sum_of(b, f),
        a.len() == b.len(),
    decreases a.len(),
{
    broadcast use vstd::seq_lib::group_to_multiset_ensures;
    a.to_multiset_ensures();
    b.to_multiset_ensures();
    if a.len() > 0 {
        let x = a.last();
        assert(a.to_multiset().count(x) > 0);
        assert(b.contains(x));
        let i = b.index_of(x);
        assert(a.drop_last() =~= a.remove(a.len() - 1));
        lemma_sum_reordered(a.drop_last(), b.remove(i), f);
        lemma_sum_remove(b, f, i);
    }
}

/// A reordering keeps what holds of every entry.
pub proof fn lemma_all_reordered<T>(a: Seq<T>, b: Seq<T>, holds: spec_fn(T) -> bool)
    requires
        a.to_multiset() == b.to_multiset(),
        forall|i: int| 0 <= i < a.len() ==> holds(#[trigger] a[i]),
    ensures
        forall|i: int| 0 <= i < b.len() ==> holds(#[trigger] b[i]),
{
    broadcast use vstd::seq_lib::group_to_multiset_ensures;
    a.to_multiset_ensures();
    b.to_multiset_ensures();
    assert forall|i: int| 0 <= i < b.len() implies holds(#[trigger] b[i]) by {
        assert(b.contains(b[i]));
        assert(b.to_multiset().count(b[i]) > 0);
        assert(a.contains(b[i]));
        let j = a.index_of(b[i]);
        assert(holds(a[j]));
    }
}

/// A reordering keeps what holds of some entry.
pub proof fn lemma_some_reordered<T>(a: Seq<T>, b: Seq<T>, holds: spec_fn(T) -> bool)
    requires
        a.to_multiset() == b.to_multiset(),
        exists|i: int| 0 <= i < a.len() && holds(#[trigger] a[i]),
    ensures
        exists|i: int| 0 <= i < b.len() && holds(#[trigger] b[i]),
{
    broadcast use vstd::seq_lib::group_to_multiset_ensures;
    a.to_multiset_ensures();
    b.to_multiset_ensures();
    let i = choose|i: int| 0 <= i < a.len() && holds(#[trigger] a[i]);
    assert(a.contains(a[i]));
    assert(a.to_multiset().count(a[i]) > 0);
    assert(b.contains(a[i]));
    let j = b.index_of(a[i]);
    assert(holds(b[j]));
}

/// Reordered sequences stay reorderings of each other when one function is
/// applied to every entry of both.
pub proof fn lemma_map_reordered<T, U>(a: Seq<T>, b: Seq<T>, f: spec_fn(T) -> U)
    requires
        a.to_multiset() == b.to_multiset(),
    ensures
        a.map_values(f).to_multiset() == b.map_values(f).to_multiset(),
    decreases a.len(),
{
    broadcast use vstd::seq_lib::group_to_multiset_ensures;
    a.to_multiset_ensures();
    b.to_multiset_ensures();
    if a.len() == 0 {
        assert(b.to_multiset().len() == 0);
        assert(b.len() == 0);
        assert(a.map_values(f) =~= b.map_values(f));
    } else {
        let x = a.last();
        assert(a.to_multiset().count(x) > 0);
        assert(b.contains(x));
        let i = b.index_of(x);
        assert(a.drop_last() =~= a.remove(a.len() - 1));
        lemma_map_reordered(a.drop_last(), b.remove(i), f);
        assert(a.map_values(f).remove(a.len() - 1) =~= a.drop_last().map_values(f));
        assert(b.map_values(f).remove(i) =~= b.remove(i).map_values(f));
        let am = a.map_values(f);
        let bm = b.map_values(f);
        assert(am.remove(a.len() - 1).to_multiset() == am.to_multiset().remove(f(x)));
        assert(bm.remove(i).to_multiset() == bm.to_multiset().remove(f(x)));
        am.to_multiset_ensures();
        bm.to_multiset_ensures();
        assert(am.contains(am[a.len() - 1]));
        assert(bm.contains(bm[i]));
        assert(am.to_multiset().count(f(x)) > 0);
        assert(bm.to_multiset().count(f(x)) > 0);
        lemma_same_after_remove(am.to_multiset(), bm.to_multiset(), f(x));
    }
}

/// Two multisets that both hold `v` and agree once one `v` is taken out of
/// each are the same.
proof fn lemma_same_after_remove<U>(a: vstd::multiset::Multiset<U>, b: vstd::multiset::Multiset<U>, v: U)
    requires
        a.count(v) > 0,
        b.count(v) > 0,
        a.remove(v) == b.remove(v),
    ensures
        a == b,
{
    broadcast use vstd::multiset::group_multiset_axioms;
    assert forall|w: U| a.count(w) == b.count(w) by {
        let one = vstd::multiset::Multiset::singleton(v);
        assert(a.remove(v).count(w) == a.sub(one).count(w));
        assert(b.remove(v).count(w) == b.sub(one).count(w));
        assert(one.count(v) == 1);
        if w != v {
            assert(one.count(w) == 0);
        }
    }
    assert(a =~= b);
}

} // verus!

//! Counted tallies and the multisets they stand for.

use vstd::prelude::*;
use vstd::multiset::Multiset;
use crate::date::Weekday;

verus! {

/// The multiset that holds `n` copies of `v` and nothing else.
pub open spec fn copies<T>(v: T, n: nat) -> Multiset<T>
    decreases n,
{
    if n == 0 {
        Multiset::empty()
    } else {
        copies(v, (n - 1) as nat).insert(v)
    }
}

/// `copies(v, n)` holds `v` exactly `n` times, and no other value.
pub proof fn lemma_copies_count<T>(v: T, n: nat, w: T)
    ensures
        copies(v, n).count(w) == if w == v { n } else { 0 },
    decreases n,
{
    broadcast use vstd::multiset::group_multiset_axioms;
    if n > 0 {
        lemma_copies_count(v, (n - 1) as nat, w);
    }
}

/// A multiset that counts `v` once more than `a` and everything else as `a`
/// does is `a` with `v` added.
pub proof fn lemma_insert_by_count<T>(a: Multiset<T>, b: Multiset<T>, v: T)
    requires
        forall|w: T| #[trigger] b.count(w) == a.count(w) + if w == v { 1int } else { 0int },
    ensures
        b == a.insert(v),
{
    broadcast use vstd::multiset::group_multiset_axioms;
    assert(b =~= a.insert(v));
}

/// A multiset that counts `v` once less than `a`, unless `a` has none, and
/// everything else as `a` does is `a` with one `v` taken out.
pub proof fn lemma_remove_by_count<T>(a: Multiset<T>, b: Multiset<T>, v: T)
    requires
        forall|w: T| #[trigger] b.count(w) == if w == v && a.count(w) > 0 {
            a.count(w) - 1
        } else {
            a.count(w) as int
        },
    ensures
        b == a.remove(v),
{
    broadcast use vstd::multiset::group_multiset_axioms;
    assert(b =~= a.remove(v));
}

/// How often one place was served.
#[derive(Debug)]
pub struct PlaceCount {
    pub place: String,
    pub count: usize,
}

/// The services recorded in a list of place counts, as a multiset of places.
pub open spec fn place_bag(entries: Seq<PlaceCount>) -> Multiset<Seq<char>>
    decreases entries.len(),
{
    if entries.len() == 0 {
        Multiset::empty()
    } else {
        place_bag(entries.drop_last()).add(
            copies(entries.last().place@, entries.last().count as nat),
        )
    }
}

/// The sum of the counts that a list holds for one place.
pub open spec fn tally(entries: Seq<PlaceCount>, place: Seq<char>) -> nat
    decreases entries.len(),
{
    if entries.len() == 0 {
        0
    } else {
        let rest = tally(entries.drop_last(), place);
        if entries.last().place@ == place {
            rest + entries.last().count as nat
        } else {
            rest
        }
    }
}

/// No place is listed twice and no listed count is zero.
pub open spec fn tidy(entries: Seq<PlaceCount>) -> bool {
    &&& forall|i: int| 0 <= i < entries.len() ==> (#[trigger] entries[i]).count > 0
    &&& forall|i: int, j: int|
        0 <= i < j < entries.len() ==> (#[trigger] entries[i]).place@ != (#[trigger] entries[j]).place@
}

/// The multiset counts a place as often as the list's counts for it add up to.
pub proof fn lemma_place_bag_count(entries: Seq<PlaceCount>, place: Seq<char>)
    ensures
        place_bag(entries).count(place) == tally(entries, place),
    decreases entries.len(),
{
    broadcast use vstd::multiset::group_multiset_axioms;
    if entries.len() > 0 {
        lemma_place_bag_count(entries.drop_last(), place);
        lemma_copies_count(entries.last().place@, entries.last().count as nat, place);
    }
}

/// Lists that agree entry by entry on the place's characters and on the
/// count record the same services.
pub proof fn lemma_place_bag_alike(a: Seq<PlaceCount>, b: Seq<PlaceCount>)
    requires
        a.len() == b.len(),
        forall|i: int|
            0 <= i < a.len() ==> (#[trigger] a[i]).place@ == b[i].place@ && a[i].count == b[i].count,
    ensures
        place_bag(a) == place_bag(b),
        tidy(b) ==> tidy(a),
    decreases a.len(),
{
    if a.len() > 0 {
        lemma_place_bag_alike(a.drop_last(), b.drop_last());
    }
    if tidy(b) {
        assert forall|i: int| 0 <= i < a.len() implies (#[trigger] a[i]).count > 0 by {
            assert(b[i].count > 0);
        }
        assert forall|i: int, j: int| 0 <= i < j < a.len() implies (#[trigger] a[i]).place@ != (
        #[trigger] a[j]).place@ by {
            assert(b[i].place@ != b[j].place@);
        }
    }
}

/// A place that no entry names adds up to nothing.
pub proof fn lemma_tally_absent(entries: Seq<PlaceCount>, place: Seq<char>)
    requires
        forall|i: int| 0 <= i < entries.len() ==> (#[trigger] entries[i]).place@ != place,
    ensures
        tally(entries, place) == 0,
    decreases entries.len(),
{
    if entries.len() > 0 {
        lemma_tally_absent(entries.drop_last(), place);
    }
}

/// In a tidy list, the one entry that names a place holds its whole count.
pub proof fn lemma_tally_present(entries: Seq<PlaceCount>, i: int)
    requires
        tidy(entries),
        0 <= i < entries.len(),
    ensures
        tally(entries, entries[i].place@) == entries[i].count,
    decreases entries.len(),
{
    let rest = entries.drop_last();
    if i == entries.len() - 1 {
        lemma_tally_absent(rest, entries[i].place@);
    } else {
        lemma_tally_present(rest, i);
    }
}

/// Replacing the count of one entry moves that place's sum by the
/// difference and leaves every other place's sum alone.
pub proof fn lemma_tally_update(entries: Seq<PlaceCount>, i: int, entry: PlaceCount, place: Seq<char>)
    requires
        0 <= i < entries.len(),
        entry.place@ == entries[i].place@,
    ensures
        tally(entries.update(i, entry), place) == if entries[i].place@ == place {
            tally(entries, place) - entries[i].count + entry.count
        } else {
            tally(entries, place) as int
        },
        tally(entries, entries[i].place@) >= entries[i].count,
    decreases entries.len(),
{
    let changed = entries.update(i, entry);
    if i == entries.len() - 1 {
        assert(changed.drop_last() =~= entries.drop_last());
    } else {
        assert(changed.drop_last() =~= entries.drop_last().update(i, entry));
        lemma_tally_update(entries.drop_last(), i, entry, place);
    }
}

/// Dropping one entry takes its count from that place's sum and leaves every
/// other place's sum alone.
pub proof fn lemma_tally_remove(entries: Seq<PlaceCount>, i: int, place: Seq<char>)
    requires
        0 <= i < entries.len(),
    ensures
        tally(entries.remove(i), place) == if entries[i].place@ == place {
            tally(entries, place) - entries[i].count
        } else {
            tally(entries, place) as int
        },
    decreases entries.len(),
{
    let shorter = entries.remove(i);
    if i == entries.len() - 1 {
        assert(shorter =~= entries.drop_last());
    } else {
        assert(shorter.drop_last() =~= entries.drop_last().remove(i));
        assert(shorter.last() == entries.last());
        lemma_tally_remove(entries.drop_last(), i, place);
    }
}

/// The services recorded in seven weekday counts, Monday's first, as a
/// multiset of weekdays.
pub open spec fn weekday_bag(counts: Seq<usize>) -> Multiset<Weekday> {
    copies(Weekday::Mon, counts[0] as nat).add(copies(Weekday::Tue, counts[1] as nat)).add(
        copies(Weekday::Wed, counts[2] as nat),
    ).add(copies(Weekday::Thu, counts[3] as nat)).add(copies(Weekday::Fri, counts[4] as nat)).add(
        copies(Weekday::Sat, counts[5] as nat),
    ).add(copies(Weekday::Sun, counts[6] as nat))
}

/// The multiset counts a weekday as often as its entry in the list says.
pub proof fn lemma_weekday_bag_count(counts: Seq<usize>, day: Weekday)
    requires
        counts.len() == 7,
    ensures
        weekday_bag(counts).count(day) == counts[day.index()],
{
    broadcast use vstd::multiset::group_multiset_axioms;
    lemma_copies_count(Weekday::Mon, counts[0] as nat, day);
    lemma_copies_count(Weekday::Tue, counts[1] as nat, day);
    lemma_copies_count(Weekday::Wed, counts[2] as nat, day);
    lemma_copies_count(Weekday::Thu, counts[3] as nat, day);
    lemma_copies_count(Weekday::Fri, counts[4] as nat, day);
    lemma_copies_count(Weekday::Sat, counts[5] as nat, day);
    lemma_copies_count(Weekday::Sun, counts[6] as nat, day);
}

/// Position of the entry for `place`, or the length of the list where there
/// is none.
pub fn find_place(entries: &Vec<PlaceCount>, place: &String) -> (i: usize)
    ensures
        i <= entries@.len(),
        i < entries@.len() ==> entries@[i as int].place@ == place@,
        i == entries@.len() ==> forall|k: int|
            0 <= k < entries@.len() ==> (#[trigger] entries@[k]).place@ != place@,
{
    let mut i: usize = 0;
    while i < entries.len()
        invariant
            i <= entries@.len(),
            forall|k: int| 0 <= k < i ==> (#[trigger] entries@[k]).place@ != place@,
        decreases entries@.len() - i,
    {
        if entries[i].place == *place {
            return i;
        }
        i += 1;
    }
    i
}

/// How often `place` is counted in a tidy list.
pub fn count_place(entries: &Vec<PlaceCount>, place: &String) -> (n: usize)
    requires
        tidy(entries@),
    ensures
        n == place_bag(entries@).count(place@),
{
    let i = find_place(entries, place);
    proof {
        lemma_place_bag_count(entries@, place@);
    }
    if i < entries.len() {
        proof {
            lemma_tally_present(entries@, i as int);
        }
        entries[i].count
    } else {
        proof {
            lemma_tally_absent(entries@, place@);
        }
        0
    }
}

/// Counts one more service at `place`.
pub fn raise_place(entries: &mut Vec<PlaceCount>, place: String)
    requires
        tidy(old(entries)@),
        place_bag(old(entries)@).count(place@) < usize::MAX,
    ensures
        tidy(final(entries)@),
        place_bag(final(entries)@) == place_bag(old(entries)@).insert(place@),
{
    let ghost before = entries@;
    let ghost name = place@;
    let i = find_place(entries, &place);
    proof {
        lemma_place_bag_count(before, name);
    }
    if i < entries.len() {
        proof {
            lemma_tally_present(before, i as int);
        }
        let n: usize = entries[i].count;
        entries[i] = PlaceCount { place, count: n + 1 };
        proof {
            let entry = entries@[i as int];
            assert forall|q: Seq<char>| #[trigger]
                place_bag(entries@).count(q) == place_bag(before).count(q) + if q == name {
                    1int
                } else {
                    0int
                } by {
                lemma_place_bag_count(entries@, q);
                lemma_place_bag_count(before, q);
                lemma_tally_update(before, i as int, entry, q);
            }
        }
    } else {
        entries.push(PlaceCount { place, count: 1 });
        proof {
            assert(entries@.drop_last() =~= before);
            assert forall|q: Seq<char>| #[trigger]
                place_bag(entries@).count(q) == place_bag(before).count(q) + if q == name {
                    1int
                } else {
                    0int
                } by {
                lemma_place_bag_count(entries@, q);
                lemma_place_bag_count(before, q);
            }
        }
    }
    proof {
        lemma_insert_by_count(place_bag(before), place_bag(entries@), name);
    }
}

/// Counts one service less at `place`, unless none is counted there; an
/// entry that falls to zero leaves the list.
pub fn lower_place(entries: &mut Vec<PlaceCount>, place: String)
    requires
        tidy(old(entries)@),
    ensures
        tidy(final(entries)@),
        place_bag(final(entries)@) == place_bag(old(entries)@).remove(place@),
{
    let ghost before = entries@;
    let ghost name = place@;
    let i = find_place(entries, &place);
    proof {
        lemma_place_bag_count(before, name);
    }
    if i < entries.len() {
        proof {
            lemma_tally_present(before, i as int);
        }
        let n: usize = entries[i].count;
        if n > 1 {
            entries[i] = PlaceCount { place, count: n - 1 };
            proof {
                let entry = entries@[i as int];
                assert forall|q: Seq<char>| #[trigger]
                    place_bag(entries@).count(q) == if q == name && place_bag(before).count(q)
                        > 0 {
                        place_bag(before).count(q) - 1
                    } else {
                        place_bag(before).count(q) as int
                    } by {
                    lemma_place_bag_count(entries@, q);
                    lemma_place_bag_count(before, q);
                    lemma_tally_update(before, i as int, entry, q);
                }
            }
        } else {
            let _ = entries.remove(i);
            proof {
                assert forall|q: Seq<char>| #[trigger]
                    place_bag(entries@).count(q) == if q == name && place_bag(before).count(q)
                        > 0 {
                        place_bag(before).count(q) - 1
                    } else {
                        place_bag(before).count(q) as int
                    } by {
                    lemma_place_bag_count(entries@, q);
                    lemma_place_bag_count(before, q);
                    lemma_tally_remove(before, i as int, q);
                }
            }
        }
    } else {
        proof {
            lemma_tally_absent(before, name);
        }
    }
    proof {
        lemma_remove_by_count(place_bag(before), place_bag(entries@), name);
    }
}

/// Counts one more service on `day`.
pub fn raise_day(counts: [usize; 7], day: Weekday) -> (r: [usize; 7])
    requires
        weekday_bag(counts@).count(day) < usize::MAX,
    ensures
        weekday_bag(r@) == weekday_bag(counts@).insert(day),
        r@ == counts@.update(day.index(), (counts@[day.index()] + 1) as usize),
        counts@[day.index()] == weekday_bag(counts@).count(day),
{
    let d = day.num_days_from_monday();
    proof {
        lemma_weekday_bag_count(counts@, day);
    }
    let mut r = counts;
    r[d] = r[d] + 1;
    proof {
        assert(r@ =~= counts@.update(day.index(), (counts@[day.index()] + 1) as usize));
        assert forall|w: Weekday| #[trigger]
            weekday_bag(r@).count(w) == weekday_bag(counts@).count(w) + if w == day {
                1int
            } else {
                0int
            } by {
            lemma_weekday_bag_count(r@, w);
            lemma_weekday_bag_count(counts@, w);
        }
        lemma_insert_by_count(weekday_bag(counts@), weekday_bag(r@), day);
    }
    r
}

/// Counts one service less on `day`, unless none is counted there.
pub fn lower_day(counts: [usize; 7], day: Weekday) -> (r: [usize; 7])
    ensures
        weekday_bag(r@) == weekday_bag(counts@).remove(day),
        forall|i: int| 0 <= i < 7 ==> r@[i] <= counts@[i],
{
    let d = day.num_days_from_monday();
    let mut r = counts;
    if r[d] > 0 {
        r[d] = r[d] - 1;
    }
    proof {
        assert forall|w: Weekday| #[trigger]
            weekday_bag(r@).count(w) == if w == day && weekday_bag(counts@).count(w) > 0 {
                weekday_bag(counts@).count(w) - 1
            } else {
                weekday_bag(counts@).count(w) as int
            } by {
            lemma_weekday_bag_count(r@, w);
            lemma_weekday_bag_count(counts@, w);
        }
        lemma_remove_by_count(weekday_bag(counts@), weekday_bag(r@), day);
    }
    r
}

/// `copies(v, n)` holds `n` values in all.
pub proof fn lemma_copies_len<T>(v: T, n: nat)
    ensures
        copies(v, n).len() == n,
    decreases n,
{
    broadcast use vstd::multiset::group_multiset_axioms;
    if n > 0 {
        lemma_copies_len(v, (n - 1) as nat);
    }
}

/// The sum of all counts of a list.
pub open spec fn count_sum(entries: Seq<PlaceCount>) -> nat
    decreases entries.len(),
{
    if entries.len() == 0 {
        0
    } else {
        count_sum(entries.drop_last()) + entries.last().count as nat
    }
}

/// The multiset of a list holds as many places as the counts add up to.
pub proof fn lemma_place_bag_len(entries: Seq<PlaceCount>)
    ensures
        place_bag(entries).len() == count_sum(entries),
    decreases entries.len(),
{
    broadcast use vstd::multiset::group_multiset_axioms;
    if entries.len() > 0 {
        lemma_place_bag_len(entries.drop_last());
        lemma_copies_len(entries.last().place@, entries.last().count as nat);
    }
}

/// The multiset of seven weekday counts holds as many weekdays as the
/// counts add up to.
pub proof fn lemma_weekday_bag_len(counts: Seq<usize>)
    requires
        counts.len() == 7,
    ensures
        weekday_bag(counts).len() == counts[0] + counts[1] + counts[2] + counts[3] + counts[4]
            + counts[5] + counts[6],
{
    broadcast use vstd::multiset::group_multiset_axioms;
    lemma_copies_len(Weekday::Mon, counts[0] as nat);
    lemma_copies_len(Weekday::Tue, counts[1] as nat);
    lemma_copies_len(Weekday::Wed, counts[2] as nat);
    lemma_copies_len(Weekday::Thu, counts[3] as nat);
    lemma_copies_len(Weekday::Fri, counts[4] as nat);
    lemma_copies_len(Weekday::Sat, counts[5] as nat);
    lemma_copies_len(Weekday::Sun, counts[6] as nat);
}

/// Whether the counts of a list add up to `cap` at most.
pub fn places_within(entries: &Vec<PlaceCount>, cap: u64) -> (r: bool)
    ensures
        r == (place_bag(entries@).len() <= cap),
{
    let mut sum: u128 = 0;
    let mut k: usize = 0;
    assert(entries@.take(0) =~= Seq::<PlaceCount>::empty());
    while k < entries.len()
        invariant
            k <= entries@.len(),
            sum == count_sum(entries@.take(k as int)),
            sum <= cap,
        decreases entries@.len() - k,
    {
        proof {
            assert(entries@.take(k + 1).drop_last() =~= entries@.take(k as int));
            assert(entries@.take(k + 1).last() == entries@[k as int]);
        }
        sum = sum + entries[k].count as u128;
        if sum > cap as u128 {
            proof {
                lemma_count_sum_grows(entries@, k + 1);
                lemma_place_bag_len(entries@);
            }
            return false;
        }
        k += 1;
    }
    proof {
        assert(entries@.take(k as int) =~= entries@);
        lemma_place_bag_len(entries@);
    }
    true
}

/// The counts of a part of a list add up to no more than those of the whole.
pub proof fn lemma_count_sum_grows(entries: Seq<PlaceCount>, n: int)
    requires
        0 <= n <= entries.len(),
    ensures
        count_sum(entries.take(n)) <= count_sum(entries),
    decreases entries.len() - n,
{
    if n < entries.len() {
        assert(entries.take(n + 1).drop_last() =~= entries.take(n));
        lemma_count_sum_grows(entries, n + 1);
    } else {
        assert(entries.take(n) =~= entries);
    }
}

/// Whether seven weekday counts add up to `cap` at most.
pub fn weekdays_within(counts: &[usize; 7], cap: u64) -> (r: bool)
    ensures
        r == (weekday_bag(counts@).len() <= cap),
{
    proof {
        lemma_weekday_bag_len(counts@);
    }
    let sum: u128 = counts[0] as u128 + counts[1] as u128 + counts[2] as u128 + counts[3] as u128
        + counts[4] as u128 + counts[5] as u128 + counts[6] as u128;
    sum <= cap as u128
}

} // verus!

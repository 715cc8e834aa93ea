//! Ledgers rebuilt from a list of assignments.

use vstd::prelude::*;
use crate::config::Config;
use crate::schedule::kept::lemma_roster_fresh;
use crate::schedule::person_state::{
    GroupState, PersonState, PersonView, count_limit, count_limit_value,
    lemma_registered_within,
};
use crate::text::str_equal;
use crate::schedule::{Assignment, as_int, create_people, grouped, roster, views};

verus! {

/// The first position of the list at which someone of that name stands,
/// if anyone does.
pub open spec fn index_named(people: Seq<PersonView>, name: Seq<char>) -> Option<int>
    decreases people.len(),
{
    if people.len() == 0 {
        None
    } else {
        match index_named(people.drop_last(), name) {
            Some(i) => Some(i),
            None => if people.last().name == name {
                Some(people.len() - 1)
            } else {
                None
            },
        }
    }
}

/// The position that `index_named` gives holds the name, and no position
/// before it does; where it gives none, nobody has the name.
pub proof fn lemma_index_named(people: Seq<PersonView>, name: Seq<char>)
    ensures
        match index_named(people, name) {
            Some(i) => 0 <= i < people.len() && people[i].name == name && forall|j: int|
                0 <= j < i ==> (#[trigger] people[j]).name != name,
            None => forall|j: int| 0 <= j < people.len() ==> (#[trigger] people[j]).name != name,
        },
    decreases people.len(),
{
    if people.len() > 0 {
        let rest = people.drop_last();
        lemma_index_named(rest, name);
        match index_named(rest, name) {
            Some(i) => {
                assert forall|j: int| 0 <= j < i implies (#[trigger] people[j]).name != name by {
                    assert(rest[j].name != name);
                }
            },
            None => {
                assert forall|j: int| 0 <= j < people.len() - 1 implies (
                #[trigger] people[j]).name != name by {
                    assert(rest[j].name != name);
                }
            },
        }
    }
}

/// The first position with a name among the first `n` people is the first
/// position with that name in the whole list.
pub proof fn lemma_index_named_stays(people: Seq<PersonView>, name: Seq<char>, n: int, i: int)
    requires
        0 <= n <= people.len(),
        index_named(people.take(n), name) == Some(i),
    ensures
        index_named(people, name) == Some(i),
    decreases people.len() - n,
{
    if n < people.len() {
        assert(people.take(n + 1).drop_last() =~= people.take(n));
        lemma_index_named_stays(people, name, n + 1, i);
    } else {
        assert(people.take(n) =~= people);
    }
}

/// The first position at which someone of that name stands.
pub fn position_of(people: &Vec<PersonState>, name: &str) -> (r: Option<usize>)
    ensures
        as_int(r) == index_named(views(people@), name@),
        r matches Some(i) ==> i < people@.len() && people@[i as int]@.name == name@,
{
    let ghost all = views(people@);
    let mut i: usize = 0;
    assert(all.take(0) =~= Seq::<PersonView>::empty());
    while i < people.len()
        invariant
            i <= people@.len(),
            all == views(people@),
            index_named(all.take(i as int), name@).is_none(),
        decreases people@.len() - i,
    {
        let who = people[i].name();
        proof {
            assert(all[i as int] == people@[i as int]@);
            assert(all.take(i + 1).drop_last() =~= all.take(i as int));
            assert(all.take(i + 1).last() == all[i as int]);
        }
        if str_equal(who.as_str(), name) {
            proof {
                lemma_index_named_stays(all, name@, i + 1, i as int);
            }
            return Some(i);
        }
        i += 1;
    }
    assert(all.take(i as int) =~= all);
    None
}

/// The ledgers and group states that come of recording the assignments one
/// by one, each for the first person of its name; an assignment that names
/// nobody on the list is passed over.
pub open spec fn replayed(
    people: Seq<PersonView>,
    groups: Seq<GroupState>,
    assignments: Seq<Assignment>,
) -> (Seq<PersonView>, Seq<GroupState>)
    decreases assignments.len(),
{
    if assignments.len() == 0 {
        (people, groups)
    } else {
        let earlier = replayed(people, groups, assignments.drop_last());
        let a = assignments.last();
        match index_named(earlier.0, a.person@) {
            Some(i) => (
                earlier.0.update(i, earlier.0[i].registered(a.date, a.place@)),
                earlier.1.update(earlier.0[i].group, GroupState { last_service: Some(a.date) }),
            ),
            None => earlier,
        }
    }
}

/// Every ledger is within the limit.
pub open spec fn all_within(people: Seq<PersonView>, limit: int) -> bool {
    forall|i: int| 0 <= i < people.len() ==> (#[trigger] people[i]).within(limit)
}

/// Whether the ledgers can count so many assignments.
pub fn can_replay(assignments: &Vec<Assignment>) -> (r: bool)
    ensures
        r == (assignments@.len() <= count_limit()),
{
    assignments.len() as u128 <= count_limit_value() as u128
}

/// The ledgers and group states of a schedule that was made before: the
/// fresh ledgers of the configured members, with the assignments recorded
/// one by one, each for the first person of its name.
pub fn replay_assignments(config: &Config, assignments: &Vec<Assignment>) -> (r: (
    Vec<PersonState>,
    Vec<GroupState>,
))
    requires
        assignments@.len() <= count_limit(),
    ensures
        (views(r.0@), r.1@) == replayed(
            roster(config.group@),
            Seq::new(config.group@.len(), |g: int| GroupState { last_service: None }),
            assignments@,
        ),
        grouped(r.0@, r.1@),
        all_within(views(r.0@), assignments@.len() as int),
{
    let (mut people, mut groups) = create_people(config);
    let ghost fresh = views(people@);
    let ghost untouched = groups@;
    proof {
        assert(untouched =~= Seq::new(
            config.group@.len(),
            |g: int| GroupState { last_service: None },
        ));
        assert forall|i: int| 0 <= i < fresh.len() implies (#[trigger] fresh[i]).within(0) && 0
            <= fresh[i].group < groups@.len() by {
            lemma_roster_fresh(config.group@, i);
        }
        assert forall|i: int| 0 <= i < people@.len() implies 0 <= (
        #[trigger] people@[i])@.group < groups@.len() by {
            assert(fresh[i] == people@[i]@);
        }
    }
    let mut k: usize = 0;
    assert(assignments@.take(0) =~= Seq::<Assignment>::empty());
    while k < assignments.len()
        invariant
            k <= assignments@.len(),
            assignments@.len() <= count_limit(),
            (views(people@), groups@) == replayed(fresh, untouched, assignments@.take(k as int)),
            grouped(people@, groups@),
            all_within(views(people@), k as int),
        decreases assignments@.len() - k,
    {
        let a = &assignments[k];
        let ghost before = views(people@);
        let ghost listed = people@;
        proof {
            assert(assignments@.take(k + 1).drop_last() =~= assignments@.take(k as int));
            assert(assignments@.take(k + 1).last() == *a);
        }
        match position_of(&people, a.person.as_str()) {
            Some(i) => {
                proof {
                    assert(before[i as int] == people@[i as int]@);
                    assert(before[i as int].within(k as int));
                }
                people[i].register_service(&mut groups, a.date, a.place.clone());
                proof {
                    let after = views(people@);
                    assert(after =~= before.update(
                        i as int,
                        before[i as int].registered(a.date, a.place@),
                    ));
                    assert forall|j: int| 0 <= j < after.len() implies (#[trigger] after[j]).within(
                        k + 1,
                    ) by {
                        assert(before[j].within(k as int));
                        if j == i {
                            lemma_registered_within(
                                before[j],
                                a.date,
                                a.place@,
                                k as int,
                            );
                        }
                    }
                    assert forall|j: int| 0 <= j < people@.len() implies 0 <= (
                    #[trigger] people@[j])@.group < groups@.len() by {
                        assert(after[j] == people@[j]@);
                        assert(before[j] == listed[j]@);
                        assert(after[j].group == before[j].group);
                    }
                }
            },
            None => {
                proof {
                    assert forall|j: int| 0 <= j < before.len() implies (
                    #[trigger] before[j]).within(k + 1) by {
                        assert(before[j].within(k as int));
                    }
                }
            },
        }
        k += 1;
    }
    assert(assignments@.take(k as int) =~= assignments@);
    (people, groups)
}

} // verus!

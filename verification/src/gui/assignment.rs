//! Exchanging the people of two filled slots by hand.

use vstd::prelude::*;
use crate::date::Date;
use crate::schedule::person_state::{
    count_limit, lemma_registered_within, lemma_unregistered_within,
};
use crate::text::str_equal;
use crate::schedule::{
    Assignment, GroupState, PersonState, PersonView, all_have_room_for, grouped, index_named,
    position_of, views,
};

verus! {

/// The assignment fills the first slot.
pub open spec fn at_first(a: Assignment, date1: Date, place1: Seq<char>) -> bool {
    a.date == date1 && a.place@ == place1
}

/// The assignment fills the second slot and not the first.
pub open spec fn at_second(
    a: Assignment,
    date1: Date,
    place1: Seq<char>,
    date2: Date,
    place2: Seq<char>,
) -> bool {
    !at_first(a, date1, place1) && a.date == date2 && a.place@ == place2
}

/// Both slots are filled, by different assignments.
pub open spec fn both_found(
    assignments: Seq<Assignment>,
    date1: Date,
    place1: Seq<char>,
    date2: Date,
    place2: Seq<char>,
) -> bool {
    &&& exists|k: int| 0 <= k < assignments.len() && at_first(#[trigger] assignments[k], date1, place1)
    &&& exists|k: int|
        0 <= k < assignments.len() && at_second(
            #[trigger] assignments[k],
            date1,
            place1,
            date2,
            place2,
        )
}

/// The ledgers after the person at `first` gave the first slot for the
/// second and the person at `second` the second for the first: both
/// services are taken back, then both new ones are recorded.
pub open spec fn exchanged(
    people: Seq<PersonView>,
    first: int,
    second: int,
    date1: Date,
    place1: Seq<char>,
    date2: Date,
    place2: Seq<char>,
) -> Seq<PersonView> {
    let a = people.update(first, people[first].unregistered(date1, place1));
    let b = a.update(second, a[second].unregistered(date2, place2));
    let c = b.update(first, b[first].registered(date2, place2));
    c.update(second, c[second].registered(date1, place1))
}

/// What an exchange of two slots makes of the assignments, the ledgers and
/// the group states.
///
/// Where both slots are filled, every assignment for the first slot names
/// `person2` and every assignment for the second names `person1`; else the
/// assignments stay as they are. The ledgers and the groups follow where
/// both slots are filled and both names are on the list of people; else
/// they stay as they are.
pub open spec fn is_swap(
    assignments: Seq<Assignment>,
    new_assignments: Seq<Assignment>,
    people: Seq<PersonView>,
    new_people: Seq<PersonView>,
    groups: Seq<GroupState>,
    new_groups: Seq<GroupState>,
    date1: Date,
    place1: Seq<char>,
    person1: Seq<char>,
    date2: Date,
    place2: Seq<char>,
    person2: Seq<char>,
) -> bool {
    let found = both_found(assignments, date1, place1, date2, place2);
    &&& new_assignments.len() == assignments.len()
    &&& forall|k: int|
        0 <= k < assignments.len() ==> {
            let before = assignments[k];
            let after = #[trigger] new_assignments[k];
            &&& after.date == before.date
            &&& after.place@ == before.place@
            &&& after.person@ == if found && at_first(before, date1, place1) {
                person2
            } else if found && at_second(before, date1, place1, date2, place2) {
                person1
            } else {
                before.person@
            }
        }
    &&& new_people.len() == people.len()
    &&& new_groups.len() == groups.len()
    &&& match (index_named(people, person1), index_named(people, person2)) {
        (Some(first), Some(second)) => if found {
            &&& new_people == exchanged(people, first, second, date1, place1, date2, place2)
            &&& new_groups == groups.update(
                people[first].group,
                GroupState { last_service: Some(date2) },
            ).update(people[second].group, GroupState { last_service: Some(date1) })
        } else {
            new_people == people && new_groups == groups
        },
        _ => new_people == people && new_groups == groups,
    }
}

/// Whether both slots are filled, by different assignments.
fn find_both(
    assignments: &Vec<Assignment>,
    date1: Date,
    place1: &str,
    date2: Date,
    place2: &str,
) -> (r: bool)
    ensures
        r == both_found(assignments@, date1, place1@, date2, place2@),
{
    let mut found1 = false;
    let mut found2 = false;
    let mut k: usize = 0;
    while k < assignments.len()
        invariant
            k <= assignments@.len(),
            found1 == exists|j: int|
                0 <= j < k && at_first(#[trigger] assignments@[j], date1, place1@),
            found2 == exists|j: int|
                0 <= j < k && at_second(#[trigger] assignments@[j], date1, place1@, date2, place2@),
        decreases assignments@.len() - k,
    {
        let a = &assignments[k];
        if a.date == date1 && str_equal(a.place.as_str(), place1) {
            found1 = true;
        } else if a.date == date2 && str_equal(a.place.as_str(), place2) {
            found2 = true;
        }
        k += 1;
    }
    found1 && found2
}

/// Writes the other person's name into each of the two slots.
fn rename_both(
    assignments: &mut Vec<Assignment>,
    date1: Date,
    place1: &str,
    person1: &str,
    date2: Date,
    place2: &str,
    person2: &str,
)
    ensures
        final(assignments)@.len() == old(assignments)@.len(),
        forall|k: int|
            0 <= k < old(assignments)@.len() ==> {
                let before = old(assignments)@[k];
                let after = #[trigger] final(assignments)@[k];
                &&& after.date == before.date
                &&& after.place@ == before.place@
                &&& after.person@ == if at_first(before, date1, place1@) {
                    person2@
                } else if at_second(before, date1, place1@, date2, place2@) {
                    person1@
                } else {
                    before.person@
                }
            },
{
    let mut k: usize = 0;
    while k < assignments.len()
        invariant
            k <= assignments@.len(),
            assignments@.len() == old(assignments)@.len(),
            forall|j: int| k <= j < assignments@.len() ==> assignments@[j] == old(assignments)@[j],
            forall|j: int|
                0 <= j < k ==> {
                    let before = old(assignments)@[j];
                    let after = #[trigger] assignments@[j];
                    &&& after.date == before.date
                    &&& after.place@ == before.place@
                    &&& after.person@ == if at_first(before, date1, place1@) {
                        person2@
                    } else if at_second(before, date1, place1@, date2, place2@) {
                        person1@
                    } else {
                        before.person@
                    }
                },
        decreases assignments@.len() - k,
    {
        if assignments[k].date == date1 && str_equal(assignments[k].place.as_str(), place1) {
            assignments[k].person = person2.to_owned();
        } else if assignments[k].date == date2 && str_equal(assignments[k].place.as_str(), place2) {
            assignments[k].person = person1.to_owned();
        }
        k += 1;
    }
}

/// Exchanges the people of two filled slots. Where both slots are filled
/// (by different assignments), every assignment for the first slot gets
/// `person2` and every assignment for the second gets `person1`, and the
/// result is `true`; else nothing changes and the result is `false`.
///
/// The ledgers follow where both names are on the list: the first person of
/// each name gives up the old slot and takes the new one. The groups then
/// see the new services as their last. Where a name is not on the list the
/// ledgers and the groups stay as they are.
pub fn swap_assignments(
    assignments: &mut Vec<Assignment>,
    people: &mut Vec<PersonState>,
    groups: &mut Vec<GroupState>,
    date1: Date,
    place1: &str,
    person1: &str,
    date2: Date,
    place2: &str,
    person2: &str,
) -> (r: bool)
    requires
        grouped(old(people)@, old(groups)@),
        all_have_room_for(old(people)@, 2),
    ensures
        r == both_found(old(assignments)@, date1, place1@, date2, place2@),
        is_swap(
            old(assignments)@,
            final(assignments)@,
            views(old(people)@),
            views(final(people)@),
            old(groups)@,
            final(groups)@,
            date1,
            place1@,
            person1@,
            date2,
            place2@,
            person2@,
        ),
{
    let found = find_both(assignments, date1, place1, date2, place2);
    if !found {
        assert(views(people@) =~= views(old(people)@));
        return false;
    }
    rename_both(assignments, date1, place1, person1, date2, place2, person2);
    let first = position_of(people, person1);
    let second = position_of(people, person2);
    let ghost start = views(people@);
    match (first, second) {
        (Some(i1), Some(i2)) => {
            proof {
                assert(start[i1 as int] == people@[i1 as int]@);
                assert(start[i2 as int] == people@[i2 as int]@);
                lemma_unregistered_within(start[i1 as int], date1, place1@, count_limit() - 2);
            }
            people[i1].unregister_service(date1, place1.to_owned());
            let ghost a = views(people@);
            proof {
                assert(a =~= start.update(i1 as int, start[i1 as int].unregistered(date1, place1@)));
                assert(a[i2 as int] == people@[i2 as int]@);
                lemma_unregistered_within(a[i2 as int], date2, place2@, count_limit() - 2);
            }
            people[i2].unregister_service(date2, place2.to_owned());
            let ghost b = views(people@);
            proof {
                assert(b =~= a.update(i2 as int, a[i2 as int].unregistered(date2, place2@)));
                assert(b[i1 as int] == people@[i1 as int]@);
                lemma_registered_within(b[i1 as int], date2, place2@, count_limit() - 2);
            }
            people[i1].register_service(groups, date2, place2.to_owned());
            let ghost c = views(people@);
            proof {
                assert(c =~= b.update(i1 as int, b[i1 as int].registered(date2, place2@)));
                assert(c[i2 as int] == people@[i2 as int]@);
            }
            people[i2].register_service(groups, date1, place1.to_owned());
            proof {
                assert(views(people@) =~= c.update(
                    i2 as int,
                    c[i2 as int].registered(date1, place1@),
                ));
            }
        },
        _ => {},
    }
    true
}

} // verus!

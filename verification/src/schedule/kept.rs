//! What a run keeps true from slot to slot and from shuffle to shuffle:
//! every service is counted once in each count of one ledger, the people
//! stay who they are, and every assignment names someone who was admitted
//! to its slot on a day that is no exception.

use vstd::prelude::*;
use crate::config::{Config, Group};
use crate::date::Date;
use crate::schedule::person_state::{GroupState, PersonState, PersonView};
use crate::schedule::sums;
use crate::schedule::{Assignment, is_candidate, roster, views};

verus! {

/// Who a ledger belongs to: name, home place and group.
pub open spec fn identity() -> spec_fn(PersonView) -> (Seq<char>, Seq<char>, int) {
    |v: PersonView| (v.name, v.place, v.group)
}

/// The services a ledger has recorded in all.
pub open spec fn by_total() -> spec_fn(PersonView) -> nat {
    |v: PersonView| v.total_services
}

/// The services a ledger has recorded by weekday.
pub open spec fn by_weekday() -> spec_fn(PersonView) -> nat {
    |v: PersonView| v.weekdays.len()
}

/// The services a ledger has recorded by place.
pub open spec fn by_place() -> spec_fn(PersonView) -> nat {
    |v: PersonView| v.places.len()
}

/// Every ledger is balanced.
pub open spec fn all_balanced(people: Seq<PersonView>) -> bool {
    forall|i: int| 0 <= i < people.len() ==> (#[trigger] people[i]).balanced()
}

/// The assignment names this person, who is at home at its place if only
/// such people are admitted.
pub open spec fn serves(person: PersonView, a: Assignment, same_place_only: bool) -> bool {
    person.name == a.person@ && is_candidate(person, a.place@, same_place_only)
}

/// Every assignment names someone on the list who was admitted to its slot.
pub open spec fn all_served(
    assignments: Seq<Assignment>,
    people: Seq<PersonView>,
    same_place_only: bool,
) -> bool {
    forall|k: int|
        0 <= k < assignments.len() ==> exists|i: int|
            0 <= i < people.len() && serves(#[trigger] people[i], #[trigger] assignments[k], same_place_only)
}

/// Somebody on the list may fill a slot at `place`.
pub open spec fn staffed(people: Seq<PersonView>, place: Seq<char>, same_place_only: bool) -> bool {
    exists|i: int| 0 <= i < people.len() && is_candidate(#[trigger] people[i], place, same_place_only)
}

/// The slots of one date that get filled, among the first `n` places: those
/// that somebody may fill, in the places' order.
pub open spec fn date_slots(
    date: Date,
    places: Seq<String>,
    people: Seq<PersonView>,
    same_place_only: bool,
    n: int,
) -> Seq<(Date, Seq<char>)>
    decreases n,
{
    if n <= 0 {
        Seq::empty()
    } else {
        let earlier = date_slots(date, places, people, same_place_only, n - 1);
        if staffed(people, places[n - 1]@, same_place_only) {
            earlier.push((date, places[n - 1]@))
        } else {
            earlier
        }
    }
}

/// The slots that a run fills on the first `n` dates: on every date that is
/// no exception, in the dates' order, that date's slots.
pub open spec fn run_slots(dates: Seq<Date>, config: Config, n: int) -> Seq<(Date, Seq<char>)>
    decreases n,
{
    if n <= 0 {
        Seq::empty()
    } else {
        let earlier = run_slots(dates, config, n - 1);
        if config.dates.excepts(dates[n - 1]) {
            earlier
        } else {
            earlier + date_slots(
                dates[n - 1],
                config.places.places@,
                roster(config.group@),
                config.rules.filters_same_place(),
                config.places.places@.len() as int,
            )
        }
    }
}

/// The slots of a list of assignments.
pub open spec fn slots_of(assignments: Seq<Assignment>) -> Seq<(Date, Seq<char>)> {
    assignments.map_values(|a: Assignment| (a.date, a.place@))
}

/// What holds of the people, the groups and the assignments of a run at
/// every moment.
pub open spec fn run_kept(
    people: Seq<PersonView>,
    groups: Seq<GroupState>,
    assignments: Seq<Assignment>,
    config: Config,
) -> bool {
    &&& groups.len() == config.group@.len()
    &&& forall|i: int| 0 <= i < people.len() ==> 0 <= (#[trigger] people[i]).group < groups.len()
    &&& all_balanced(people)
    &&& sums::sum_of(people, by_total()) == assignments.len()
    &&& people.map_values(identity()).to_multiset() == roster(config.group@).map_values(
        identity(),
    ).to_multiset()
    &&& all_served(assignments, people, config.rules.filters_same_place())
    &&& forall|k: int|
        0 <= k < assignments.len() ==> !config.dates.excepts((#[trigger] assignments[k]).date)
}

/// A reordering of the people keeps what holds of a run.
pub proof fn lemma_reordering_keeps_run(
    before: Seq<PersonState>,
    after: Seq<PersonState>,
    groups: Seq<GroupState>,
    assignments: Seq<Assignment>,
    config: Config,
)
    requires
        before.to_multiset() == after.to_multiset(),
        run_kept(views(before), groups, assignments, config),
    ensures
        run_kept(views(after), groups, assignments, config),
        after.len() == before.len(),
{
    let see = |p: PersonState| p@;
    sums::lemma_map_reordered(before, after, see);
    let a = views(before);
    let b = views(after);
    assert(a == before.map_values(see));
    assert(b == after.map_values(see));
    sums::lemma_sum_reordered(a, b, by_total());
    sums::lemma_all_reordered(a, b, |v: PersonView| 0 <= v.group < groups.len());
    sums::lemma_all_reordered(a, b, |v: PersonView| v.balanced());
    sums::lemma_map_reordered(a, b, identity());
    let filter = config.rules.filters_same_place();
    assert forall|k: int| 0 <= k < assignments.len() implies exists|i: int|
        0 <= i < b.len() && serves(#[trigger] b[i], #[trigger] assignments[k], filter) by {
        let i = choose|i: int| 0 <= i < a.len() && serves(#[trigger] a[i], assignments[k], filter);
        let holds = |v: PersonView| serves(v, assignments[k], filter);
        assert(holds(a[i]));
        sums::lemma_some_reordered(a, b, holds);
        let j = choose|j: int| 0 <= j < b.len() && holds(#[trigger] b[j]);
        assert(serves(b[j], assignments[k], filter));
    }
}

/// A place is staffed by the people of a run exactly if the configured
/// members staff it.
pub proof fn lemma_staffed_as_configured(
    people: Seq<PersonView>,
    configured: Seq<PersonView>,
    place: Seq<char>,
    same_place_only: bool,
)
    requires
        people.map_values(identity()).to_multiset() == configured.map_values(
            identity(),
        ).to_multiset(),
    ensures
        staffed(people, place, same_place_only) == staffed(configured, place, same_place_only),
{
    let a = people.map_values(identity());
    let b = configured.map_values(identity());
    let holds = |id: (Seq<char>, Seq<char>, int)| !same_place_only || id.1 == place;
    if staffed(people, place, same_place_only) {
        let i = choose|i: int|
            0 <= i < people.len() && is_candidate(#[trigger] people[i], place, same_place_only);
        assert(holds(a[i]));
        sums::lemma_some_reordered(a, b, holds);
        let j = choose|j: int| 0 <= j < b.len() && holds(#[trigger] b[j]);
        assert(is_candidate(configured[j], place, same_place_only));
    }
    if staffed(configured, place, same_place_only) {
        let i = choose|i: int|
            0 <= i < configured.len() && is_candidate(
                #[trigger] configured[i],
                place,
                same_place_only,
            );
        assert(holds(b[i]));
        sums::lemma_some_reordered(b, a, holds);
        let j = choose|j: int| 0 <= j < a.len() && holds(#[trigger] a[j]);
        assert(is_candidate(people[j], place, same_place_only));
    }
}

/// Recording a service for the person who was admitted to a slot, with the
/// assignment that names that person, keeps what holds of a run.
pub proof fn lemma_service_keeps_run(
    before: Seq<PersonView>,
    after: Seq<PersonView>,
    groups: Seq<GroupState>,
    new_groups: Seq<GroupState>,
    assignments: Seq<Assignment>,
    new_assignments: Seq<Assignment>,
    config: Config,
    best: int,
    date: Date,
    place: Seq<char>,
)
    requires
        run_kept(before, groups, assignments, config),
        0 <= best < before.len(),
        after == before.update(best, before[best].registered(date, place)),
        new_groups.len() == groups.len(),
        new_assignments.len() == assignments.len() + 1,
        new_assignments.drop_last() == assignments,
        new_assignments.last().date == date,
        new_assignments.last().place@ == place,
        new_assignments.last().person@ == before[best].name,
        is_candidate(before[best], place, config.rules.filters_same_place()),
        !config.dates.excepts(date),
    ensures
        run_kept(after, new_groups, new_assignments, config),
{
    let filter = config.rules.filters_same_place();
    crate::schedule::laws::lemma_balance_kept(before[best], date, place);
    sums::lemma_sum_update(before, by_total(), best, after[best]);
    assert(after.map_values(identity()) =~= before.map_values(identity()));
    assert forall|k: int| 0 <= k < new_assignments.len() implies exists|i: int|
        0 <= i < after.len() && serves(#[trigger] after[i], #[trigger] new_assignments[k], filter) by {
        if k < assignments.len() {
            assert(new_assignments[k] == new_assignments.drop_last()[k]);
            let i = choose|i: int|
                0 <= i < before.len() && serves(#[trigger] before[i], assignments[k], filter);
            assert(serves(after[i], new_assignments[k], filter));
        } else {
            assert(serves(after[best], new_assignments[k], filter));
        }
    }
    assert forall|k: int| 0 <= k < new_assignments.len() implies !config.dates.excepts(
        (#[trigger] new_assignments[k]).date,
    ) by {
        if k < assignments.len() {
            assert(new_assignments[k] == new_assignments.drop_last()[k]);
        }
    }
}

/// No date fills more slots than there are places.
pub proof fn lemma_date_slots_len(
    date: Date,
    places: Seq<String>,
    people: Seq<PersonView>,
    same_place_only: bool,
    n: int,
)
    requires
        0 <= n,
    ensures
        date_slots(date, places, people, same_place_only, n).len() <= n,
    decreases n,
{
    if n > 0 {
        lemma_date_slots_len(date, places, people, same_place_only, n - 1);
    }
}

/// A run starts with what it keeps: fresh ledgers, one group state for
/// every group and no assignment.
pub proof fn lemma_run_kept_at_start(config: Config, groups: Seq<GroupState>)
    requires
        groups.len() == config.group@.len(),
    ensures
        run_kept(roster(config.group@), groups, Seq::empty(), config),
{
    let fresh = roster(config.group@);
    assert forall|i: int| 0 <= i < fresh.len() implies by_total()(#[trigger] fresh[i]) == 0
        && fresh[i].balanced() && 0 <= fresh[i].group < groups.len() by {
        lemma_roster_fresh(config.group@, i);
    }
    sums::lemma_sum_zero(fresh, by_total());
}

/// Every entry of a roster is a fresh ledger in one of the groups.
pub proof fn lemma_roster_fresh(groups: Seq<Group>, i: int)
    requires
        0 <= i < roster(groups).len(),
    ensures
        roster(groups)[i].total_services == 0,
        roster(groups)[i].balanced(),
        0 <= roster(groups)[i].group < groups.len(),
    decreases groups.len(),
{
    broadcast use vstd::multiset::group_multiset_axioms;
    if groups.len() > 0 {
        let earlier = roster(groups.drop_last());
        if i < earlier.len() {
            lemma_roster_fresh(groups.drop_last(), i);
        }
    }
}

} // verus!

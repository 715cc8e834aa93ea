//! The assignment engine: it fills the slots of a date-by-place grid one by
//! one, each with the person whom the rules rank first at that moment.

use vstd::prelude::*;
use vstd::string::*;
use rand::seq::SliceRandom;
use crate::config::{Config, Group, Rule, Rules};
use crate::date::Date;

pub mod kept;
pub mod laws;
pub mod ledger;
pub mod person_state;
pub mod rank;
pub mod replay;
pub mod run;
pub mod sums;

pub use kept::{
    all_served, by_place, by_total, by_weekday, date_slots, run_kept, run_slots, slots_of,
};
pub use person_state::GroupState;
pub use person_state::PersonState;
pub use person_state::PersonView;
pub use replay::{can_replay, index_named, position_of, replay_assignments, replayed};

use kept::{
    lemma_date_slots_len, lemma_reordering_keeps_run, lemma_run_kept_at_start,
    lemma_service_keeps_run, lemma_staffed_as_configured,
};

verus! {

/// One filled slot: who serves on a date at a place.
#[derive(Debug)]
pub struct Assignment {
    pub date: Date,
    pub place: String,
    pub person: String,
}

impl Clone for Assignment {
    fn clone(&self) -> (r: Self)
        ensures
            r == *self,
    {
        Assignment { date: self.date, place: self.place.clone(), person: self.person.clone() }
    }
}

/// The ledgers of a list of people as mathematics.
pub open spec fn views(people: Seq<PersonState>) -> Seq<PersonView> {
    people.map_values(|p: PersonState| p@)
}

/// A position as a mathematical integer.
pub open spec fn as_int(position: Option<usize>) -> Option<int> {
    match position {
        Some(i) => Some(i as int),
        None => None,
    }
}

/// A person's name in a run: the member's name, a space, the group's name.
pub open spec fn member_name(member: Seq<char>, group: Seq<char>) -> Seq<char> {
    member + " "@ + group
}

/// The fresh ledgers of one group's members, in the members' order.
pub open spec fn group_roster(group: Group, index: int) -> Seq<PersonView> {
    Seq::new(
        group.members@.len(),
        |k: int|
            PersonView::fresh(
                member_name(group.members@[k].name@, group.name@),
                group.place@,
                index,
            ),
    )
}

/// The fresh ledgers of all groups' members, group by group.
pub open spec fn roster(groups: Seq<Group>) -> Seq<PersonView>
    decreases groups.len(),
{
    if groups.len() == 0 {
        Seq::empty()
    } else {
        roster(groups.drop_last()) + group_roster(groups.last(), groups.len() - 1)
    }
}

/// One fresh ledger per configured member, group by group, and one group
/// state per group that no service has touched yet. The members of a group
/// point at their group's state; members of different groups never share one.
pub fn create_people(config: &Config) -> (r: (Vec<PersonState>, Vec<GroupState>))
    ensures
        views(r.0@) == roster(config.group@),
        r.1@.len() == config.group@.len(),
        forall|g: int| 0 <= g < r.1@.len() ==> (#[trigger] r.1@[g]).last_service is None,
{
    let mut people: Vec<PersonState> = Vec::new();
    let mut groups: Vec<GroupState> = Vec::new();
    let mut g: usize = 0;
    assert(views(people@) =~= roster(config.group@.take(0)));
    while g < config.group.len()
        invariant
            g <= config.group@.len(),
            views(people@) == roster(config.group@.take(g as int)),
            groups@.len() == g,
            forall|k: int| 0 <= k < groups@.len() ==> (#[trigger] groups@[k]).last_service is None,
        decreases config.group@.len() - g,
    {
        let group = &config.group[g];
        groups.push(GroupState::default());
        let ghost before = views(people@);
        let mut m: usize = 0;
        assert(views(people@) =~= before + group_roster(*group, g as int).take(0));
        while m < group.members.len()
            invariant
                m <= group.members@.len(),
                views(people@) == before + group_roster(*group, g as int).take(m as int),
            decreases group.members@.len() - m,
        {
            let name = group.members[m].name.clone().concat(" ").concat(group.name.as_str());
            let person = PersonState::new(name, group.place.clone(), g);
            let ghost old_people = people@;
            people.push(person);
            assert(views(people@) =~= views(old_people).push(person@));
            assert(group_roster(*group, g as int).take(m + 1) =~= group_roster(
                *group,
                g as int,
            ).take(m as int).push(group_roster(*group, g as int)[m as int]));
            assert(views(people@) =~= before + group_roster(*group, g as int).take(m + 1));
            m += 1;
        }
        assert(group_roster(*group, g as int).take(m as int) =~= group_roster(*group, g as int));
        assert(config.group@.take(g + 1).drop_last() =~= config.group@.take(g as int));
        assert(config.group@.take(g + 1).last() == *group);
        g += 1;
    }
    assert(config.group@.take(g as int) =~= config.group@);
    (people, groups)
}

/// Whether a person may fill a slot at `place`: anyone may, unless only
/// people at their home place are admitted.
pub open spec fn is_candidate(person: PersonView, place: Seq<char>, same_place_only: bool) -> bool {
    !same_place_only || person.place == place
}

/// A person's rank key for a slot, with the state of the person's group
/// taken from the list of group states.
pub open spec fn slot_key(
    person: PersonView,
    groups: Seq<GroupState>,
    date: Date,
    place: Seq<char>,
    rules: Seq<Rule>,
) -> Seq<int> {
    person.sort_key(groups[person.group].last_service, date, place, rules)
}

/// Every person's group is in the list of group states.
pub open spec fn grouped(people: Seq<PersonState>, groups: Seq<GroupState>) -> bool {
    forall|i: int| 0 <= i < people.len() ==> 0 <= (#[trigger] people[i])@.group < groups.len()
}

/// `best` is the first of the candidates with the smallest key among the
/// first `n` people: every candidate before it has a larger key, and no
/// candidate after it has a smaller one.
pub open spec fn first_best(
    people: Seq<PersonView>,
    groups: Seq<GroupState>,
    date: Date,
    place: Seq<char>,
    rules: Seq<Rule>,
    same_place_only: bool,
    n: int,
    best: int,
) -> bool {
    &&& 0 <= best < n
    &&& is_candidate(people[best], place, same_place_only)
    &&& forall|j: int|
        0 <= j < best && is_candidate(#[trigger] people[j], place, same_place_only) ==> rank::key_less(
            slot_key(people[best], groups, date, place, rules),
            slot_key(people[j], groups, date, place, rules),
        )
    &&& forall|j: int|
        best < j < n && is_candidate(#[trigger] people[j], place, same_place_only)
            ==> !rank::key_less(
            slot_key(people[j], groups, date, place, rules),
            slot_key(people[best], groups, date, place, rules),
        )
}

/// Nobody may fill a slot at `place`.
pub open spec fn no_candidate(people: Seq<PersonView>, place: Seq<char>, same_place_only: bool) -> bool {
    forall|j: int| 0 <= j < people.len() ==> !is_candidate(#[trigger] people[j], place, same_place_only)
}

/// Picks the person for a slot: among the candidates, the one with the
/// smallest rank key, and of several with that key the one that stands
/// first in the list. `None` where there is no candidate.
pub fn choose_person(
    people: &Vec<PersonState>,
    groups: &Vec<GroupState>,
    date: Date,
    place: &String,
    rules: &Rules,
    same_place_only: bool,
) -> (r: Option<usize>)
    requires
        grouped(people@, groups@),
    ensures
        match r {
            Some(best) => first_best(
                views(people@),
                groups@,
                date,
                place@,
                rules.sort@,
                same_place_only,
                people@.len() as int,
                best as int,
            ),
            None => no_candidate(views(people@), place@, same_place_only),
        },
        as_int(r) == run::choice(
            views(people@),
            groups@,
            date,
            place@,
            rules.sort@,
            same_place_only,
        ),
{
    let ghost all = views(people@);
    let mut best: Option<usize> = None;
    let mut best_key: Vec<i64> = Vec::new();
    let mut i: usize = 0;
    while i < people.len()
        invariant
            i <= people@.len(),
            all == views(people@),
            grouped(people@, groups@),
            match best {
                Some(b) => first_best(
                    all,
                    groups@,
                    date,
                    place@,
                    rules.sort@,
                    same_place_only,
                    i as int,
                    b as int,
                ) && rank::key_values(best_key@) == slot_key(
                    all[b as int],
                    groups@,
                    date,
                    place@,
                    rules.sort@,
                ),
                None => forall|j: int|
                    0 <= j < i ==> !is_candidate(#[trigger] all[j], place@, same_place_only),
            },
        decreases people@.len() - i,
    {
        let person = &people[i];
        assert(all[i as int] == person@);
        let home = person.place();
        if !same_place_only || home == *place {
            let key = person.sort_key(groups, date, place.as_str(), rules);
            match best {
                None => {
                    best = Some(i);
                    best_key = key;
                },
                Some(b) => {
                    let ghost ki = slot_key(all[i as int], groups@, date, place@, rules.sort@);
                    let ghost kb = slot_key(all[b as int], groups@, date, place@, rules.sort@);
                    if rank::key_is_less(&key, &best_key) {
                        proof {
                            assert forall|j: int|
                                0 <= j < i && is_candidate(
                                    #[trigger] all[j],
                                    place@,
                                    same_place_only,
                                ) implies rank::key_less(
                                ki,
                                slot_key(all[j], groups@, date, place@, rules.sort@),
                            ) by {
                                let kj = slot_key(all[j], groups@, date, place@, rules.sort@);
                                if j < b {
                                    rank::lemma_key_less_transitive(ki, kb, kj);
                                } else if j > b {
                                    rank::lemma_key_less_than_no_smaller(ki, kb, kj);
                                }
                            }
                        }
                        best = Some(i);
                        best_key = key;
                    }
                },
            }
        }
        i += 1;
    }
    proof {
        match best {
            Some(b) => {
                run::lemma_first_best_is_choice(
                    all,
                    groups@,
                    date,
                    place@,
                    rules.sort@,
                    same_place_only,
                    b as int,
                );
            },
            None => {
                run::lemma_no_candidate_no_choice(
                    all,
                    groups@,
                    date,
                    place@,
                    rules.sort@,
                    same_place_only,
                );
            },
        }
    }
    best
}

/// The state of a run as mathematics.
pub open spec fn state_of(
    people: Seq<PersonState>,
    groups: Seq<GroupState>,
    assignments: Seq<Assignment>,
) -> run::Run {
    run::Run { people: views(people), groups, filled: run::entries(assignments) }
}

/// Every ledger has room for so many more services.
pub open spec fn all_have_room_for(people: Seq<PersonState>, services: int) -> bool {
    forall|i: int|
        0 <= i < people.len() ==> (#[trigger] people[i])@.within(
            person_state::count_limit() - services,
        )
}

/// Whether every person's group is in the list of group states and every
/// ledger has room for so many more services.
pub fn fit_together(people: &Vec<PersonState>, groups: &Vec<GroupState>, services: u8) -> (r:
    bool)
    ensures
        r == (grouped(people@, groups@) && all_have_room_for(people@, services as int)),
{
    let mut i: usize = 0;
    while i < people.len()
        invariant
            i <= people@.len(),
            forall|j: int|
                0 <= j < i ==> 0 <= (#[trigger] people@[j])@.group < groups@.len() && people@[j]@.within(
                    person_state::count_limit() - services,
                ),
        decreases people@.len() - i,
    {
        if people[i].group() >= groups.len() || !people[i].has_room_for(services) {
            return false;
        }
        i += 1;
    }
    true
}

/// Fills one slot, if anyone may fill it: the person that `choose_person`
/// picks is written down as assigned and the service is recorded in that
/// person's ledger and group at once, so that the next slot is ranked
/// against it. Returns the position of that person; `None`, with nothing
/// changed, where there is no candidate.
pub fn assign_slot(
    people: &mut Vec<PersonState>,
    groups: &mut Vec<GroupState>,
    assignments: &mut Vec<Assignment>,
    date: Date,
    place: &String,
    rules: &Rules,
    same_place_only: bool,
) -> (r: Option<usize>)
    requires
        grouped(old(people)@, old(groups)@),
        all_have_room_for(old(people)@, 1),
    ensures
        final(people)@.len() == old(people)@.len(),
        state_of(final(people)@, final(groups)@, final(assignments)@) == run::after_slot(
            state_of(old(people)@, old(groups)@, old(assignments)@),
            date,
            place@,
            rules.sort@,
            same_place_only,
        ),
        match r {
            Some(best) => {
                &&& first_best(
                    views(old(people)@),
                    old(groups)@,
                    date,
                    place@,
                    rules.sort@,
                    same_place_only,
                    old(people)@.len() as int,
                    best as int,
                )
                &&& final(people)@[best as int]@ == old(people)@[best as int]@.registered(
                    date,
                    place@,
                )
                &&& forall|k: int|
                    0 <= k < old(people)@.len() && k != best ==> final(people)@[k] == old(
                        people,
                    )@[k]
                &&& final(groups)@ == old(groups)@.update(
                    old(people)@[best as int]@.group,
                    GroupState { last_service: Some(date) },
                )
                &&& final(assignments)@.len() == old(assignments)@.len() + 1
                &&& final(assignments)@.drop_last() == old(assignments)@
                &&& final(assignments)@.last().date == date
                &&& final(assignments)@.last().place@ == place@
                &&& final(assignments)@.last().person@ == old(people)@[best as int]@.name
            },
            None => {
                &&& no_candidate(views(old(people)@), place@, same_place_only)
                &&& final(people)@ == old(people)@
                &&& final(groups)@ == old(groups)@
                &&& final(assignments)@ == old(assignments)@
            },
        },
{
    match choose_person(people, groups, date, place, rules, same_place_only) {
        Some(best) => {
            let person = people[best].name();
            assignments.push(Assignment { date, place: place.clone(), person });
            assert(assignments@.drop_last() =~= old(assignments)@);
            people[best].register_service(groups, date, place.clone());
            proof {
                let before = views(old(people)@);
                assert(before[best as int] == old(people)@[best as int]@);
                assert(views(people@) =~= before.update(
                    best as int,
                    before[best as int].registered(date, place@),
                ));
                assert(run::entries(assignments@) =~= run::entries(old(assignments)@).push(
                    (date, place@, before[best as int].name),
                ));
            }
            Some(best)
        },
        None => {
            assert(views(people@) =~= views(old(people)@));
            None
        },
    }
}

/// Calls `rand::seq::SliceRandom::shuffle` on the list, with the generator
/// that `rand::rng` hands out. The list comes back as a reordering of
/// itself; nothing is claimed of which one.
#[verifier::external_body]
fn shuffle_people(people: &mut Vec<PersonState>)
    ensures
        final(people)@.to_multiset() == old(people)@.to_multiset(),
{
    people.shuffle(&mut rand::rng());
}

/// Fills the slots of one date, place by place in the configured order,
/// with the people standing in the order in which they are handed in. Each
/// slot is ranked against the services that the slots before it recorded.
pub fn fill_date(
    people: &mut Vec<PersonState>,
    groups: &mut Vec<GroupState>,
    assignments: &mut Vec<Assignment>,
    date: Date,
    config: &Config,
)
    requires
        run_kept(views(old(people)@), old(groups)@, old(assignments)@, *config),
        !config.dates.excepts(date),
        old(assignments)@.len() + config.places.places@.len() <= person_state::count_limit(),
    ensures
        run_kept(views(final(people)@), final(groups)@, final(assignments)@, *config),
        final(people)@.len() == old(people)@.len(),
        slots_of(final(assignments)@) == slots_of(old(assignments)@) + date_slots(
            date,
            config.places.places@,
            roster(config.group@),
            config.rules.filters_same_place(),
            config.places.places@.len() as int,
        ),
        state_of(final(people)@, final(groups)@, final(assignments)@) == run::after_date(
            state_of(old(people)@, old(groups)@, old(assignments)@),
            date,
            *config,
        ),
{
    let same_place_only = config.rules.has_same_place_filter();
    let ghost configured = roster(config.group@);
    let ghost places = config.places.places@;
    let mut p: usize = 0;
    assert(slots_of(assignments@) =~= slots_of(old(assignments)@) + date_slots(
        date,
        places,
        configured,
        same_place_only,
        0,
    ));
    while p < config.places.places.len()
        invariant
            p <= places.len(),
            places == config.places.places@,
            configured == roster(config.group@),
            same_place_only == config.rules.filters_same_place(),
            !config.dates.excepts(date),
            run_kept(views(people@), groups@, assignments@, *config),
            people@.len() == old(people)@.len(),
            assignments@.len() <= old(assignments)@.len() + p,
            old(assignments)@.len() + places.len() <= person_state::count_limit(),
            slots_of(assignments@) == slots_of(old(assignments)@) + date_slots(
                date,
                places,
                configured,
                same_place_only,
                p as int,
            ),
            state_of(people@, groups@, assignments@) == run::after_places(
                state_of(old(people)@, old(groups)@, old(assignments)@),
                date,
                places,
                config.rules.sort@,
                same_place_only,
                p as int,
            ),
        decreases places.len() - p,
    {
        let place = &config.places.places[p];
        let ghost before = views(people@);
        let ghost groups_before = groups@;
        let ghost assigned = assignments@;
        proof {
            assert forall|i: int| 0 <= i < people@.len() implies (#[trigger] people@[i])@.within(
                person_state::count_limit() - 1,
            ) by {
                sums::lemma_sum_bounds_entry(before, by_total(), i);
                assert(before[i] == people@[i]@);
                assert(before[i].balanced());
            }
            assert forall|i: int| 0 <= i < people@.len() implies 0 <= (
            #[trigger] people@[i])@.group < groups@.len() by {
                assert(before[i] == people@[i]@);
            }
            lemma_staffed_as_configured(before, configured, place@, same_place_only);
        }
        match assign_slot(people, groups, assignments, date, place, &config.rules, same_place_only) {
            Some(best) => {
                proof {
                    let after = views(people@);
                    assert(after =~= before.update(
                        best as int,
                        before[best as int].registered(date, place@),
                    ));
                    lemma_service_keeps_run(
                        before,
                        after,
                        groups_before,
                        groups@,
                        assigned,
                        assignments@,
                        *config,
                        best as int,
                        date,
                        place@,
                    );
                    assert(slots_of(assignments@) =~= slots_of(assigned).push((date, place@)));
                }
            },
            None => {
                proof {
                    assert(views(people@) =~= before);
                }
            },
        }
        p += 1;
    }
}

/// Whether a run over these dates stays within what the ledgers can count:
/// there are no more slots than the largest count.
pub fn can_schedule(dates: &Vec<Date>, config: &Config) -> (r: bool)
    ensures
        r == (dates@.len() * config.places.places@.len() <= person_state::count_limit()),
{
    let rows: u128 = dates.len() as u128;
    let columns: u128 = config.places.places.len() as u128;
    assert(rows * columns <= 0xffff_ffff_ffff_ffff * 0xffff_ffff_ffff_ffff) by (nonlinear_arith)
        requires
            0 <= rows <= 0xffff_ffff_ffff_ffff,
            0 <= columns <= 0xffff_ffff_ffff_ffff,
    ;
    rows * columns <= person_state::count_limit_value() as u128
}

/// Assigns someone to every slot that anyone may fill: for each date that
/// is no exception, in the given order, the people are shuffled and the
/// places are filled one by one in the configured order. Returns the
/// assignments in the order in which they were made, the final ledgers in
/// their last order, and the final group states.
///
/// The outcome is the one that the shuffles lead to: there is an order of
/// the people for every date from which filling the slots one by one, each
/// with the first of its candidates with the smallest key, gives these
/// assignments, ledgers and groups. Whatever the shuffles were: the slots
/// that are filled and their order are fixed by the configuration alone,
/// every service is counted once in all three counts of exactly one ledger,
/// nobody serves on an exception, and everybody assigned was admitted to
/// the slot.
///
/// The ledgers count up to `count_limit()`, so the grid may have no more
/// slots than that; `can_schedule` tells.
pub fn create_schedule(dates: &Vec<Date>, config: &Config) -> (r: (
    Vec<Assignment>,
    Vec<PersonState>,
    Vec<GroupState>,
))
    requires
        dates@.len() * config.places.places@.len() <= person_state::count_limit(),
    ensures
        run_kept(views(r.1@), r.2@, r.0@, *config),
        slots_of(r.0@) == run_slots(dates@, *config, dates@.len() as int),
        sums::sum_of(views(r.1@), by_total()) == r.0@.len(),
        sums::sum_of(views(r.1@), by_weekday()) == r.0@.len(),
        sums::sum_of(views(r.1@), by_place()) == r.0@.len(),
        forall|k: int| 0 <= k < r.0@.len() ==> !config.dates.excepts((#[trigger] r.0@[k]).date),
        all_served(r.0@, views(r.1@), config.rules.filters_same_place()),
        run::is_outcome(dates@, *config, state_of(r.1@, r.2@, r.0@)),
{
    let (mut people, mut groups) = create_people(config);
    let mut assignments: Vec<Assignment> = Vec::new();
    let ghost width = config.places.places@.len();
    let ghost mut orders: Seq<Seq<PersonView>> = Seq::empty();
    proof {
        assert(groups@ =~= Seq::new(
            config.group@.len(),
            |g: int| GroupState { last_service: None },
        ));
        assert(run::entries(assignments@) =~= Seq::empty());
    }
    proof {
        lemma_run_kept_at_start(*config, groups@);
    }
    let mut d: usize = 0;
    while d < dates.len()
        invariant
            d <= dates@.len(),
            width == config.places.places@.len(),
            dates@.len() * width <= person_state::count_limit(),
            run_kept(views(people@), groups@, assignments@, *config),
            assignments@.len() <= d * width,
            slots_of(assignments@) == run_slots(dates@, *config, d as int),
            orders.len() == d,
            run::orders_fit(dates@, *config, orders, d as int),
            state_of(people@, groups@, assignments@) == run::run_after(
                dates@,
                *config,
                orders,
                d as int,
            ),
        decreases dates@.len() - d,
    {
        let date = dates[d];
        let ghost earlier = orders;
        let ghost groups_before = groups@;
        let ghost assigned_before = assignments@;
        let ghost mut shuffled = people@;
        if !config.dates.is_exception(date) {
            let ghost before = people@;
            shuffle_people(&mut people);
            proof {
                shuffled = people@;
                orders = earlier.push(views(people@));
                sums::lemma_map_reordered(before, people@, |p: PersonState| p@);
                lemma_reordering_keeps_run(before, people@, groups@, assignments@, *config);
                assert((d + 1) * width <= dates@.len() * width) by (nonlinear_arith)
                    requires
                        d + 1 <= dates@.len(),
                        0 <= width,
                ;
                assert((d + 1) * width == d * width + width) by (nonlinear_arith);
                lemma_date_slots_len(
                    date,
                    config.places.places@,
                    roster(config.group@),
                    config.rules.filters_same_place(),
                    width as int,
                );
            }
            let ghost slots_before = slots_of(assignments@);
            fill_date(&mut people, &mut groups, &mut assignments, date, config);
            proof {
                assert(slots_of(assignments@).len() == assignments@.len());
                assert(slots_before.len() <= d * width);
            }
        } else {
            proof {
                orders = earlier.push(views(people@));
            }
            assert((d + 1) * width >= d * width) by (nonlinear_arith)
                requires
                    0 <= width,
            ;
        }
        proof {
            assert forall|k: int| 0 <= k <= d implies run::run_after(dates@, *config, earlier, k)
                == #[trigger] run::run_after(dates@, *config, orders, k) by {
                run::lemma_run_after_prefix(dates@, *config, earlier, orders, k);
            }
            let before_date = run::run_after(dates@, *config, orders, d as int);
            assert(before_date == run::run_after(dates@, *config, earlier, d as int));
            assert(orders[d as int] == views(shuffled));
            if !config.dates.excepts(dates@[d as int]) {
                assert(state_of(shuffled, groups_before, assigned_before) == (run::Run {
                    people: orders[d as int],
                    ..before_date
                }));
            }
            assert(state_of(people@, groups@, assignments@) == run::run_after(
                dates@,
                *config,
                orders,
                d + 1,
            ));
            assert forall|k: int|
                0 <= k < d + 1 && !config.dates.excepts(dates@[k]) implies (
            #[trigger] orders[k]).to_multiset() == run::run_after(
                dates@,
                *config,
                orders,
                k,
            ).people.to_multiset() by {
                if k < d {
                    assert(orders[k] == earlier[k]);
                }
            }
        }
        d += 1;
    }
    proof {
        let last = views(people@);
        assert forall|i: int| 0 <= i < last.len() implies by_total()(#[trigger] last[i])
            == by_weekday()(last[i]) && by_total()(last[i]) == by_place()(last[i]) by {
            assert(last[i].balanced());
        }
        sums::lemma_sum_agree(last, by_total(), by_weekday());
        sums::lemma_sum_agree(last, by_total(), by_place());
    }
    (assignments, people, groups)
}

} // verus!

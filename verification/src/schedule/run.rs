//! A run of the engine as mathematics: what the slots, the dates and the
//! shuffles make of the ledgers, the groups and the list of assignments.

use vstd::prelude::*;
use crate::config::{Config, Rule};
use crate::date::Date;
use crate::schedule::person_state::{GroupState, PersonView};
use crate::schedule::{Assignment, first_best, is_candidate, no_candidate, roster};

verus! {

/// The state of a run: the ledgers in their present order, the group
/// states, and the slots filled so far, each with its date, its place and
/// the name of the person.
pub struct Run {
    pub people: Seq<PersonView>,
    pub groups: Seq<GroupState>,
    pub filled: Seq<(Date, Seq<char>, Seq<char>)>,
}

/// The date, the place and the person of each assignment.
pub open spec fn entries(assignments: Seq<Assignment>) -> Seq<(Date, Seq<char>, Seq<char>)> {
    assignments.map_values(|a: Assignment| (a.date, a.place@, a.person@))
}

/// The position of the person who is chosen for a slot: the first of the
/// candidates with the smallest key; `None` where there is no candidate.
pub open spec fn choice(
    people: Seq<PersonView>,
    groups: Seq<GroupState>,
    date: Date,
    place: Seq<char>,
    rules: Seq<Rule>,
    same_place_only: bool,
) -> Option<int> {
    if exists|best: int|
        first_best(people, groups, date, place, rules, same_place_only, people.len() as int, best) {
        Some(
            choose|best: int|
                first_best(
                    people,
                    groups,
                    date,
                    place,
                    rules,
                    same_place_only,
                    people.len() as int,
                    best,
                ),
        )
    } else {
        None
    }
}

/// Only one position is the first of the candidates with the smallest key.
pub proof fn lemma_first_best_is_choice(
    people: Seq<PersonView>,
    groups: Seq<GroupState>,
    date: Date,
    place: Seq<char>,
    rules: Seq<Rule>,
    same_place_only: bool,
    best: int,
)
    requires
        first_best(people, groups, date, place, rules, same_place_only, people.len() as int, best),
    ensures
        choice(people, groups, date, place, rules, same_place_only) == Some(best),
{
    let other = choose|other: int|
        first_best(people, groups, date, place, rules, same_place_only, people.len() as int, other);
    if other < best {
        assert(is_candidate(people[other], place, same_place_only));
    } else if best < other {
        assert(is_candidate(people[best], place, same_place_only));
    }
}

/// Where nobody is a candidate, nobody is chosen.
pub proof fn lemma_no_candidate_no_choice(
    people: Seq<PersonView>,
    groups: Seq<GroupState>,
    date: Date,
    place: Seq<char>,
    rules: Seq<Rule>,
    same_place_only: bool,
)
    requires
        no_candidate(people, place, same_place_only),
    ensures
        choice(people, groups, date, place, rules, same_place_only).is_none(),
{
    assert forall|best: int|
        !first_best(
            people,
            groups,
            date,
            place,
            rules,
            same_place_only,
            people.len() as int,
            best,
        ) by {
        if 0 <= best < people.len() {
            assert(!is_candidate(people[best], place, same_place_only));
        }
    }
}

/// The run after one slot: the chosen person is written down and the
/// service is recorded in that person's ledger and group; where nobody is
/// chosen, the run stays as it is.
pub open spec fn after_slot(
    run: Run,
    date: Date,
    place: Seq<char>,
    rules: Seq<Rule>,
    same_place_only: bool,
) -> Run {
    match choice(run.people, run.groups, date, place, rules, same_place_only) {
        Some(best) => Run {
            people: run.people.update(best, run.people[best].registered(date, place)),
            groups: run.groups.update(
                run.people[best].group,
                GroupState { last_service: Some(date) },
            ),
            filled: run.filled.push((date, place, run.people[best].name)),
        },
        None => run,
    }
}

/// The run after the first `n` places of one date, each filled in turn.
pub open spec fn after_places(
    run: Run,
    date: Date,
    places: Seq<String>,
    rules: Seq<Rule>,
    same_place_only: bool,
    n: int,
) -> Run
    decreases n,
{
    if n <= 0 {
        run
    } else {
        after_slot(
            after_places(run, date, places, rules, same_place_only, n - 1),
            date,
            places[n - 1]@,
            rules,
            same_place_only,
        )
    }
}

/// The run after one date: all places filled in turn, in the configured
/// order.
pub open spec fn after_date(run: Run, date: Date, config: Config) -> Run {
    after_places(
        run,
        date,
        config.places.places@,
        config.rules.sort@,
        config.rules.filters_same_place(),
        config.places.places@.len() as int,
    )
}

/// The run before its first date: the fresh ledgers of the configured
/// members, untouched groups and no assignment.
pub open spec fn start(config: Config) -> Run {
    Run {
        people: roster(config.group@),
        groups: Seq::new(config.group@.len(), |g: int| GroupState { last_service: None }),
        filled: Seq::empty(),
    }
}

/// The run after the first `n` dates, where `orders[k]` is the order into
/// which the people were shuffled for date `k`. A date that is an exception
/// leaves the run as it is.
pub open spec fn run_after(
    dates: Seq<Date>,
    config: Config,
    orders: Seq<Seq<PersonView>>,
    n: int,
) -> Run
    decreases n,
{
    if n <= 0 {
        start(config)
    } else {
        let earlier = run_after(dates, config, orders, n - 1);
        if config.dates.excepts(dates[n - 1]) {
            earlier
        } else {
            after_date(Run { people: orders[n - 1], ..earlier }, dates[n - 1], config)
        }
    }
}

/// Every order of the first `n` is a reordering of the people as the run
/// had them before that date.
pub open spec fn orders_fit(
    dates: Seq<Date>,
    config: Config,
    orders: Seq<Seq<PersonView>>,
    n: int,
) -> bool {
    forall|k: int|
        0 <= k < n && !config.dates.excepts(dates[k]) ==> (#[trigger] orders[k]).to_multiset()
            == run_after(dates, config, orders, k).people.to_multiset()
}

/// The outcome is one that the engine can reach on these dates: there are
/// shuffles, one for every date, that lead to it.
pub open spec fn is_outcome(dates: Seq<Date>, config: Config, outcome: Run) -> bool {
    exists|orders: Seq<Seq<PersonView>>|
        orders.len() == dates.len() && orders_fit(dates, config, orders, dates.len() as int)
            && outcome == #[trigger] run_after(dates, config, orders, dates.len() as int)
}

/// The run after the first `n` dates does not depend on the shuffles of
/// later dates.
pub proof fn lemma_run_after_prefix(
    dates: Seq<Date>,
    config: Config,
    orders: Seq<Seq<PersonView>>,
    more: Seq<Seq<PersonView>>,
    n: int,
)
    requires
        0 <= n <= orders.len(),
        orders.len() <= more.len(),
        forall|k: int| 0 <= k < orders.len() ==> orders[k] == more[k],
    ensures
        run_after(dates, config, orders, n) == run_after(dates, config, more, n),
    decreases n,
{
    if n > 0 {
        lemma_run_after_prefix(dates, config, orders, more, n - 1);
    }
}

} // verus!

//! What holds of ledgers and rank keys whatever the run.

use vstd::prelude::*;
use crate::config::Rule;
use crate::date::Date;
use crate::schedule::person_state::{GroupState, PersonView, home_slot_key};
use crate::schedule::rank::{key_less, lemma_key_less_single};

verus! {

/// Taking back the service that was recorded last restores the total, the
/// counts by weekday and by place and the count of services away from home
/// to what they were before it. The day of the last service is not
/// restored: it is forgotten.
pub proof fn lemma_unregister_undoes_register(person: PersonView, date: Date, place: Seq<char>)
    ensures
        ({
            let back = person.registered(date, place).unregistered(date, place);
            &&& back.total_services == person.total_services
            &&& back.weekdays == person.weekdays
            &&& back.places == person.places
            &&& back.different_place_services == person.different_place_services
            &&& back.last_service is None
            &&& back.name == person.name
            &&& back.place == person.place
            &&& back.group == person.group
        }),
{
    broadcast use vstd::multiset::group_multiset_axioms;
    let back = person.registered(date, place).unregistered(date, place);
    assert(back.weekdays =~= person.weekdays);
    assert(back.places =~= person.places);
}

/// Recording a service keeps a balanced ledger balanced, and so does
/// taking back a service of which the weekday and the place are on record,
/// provided that a service at home is on record where one is taken back.
pub proof fn lemma_balance_kept(person: PersonView, date: Date, place: Seq<char>)
    requires
        person.balanced(),
    ensures
        person.registered(date, place).balanced(),
        person.weekdays.count(date.day_of_week()) > 0 && person.places.count(place) > 0 && (place
            == person.place ==> person.different_place_services < person.total_services)
            ==> person.unregistered(date, place).balanced(),
{
    broadcast use vstd::multiset::group_multiset_axioms;
    broadcast use vstd::multiset::lemma_insert_len;
    if person.weekdays.count(date.day_of_week()) > 0 && person.places.count(place) > 0 {
        let day = vstd::multiset::Multiset::singleton(date.day_of_week());
        let spot = vstd::multiset::Multiset::singleton(place);
        assert(day.subset_of(person.weekdays)) by {
            assert forall|w: crate::date::Weekday| day.count(w) <= person.weekdays.count(w) by {
                if w != date.day_of_week() {
                    assert(day.count(w) == 0);
                }
            }
        }
        assert(spot.subset_of(person.places)) by {
            assert forall|q: Seq<char>| spot.count(q) <= person.places.count(q) by {
                if q != place {
                    assert(spot.count(q) == 0);
                }
            }
        }
        assert(person.weekdays.len() > 0) by {
            vstd::multiset::axiom_count_le_len(person.weekdays, date.day_of_week());
        }
    }
}

/// With the rule on services away from home as the only rule, a person
/// whose home place is the slot's place ranks before everyone whose home
/// place is another, whatever the two have served.
pub proof fn lemma_own_place_dominates(
    home: PersonView,
    other: PersonView,
    groups: Seq<GroupState>,
    date: Date,
    place: Seq<char>,
)
    requires
        home.place == place,
        other.place != place,
        home.different_place_services <= i64::MAX,
    ensures
        key_less(
            home.sort_key(
                groups[home.group].last_service,
                date,
                place,
                seq![Rule::SortByDifferentPlaceServices],
            ),
            other.sort_key(
                groups[other.group].last_service,
                date,
                place,
                seq![Rule::SortByDifferentPlaceServices],
            ),
        ),
{
    let rules = seq![Rule::SortByDifferentPlaceServices];
    let a = home.sort_key(groups[home.group].last_service, date, place, rules);
    let b = other.sort_key(groups[other.group].last_service, date, place, rules);
    let x = home_slot_key(home.different_place_services);
    let y = other.different_place_services as int;
    assert(a =~= seq![x]);
    assert(b =~= seq![y]);
    lemma_home_slot_key_negative(home.different_place_services);
    lemma_key_less_single(x, y);
}

/// The key for a slot at home is negative, and not below the smallest
/// 64-bit integer.
pub proof fn lemma_home_slot_key_negative(different_place_services: nat)
    requires
        different_place_services <= i64::MAX,
    ensures
        i64::MIN <= home_slot_key(different_place_services) < 0,
{
    let n = different_place_services as int;
    if n >= 2 {
        assert(1 <= 0x8000_0000_0000_0000int / n <= 0x8000_0000_0000_0000int)
            by (nonlinear_arith)
            requires
                2 <= n <= 0x7fff_ffff_ffff_ffff,
        ;
    }
}

/// The rule on the last service sees weeks, not days: two people whose last
/// services lie seven days or more apart get different contributions, the
/// earlier service the smaller one; two whose last services lie in one
/// stretch of seven days that starts on a day number divisible by seven get
/// the same.
pub proof fn lemma_last_service_by_week(
    first: PersonView,
    second: PersonView,
    earlier: Date,
    later: Date,
    date: Date,
    place: Seq<char>,
)
    requires
        first.last_service == Some(earlier),
        second.last_service == Some(later),
        earlier.day_number() <= later.day_number(),
    ensures
        later.day_number() - earlier.day_number() >= 7 ==> first.rule_key(
            None,
            date,
            place,
            Rule::SortByLastService,
        ) < second.rule_key(None, date, place, Rule::SortByLastService),
        earlier.day_number() % 7 + (later.day_number() - earlier.day_number()) < 7
            ==> first.rule_key(None, date, place, Rule::SortByLastService) == second.rule_key(
            None,
            date,
            place,
            Rule::SortByLastService,
        ),
        first.rule_key(None, date, place, Rule::SortByLastService) <= second.rule_key(
            None,
            date,
            place,
            Rule::SortByLastService,
        ),
{
}

/// What the rule on the group's last service contributes for a person is
/// the day number of the last service that anyone recorded in that
/// person's group, also where the person has never served.
pub proof fn lemma_group_service_is_shared(
    server: PersonView,
    mate: PersonView,
    groups: Seq<GroupState>,
    served: Date,
    served_at: Seq<char>,
    date: Date,
    place: Seq<char>,
)
    requires
        0 <= server.group < groups.len(),
        mate.group == server.group,
    ensures
        ({
            let after = groups.update(server.group, GroupState { last_service: Some(served) });
            mate.sort_key(
                after[mate.group].last_service,
                date,
                place,
                seq![Rule::SortByMaxDistanceInGroup],
            ) == seq![served.day_number()]
        }),
{
    let after = groups.update(server.group, GroupState { last_service: Some(served) });
    assert(mate.sort_key(
        after[mate.group].last_service,
        date,
        place,
        seq![Rule::SortByMaxDistanceInGroup],
    ) =~= seq![served.day_number()]);
}

} // verus!

//! The fairness ledger of one person, the state its group shares, and the
//! rank key that the rules make of both.

use vstd::prelude::*;
use vstd::multiset::Multiset;
use crate::config::{Rule, Rules};
use crate::date::{Date, Weekday};
use crate::schedule::rank::key_values;
use crate::text::str_equal;
use crate::schedule::ledger::{
    PlaceCount, count_place, lemma_place_bag_alike, lemma_place_bag_count, lemma_tally_absent, lemma_tally_present,
    lemma_weekday_bag_count, lower_day, lower_place, place_bag, places_within, raise_day,
    raise_place, tidy, weekday_bag, weekdays_within,
};

verus! {

/// What the members of one group share: the day on which any of them last
/// served.
#[derive(Clone, Copy, Debug)]
pub struct GroupState {
    pub last_service: Option<Date>,
}

impl Default for GroupState {
    fn default() -> (r: Self)
        ensures
            r.last_service.is_none(),
    {
        GroupState { last_service: None }
    }
}

/// The key of a rule for someone who has no history under it: below every
/// key that a history gives.
pub open spec fn never_served_key() -> int {
    i64::MIN as int
}

/// The key of the rule on services away from home for a slot at the person's
/// own place: the smallest 64-bit integer divided by the number of such
/// services (by one where there are none), rounded toward zero.
pub open spec fn home_slot_key(different_place_services: nat) -> int {
    if different_place_services <= 1 {
        i64::MIN as int
    } else {
        -(0x8000_0000_0000_0000int / (different_place_services as int))
    }
}

/// The largest count that a ledger holds: it fits a machine word and a
/// 64-bit key.
pub open spec fn count_limit() -> int {
    if (usize::MAX as int) < (i64::MAX as int) {
        usize::MAX as int
    } else {
        i64::MAX as int
    }
}

/// The largest count that a ledger holds.
pub fn count_limit_value() -> (r: u64)
    ensures
        r == count_limit(),
        r >= 0xffff,
{
    if (usize::MAX as u128) < (i64::MAX as u128) {
        usize::MAX as u64
    } else {
        0x7fff_ffff_ffff_ffff
    }
}

/// The ledger of one person as mathematics.
pub struct PersonView {
    pub name: Seq<char>,
    /// The home place.
    pub place: Seq<char>,
    /// Position of the person's group in the list of group states.
    pub group: int,
    pub total_services: nat,
    pub last_service: Option<Date>,
    /// One weekday for every service counted by weekday.
    pub weekdays: Multiset<Weekday>,
    /// One place for every service counted by place.
    pub places: Multiset<Seq<char>>,
    /// Services at a place other than the home place.
    pub different_place_services: nat,
}

impl PersonView {
    /// The ledger of someone who has not served yet.
    pub open spec fn fresh(name: Seq<char>, place: Seq<char>, group: int) -> PersonView {
        PersonView {
            name,
            place,
            group,
            total_services: 0,
            last_service: None,
            weekdays: Multiset::empty(),
            places: Multiset::empty(),
            different_place_services: 0,
        }
    }

    /// The ledger after one more service on `date` at `place`.
    pub open spec fn registered(self, date: Date, place: Seq<char>) -> PersonView {
        PersonView {
            total_services: self.total_services + 1,
            last_service: Some(date),
            weekdays: self.weekdays.insert(date.day_of_week()),
            places: self.places.insert(place),
            different_place_services: if place != self.place {
                self.different_place_services + 1
            } else {
                self.different_place_services
            },
            ..self
        }
    }

    /// The ledger after a service on `date` at `place` is taken back: every
    /// count goes down by one unless it is zero already, and the last
    /// service is forgotten if it was on `date`.
    pub open spec fn unregistered(self, date: Date, place: Seq<char>) -> PersonView {
        PersonView {
            total_services: if self.total_services > 0 {
                (self.total_services - 1) as nat
            } else {
                0
            },
            last_service: if self.last_service == Some(date) {
                None
            } else {
                self.last_service
            },
            weekdays: self.weekdays.remove(date.day_of_week()),
            places: self.places.remove(place),
            different_place_services: if place != self.place && self.different_place_services > 0 {
                (self.different_place_services - 1) as nat
            } else {
                self.different_place_services
            },
            ..self
        }
    }

    /// Every service is counted once by weekday and once by place, and the
    /// services away from home are among them.
    pub open spec fn balanced(self) -> bool {
        &&& self.weekdays.len() == self.total_services
        &&& self.places.len() == self.total_services
        &&& self.different_place_services <= self.total_services
    }

    /// No count of the ledger is above `limit`.
    pub open spec fn within(self, limit: int) -> bool {
        &&& self.total_services <= limit
        &&& self.different_place_services <= limit
        &&& self.weekdays.len() <= limit
        &&& self.places.len() <= limit
    }

    /// What one rule contributes to the rank key for a slot on `date` at
    /// `place`, the person's group having last served on `group_last`.
    /// Smaller is more eligible.
    pub open spec fn rule_key(
        self,
        group_last: Option<Date>,
        date: Date,
        place: Seq<char>,
        rule: Rule,
    ) -> int {
        match rule {
            Rule::SortByLeastServices => self.total_services as int,
            Rule::SortByOwnPlace => if self.place == place {
                0
            } else {
                1
            },
            Rule::SortByDifferentPlaceServices => if self.place != place {
                self.different_place_services as int
            } else {
                home_slot_key(self.different_place_services)
            },
            Rule::SortByLastService => match self.last_service {
                Some(day) => day.week_number(),
                None => never_served_key(),
            },
            Rule::SortByLessServicesAtSameWeekday => self.weekdays.count(date.day_of_week()) as int,
            Rule::SortByMaxDistanceInGroup => match group_last {
                Some(day) => day.day_number(),
                None => never_served_key(),
            },
            Rule::FilterSamePlace => 0,
        }
    }

    /// The rank key: one contribution per rule, in the rules' order.
    pub open spec fn sort_key(
        self,
        group_last: Option<Date>,
        date: Date,
        place: Seq<char>,
        rules: Seq<Rule>,
    ) -> Seq<int> {
        Seq::new(rules.len(), |i: int| self.rule_key(group_last, date, place, rules[i]))
    }
}

/// Taking a service back raises no count of a ledger.
pub proof fn lemma_unregistered_within(person: PersonView, date: Date, place: Seq<char>, limit: int)
    requires
        person.within(limit),
    ensures
        person.unregistered(date, place).within(limit),
{
    broadcast use vstd::multiset::group_multiset_axioms;
    let day = date.day_of_week();
    if person.weekdays.count(day) > 0 {
        let one = vstd::multiset::Multiset::singleton(day);
        assert(one.subset_of(person.weekdays)) by {
            assert forall|w: crate::date::Weekday| one.count(w) <= person.weekdays.count(w) by {
                if w != day {
                    assert(one.count(w) == 0);
                }
            }
        }
    } else {
        assert(person.weekdays.remove(day) =~= person.weekdays);
    }
    if person.places.count(place) > 0 {
        let one = vstd::multiset::Multiset::singleton(place);
        assert(one.subset_of(person.places)) by {
            assert forall|q: Seq<char>| one.count(q) <= person.places.count(q) by {
                if q != place {
                    assert(one.count(q) == 0);
                }
            }
        }
    } else {
        assert(person.places.remove(place) =~= person.places);
    }
}

/// Recording a service raises every count of a ledger by one at most.
pub proof fn lemma_registered_within(person: PersonView, date: Date, place: Seq<char>, limit: int)
    requires
        person.within(limit),
    ensures
        person.registered(date, place).within(limit + 1),
{
    broadcast use vstd::multiset::lemma_insert_len;
}

/// The fairness ledger of one person.
#[derive(Debug)]
pub struct PersonState {
    name: String,
    place: String,
    total_services: usize,
    last_service: Option<Date>,
    weekday_counts: [usize; 7],
    place_counts: Vec<PlaceCount>,
    group: usize,
    different_place_services: usize,
}

impl View for PersonState {
    type V = PersonView;

    closed spec fn view(&self) -> PersonView {
        PersonView {
            name: self.name@,
            place: self.place@,
            group: self.group as int,
            total_services: self.total_services as nat,
            last_service: self.last_service,
            weekdays: weekday_bag(self.weekday_counts@),
            places: place_bag(self.place_counts@),
            different_place_services: self.different_place_services as nat,
        }
    }
}

impl Clone for PersonState {
    /// A copy with the same ledger, in the same group.
    fn clone(&self) -> (r: Self)
        ensures
            r@ == self@,
    {
        proof {
            use_type_invariant(self);
        }
        let mut entries: Vec<PlaceCount> = Vec::new();
        let mut k: usize = 0;
        while k < self.place_counts.len()
            invariant
                k <= self.place_counts@.len(),
                entries@.len() == k,
                forall|i: int|
                    0 <= i < k ==> (#[trigger] entries@[i]).place@ == self.place_counts@[i].place@
                        && entries@[i].count == self.place_counts@[i].count,
            decreases self.place_counts@.len() - k,
        {
            entries.push(
                PlaceCount {
                    place: self.place_counts[k].place.clone(),
                    count: self.place_counts[k].count,
                },
            );
            k += 1;
        }
        proof {
            lemma_place_bag_alike(entries@, self.place_counts@);
        }
        PersonState {
            name: self.name.clone(),
            place: self.place.clone(),
            total_services: self.total_services,
            last_service: self.last_service,
            weekday_counts: self.weekday_counts,
            place_counts: entries,
            group: self.group,
            different_place_services: self.different_place_services,
        }
    }
}

impl PersonState {
    #[verifier::type_invariant]
    spec fn well_kept(self) -> bool {
        &&& tidy(self.place_counts@)
        &&& self.total_services <= i64::MAX
        &&& self.different_place_services <= i64::MAX
        &&& forall|i: int| 0 <= i < 7 ==> (#[trigger] self.weekday_counts@[i]) <= i64::MAX
    }

    /// The ledger of someone who has not served yet, with the home place
    /// and the position of the group's state in the list of group states.
    pub fn new(name: String, place: String, group: usize) -> (r: Self)
        ensures
            r@ == PersonView::fresh(name@, place@, group as int),
    {
        let r = PersonState {
            name,
            place,
            total_services: 0,
            last_service: None,
            weekday_counts: [0, 0, 0, 0, 0, 0, 0],
            place_counts: Vec::new(),
            group,
            different_place_services: 0,
        };
        proof {
            broadcast use vstd::multiset::group_multiset_axioms;
            assert forall|day: Weekday| weekday_bag(r.weekday_counts@).count(day) == 0 by {
                lemma_weekday_bag_count(r.weekday_counts@, day);
            }
            assert(r@.weekdays =~= Multiset::empty());
            assert(r@.places =~= Multiset::empty());
        }
        r
    }

    /// Records a service on `date` at `place`: every count that the service
    /// falls under goes up by one, the person's last service is `date`, and
    /// so is the group's, whatever it was before.
    ///
    /// The ledger must have room for the service; `has_room_for` tells.
    pub fn register_service(&mut self, groups: &mut Vec<GroupState>, date: Date, place: String)
        requires
            old(self)@.group < old(groups)@.len(),
            old(self)@.within(count_limit() - 1),
        ensures
            final(self)@ == old(self)@.registered(date, place@),
            final(groups)@ == old(groups)@.update(
                old(self)@.group,
                GroupState { last_service: Some(date) },
            ),
    {
        proof {
            use_type_invariant(&*self);
            broadcast use vstd::multiset::axiom_count_le_len;
        }
        let day = date.weekday();
        self.total_services += 1;
        self.last_service = Some(date);
        self.weekday_counts = raise_day(self.weekday_counts, day);
        if place != self.place {
            self.different_place_services += 1;
        }
        let mut entries: Vec<PlaceCount> = Vec::new();
        core::mem::swap(&mut self.place_counts, &mut entries);
        raise_place(&mut entries, place);
        self.place_counts = entries;
        groups[self.group] = GroupState { last_service: Some(date) };
    }

    /// Takes back a service on `date` at `place`: every count that the
    /// service falls under goes down by one unless it is zero already, and
    /// the last service is forgotten if it was on `date`. The group's state
    /// stays as it is.
    pub fn unregister_service(&mut self, date: Date, place: String)
        ensures
            final(self)@ == old(self)@.unregistered(date, place@),
    {
        proof {
            use_type_invariant(&*self);
        }
        let day = date.weekday();
        if self.total_services > 0 {
            self.total_services -= 1;
        }
        self.weekday_counts = lower_day(self.weekday_counts, day);
        if place != self.place && self.different_place_services > 0 {
            self.different_place_services -= 1;
        }
        let mut entries: Vec<PlaceCount> = Vec::new();
        core::mem::swap(&mut self.place_counts, &mut entries);
        lower_place(&mut entries, place);
        self.place_counts = entries;
        let forget = match self.last_service {
            Some(last) => last == date,
            None => false,
        };
        if forget {
            self.last_service = None;
        }
    }

    /// What one rule contributes to the rank key.
    fn rule_key(&self, group_last: Option<Date>, date: Date, place_id: &str, rule: Rule) -> (key:
        i64)
        ensures
            key as int == self@.rule_key(group_last, date, place_id@, rule),
    {
        proof {
            use_type_invariant(self);
        }
        let at_home = str_equal(self.place.as_str(), place_id);
        match rule {
            Rule::SortByLeastServices => {
                let key: i64 = self.total_services as i64;
                key
            },
            Rule::SortByOwnPlace => {
                let key: i64 = if at_home { 0 } else { 1 };
                key
            },
            Rule::SortByDifferentPlaceServices => {
                let key: i64 = if !at_home {
                    self.different_place_services as i64
                } else {
                    home_key(self.different_place_services)
                };
                key
            },
            Rule::SortByLastService => {
                let key: i64 = match self.last_service {
                    Some(day) => day.week() as i64,
                    None => i64::MIN,
                };
                key
            },
            Rule::SortByLessServicesAtSameWeekday => {
                let day = date.weekday();
                proof {
                    lemma_weekday_bag_count(self.weekday_counts@, day);
                }
                let key: i64 = self.weekday_counts[day.num_days_from_monday()] as i64;
                key
            },
            Rule::SortByMaxDistanceInGroup => {
                let key: i64 = match group_last {
                    Some(day) => day.num_days_from_ce() as i64,
                    None => i64::MIN,
                };
                key
            },
            Rule::FilterSamePlace => 0,
        }
    }

    /// The rank key for a slot on `date` at `place_id`: one integer per
    /// sorting rule, in the rules' order. Keys are compared from the front,
    /// and the smaller key is the more eligible.
    pub fn sort_key(&self, groups: &Vec<GroupState>, date: Date, place_id: &str, rules: &Rules) -> (key:
        Vec<i64>)
        requires
            self@.group < groups@.len(),
        ensures
            key_values(key@) == self@.sort_key(
                groups@[self@.group].last_service,
                date,
                place_id@,
                rules.sort@,
            ),
            key@.len() == rules.sort@.len(),
            forall|i: int|
                0 <= i < key@.len() ==> (#[trigger] key@[i]) as int == self@.rule_key(
                    groups@[self@.group].last_service,
                    date,
                    place_id@,
                    rules.sort@[i],
                ),
    {
        let group_last = groups[self.group].last_service;
        let mut key: Vec<i64> = Vec::new();
        let mut i: usize = 0;
        while i < rules.sort.len()
            invariant
                i <= rules.sort@.len(),
                key@.len() == i,
                forall|k: int|
                    0 <= k < i ==> (#[trigger] key@[k]) as int == self@.rule_key(
                        group_last,
                        date,
                        place_id@,
                        rules.sort@[k],
                    ),
            decreases rules.sort@.len() - i,
        {
            key.push(self.rule_key(group_last, date, place_id, rules.sort[i]));
            i += 1;
        }
        assert(key_values(key@) =~= self@.sort_key(group_last, date, place_id@, rules.sort@));
        key
    }

    /// Whether every count of the ledger leaves room for so many more
    /// services.
    pub fn has_room_for(&self, services: u8) -> (r: bool)
        ensures
            r == self@.within(count_limit() - services),
    {
        let cap: u64 = count_limit_value() - services as u64;
        self.total_services as u128 <= cap as u128 && self.different_place_services as u128
            <= cap as u128 && weekdays_within(&self.weekday_counts, cap) && places_within(
            &self.place_counts,
            cap,
        )
    }

    /// How many services are recorded.
    pub fn total_services(&self) -> (r: usize)
        ensures
            r == self@.total_services,
    {
        self.total_services
    }

    /// How many services were at a place other than the home place.
    pub fn different_place_services(&self) -> (r: usize)
        ensures
            r == self@.different_place_services,
    {
        self.different_place_services
    }

    /// The person's name.
    pub fn name(&self) -> (r: String)
        ensures
            r@ == self@.name,
    {
        self.name.clone()
    }

    /// The person's home place.
    pub fn place(&self) -> (r: String)
        ensures
            r@ == self@.place,
    {
        self.place.clone()
    }

    /// Position of the person's group in the list of group states.
    pub fn group(&self) -> (r: usize)
        ensures
            r == self@.group,
    {
        self.group
    }

    /// The day of the last recorded service.
    pub fn last_service(&self) -> (r: Option<Date>)
        ensures
            r == self@.last_service,
    {
        self.last_service
    }

    /// How many services are recorded on a weekday.
    pub fn weekday_count(&self, day: Weekday) -> (r: usize)
        ensures
            r == self@.weekdays.count(day),
    {
        proof {
            lemma_weekday_bag_count(self.weekday_counts@, day);
        }
        self.weekday_counts[day.num_days_from_monday()]
    }

    /// How many services are recorded at a place.
    pub fn place_count(&self, place: &String) -> (r: usize)
        ensures
            r == self@.places.count(place@),
    {
        proof {
            use_type_invariant(self);
        }
        count_place(&self.place_counts, place)
    }

    /// The weekdays with at least one service, Monday first, each with its
    /// count.
    pub fn weekday_counts(&self) -> (r: Vec<(Weekday, usize)>)
        ensures
            forall|i: int|
                0 <= i < r@.len() ==> (#[trigger] r@[i]).1 > 0 && r@[i].1 == self@.weekdays.count(
                    r@[i].0,
                ),
            forall|i: int, j: int|
                0 <= i < j < r@.len() ==> (#[trigger] r@[i]).0.index() < (#[trigger] r@[j]).0.index(),
            forall|day: Weekday|
                self@.weekdays.count(day) > 0 ==> exists|i: int|
                    0 <= i < r@.len() && (#[trigger] r@[i]).0 == day,
    {
        let mut r: Vec<(Weekday, usize)> = Vec::new();
        let mut d: usize = 0;
        while d < 7
            invariant
                d <= 7,
                forall|i: int|
                    0 <= i < r@.len() ==> (#[trigger] r@[i]).1 > 0 && r@[i].1
                        == self@.weekdays.count(r@[i].0) && r@[i].0.index() < d,
                forall|i: int, j: int|
                    0 <= i < j < r@.len() ==> (#[trigger] r@[i]).0.index() < (
                    #[trigger] r@[j]).0.index(),
                forall|day: Weekday|
                    day.index() < d && self@.weekdays.count(day) > 0 ==> exists|i: int|
                        0 <= i < r@.len() && (#[trigger] r@[i]).0 == day,
            decreases 7 - d,
        {
            let day = Weekday::from_index(d);
            let n = self.weekday_count(day);
            if n > 0 {
                let ghost before = r@;
                r.push((day, n));
                assert(r@[before.len() as int].0 == day);
                assert forall|other: Weekday|
                    other.index() < d + 1 && self@.weekdays.count(other) > 0 implies exists|
                    i: int,
                |
                    0 <= i < r@.len() && (#[trigger] r@[i]).0 == other by {
                    if other.index() < d {
                        let i = choose|i: int|
                            0 <= i < before.len() && (#[trigger] before[i]).0 == other;
                        assert(r@[i].0 == other);
                    } else {
                        assert(other == day);
                    }
                }
            } else {
                assert forall|other: Weekday|
                    other.index() < d + 1 && self@.weekdays.count(other) > 0 implies exists|
                    i: int,
                |
                    0 <= i < r@.len() && (#[trigger] r@[i]).0 == other by {
                    if other.index() >= d {
                        assert(other == day);
                    }
                }
            }
            d += 1;
        }
        assert forall|day: Weekday| self@.weekdays.count(day) > 0 implies exists|i: int|
            0 <= i < r@.len() && (#[trigger] r@[i]).0 == day by {
            assert(day.index() < 7);
        }
        r
    }

    /// The places with at least one service, each with its count, in no
    /// particular order.
    pub fn place_counts(&self) -> (r: Vec<(String, usize)>)
        ensures
            forall|i: int|
                0 <= i < r@.len() ==> (#[trigger] r@[i]).1 > 0 && r@[i].1 == self@.places.count(
                    r@[i].0@,
                ),
            forall|i: int, j: int|
                0 <= i < j < r@.len() ==> (#[trigger] r@[i]).0@ != (#[trigger] r@[j]).0@,
            forall|place: Seq<char>|
                self@.places.count(place) > 0 ==> exists|i: int|
                    0 <= i < r@.len() && (#[trigger] r@[i]).0@ == place,
    {
        proof {
            use_type_invariant(self);
        }
        let mut r: Vec<(String, usize)> = Vec::new();
        let mut k: usize = 0;
        while k < self.place_counts.len()
            invariant
                k <= self.place_counts@.len(),
                r@.len() == k,
                tidy(self.place_counts@),
                forall|i: int|
                    0 <= i < k ==> (#[trigger] r@[i]).0@ == self.place_counts@[i].place@ && r@[i].1
                        == self.place_counts@[i].count,
            decreases self.place_counts@.len() - k,
        {
            r.push((self.place_counts[k].place.clone(), self.place_counts[k].count));
            k += 1;
        }
        proof {
            let entries = self.place_counts@;
            assert forall|i: int| 0 <= i < r@.len() implies (#[trigger] r@[i]).1 > 0 && r@[i].1
                == self@.places.count(r@[i].0@) by {
                lemma_tally_present(entries, i);
                lemma_place_bag_count(entries, entries[i].place@);
                assert(entries[i].count > 0);
            }
            assert forall|i: int, j: int| 0 <= i < j < r@.len() implies (#[trigger] r@[i]).0@ != (
            #[trigger] r@[j]).0@ by {
                assert(entries[i].place@ != entries[j].place@);
            }
            assert forall|place: Seq<char>| self@.places.count(place) > 0 implies exists|i: int|
                0 <= i < r@.len() && (#[trigger] r@[i]).0@ == place by {
                lemma_place_bag_count(entries, place);
                if forall|i: int| 0 <= i < entries.len() ==> (#[trigger] entries[i]).place@ != place {
                    lemma_tally_absent(entries, place);
                }
                let i = choose|i: int| 0 <= i < entries.len() && (#[trigger] entries[i]).place@ == place;
                assert(r@[i].0@ == place);
            }
        }
        r
    }
}

/// The key of the rule on services away from home for a slot at the person's
/// own place.
fn home_key(different_place_services: usize) -> (key: i64)
    requires
        different_place_services <= i64::MAX,
    ensures
        key as int == home_slot_key(different_place_services as nat),
        key < 0,
{
    if different_place_services <= 1 {
        i64::MIN
    } else {
        let n: i64 = different_place_services as i64;
        let key: i64 = i64::MIN / n;
        assert(0x8000_0000_0000_0000int / (n as int) >= 1) by (nonlinear_arith)
            requires
                2 <= n <= 0x7fff_ffff_ffff_ffff,
        ;
        key
    }
}

} // verus!

//! What a run is configured with: the dates, the places, the groups with
//! their members, and the rules that rank and filter candidates.

use vstd::prelude::*;
use crate::date::{Date, Weekday};

verus! {

/// The whole configuration of a run.
#[derive(Debug)]
pub struct Config {
    pub dates: Dates,
    pub places: Places,
    pub group: Vec<Group>,
    pub rules: Rules,
}

/// The places that need one person each on every scheduled day, in the order
/// in which they are filled.
#[derive(Debug)]
pub struct Places {
    pub places: Vec<String>,
}

/// The stretch of the calendar that is scheduled.
#[derive(Debug)]
pub struct Dates {
    /// First day of the schedule.
    pub from: Date,
    /// Last day of the schedule.
    pub to: Date,
    /// Days on which nobody is scheduled.
    pub exceptions: Vec<Date>,
    /// The weekdays on which work is scheduled.
    pub weekdays: Vec<Weekday>,
}

/// People who share a home place and whose services are spread over the
/// calendar jointly.
#[derive(Debug)]
pub struct Group {
    /// Name of the group, a family name for example.
    pub name: String,
    /// The place the group belongs to.
    pub place: String,
    /// The people in the group.
    pub members: Vec<Member>,
}

/// One person of a group.
#[derive(Debug, PartialEq)]
pub struct Member {
    pub name: String,
}

/// The rules of a run.
#[derive(Debug)]
pub struct Rules {
    /// Candidates are ranked by these rules; an earlier rule outweighs every
    /// later one.
    pub sort: Vec<Rule>,
    /// Candidates are filtered by these rules.
    pub filter: Vec<Rule>,
}

/// The rules that exist.
#[derive(Clone, Copy, Debug, PartialEq, Eq, Structural)]
pub enum Rule {
    /// Only people whose home place is the slot's place are candidates.
    FilterSamePlace,
    /// Prefer whoever has served least.
    SortByLeastServices,
    /// Prefer whoever has served least on the slot's weekday.
    SortByLessServicesAtSameWeekday,
    /// Prefer whoever served longest ago, week by week.
    SortByLastService,
    /// Prefer people whose group served longest ago.
    SortByMaxDistanceInGroup,
    /// Prefer people whose home place is the slot's place.
    SortByOwnPlace,
    /// Prefer whoever has served least away from home.
    SortByDifferentPlaceServices,
}

impl Rules {
    /// Whether candidates are limited to people at their home place.
    pub open spec fn filters_same_place(&self) -> bool {
        self.filter@.contains(Rule::FilterSamePlace)
    }

    /// Whether candidates are limited to people at their home place.
    pub fn has_same_place_filter(&self) -> (r: bool)
        ensures
            r == self.filters_same_place(),
    {
        let mut i: usize = 0;
        while i < self.filter.len()
            invariant
                i <= self.filter@.len(),
                forall|k: int| 0 <= k < i ==> self.filter@[k] != Rule::FilterSamePlace,
            decreases self.filter@.len() - i,
        {
            if self.filter[i] == Rule::FilterSamePlace {
                return true;
            }
            i += 1;
        }
        false
    }
}

impl Dates {
    /// Whether nobody is scheduled on the given day.
    pub open spec fn excepts(&self, date: Date) -> bool {
        self.exceptions@.contains(date)
    }

    /// Whether nobody is scheduled on the given day.
    pub fn is_exception(&self, date: Date) -> (r: bool)
        ensures
            r == self.excepts(date),
    {
        let mut i: usize = 0;
        while i < self.exceptions.len()
            invariant
                i <= self.exceptions@.len(),
                forall|k: int| 0 <= k < i ==> self.exceptions@[k] != date,
            decreases self.exceptions@.len() - i,
        {
            if self.exceptions[i] == date {
                return true;
            }
            i += 1;
        }
        false
    }
}

} // verus!

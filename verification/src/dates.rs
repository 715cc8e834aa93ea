//! Picking the days of a stretch of the calendar that fall on given
//! weekdays.

use vstd::prelude::*;
use crate::date::{Date, Weekday, weekday_of_day_number};

verus! {

/// The calendar has a day with this number, and it falls on one of the
/// weekdays.
pub open spec fn is_working_day(days: int, weekdays: Seq<Weekday>) -> bool {
    match weekday_of_day_number(days) {
        Some(day) => weekdays.contains(day),
        None => false,
    }
}

/// The numbers of the days from `from` to `to`, both included, that fall on
/// one of the weekdays, in ascending order.
pub open spec fn working_days(from: int, to: int, weekdays: Seq<Weekday>) -> Seq<int>
    decreases to - from + 1,
{
    if to < from {
        Seq::empty()
    } else {
        let earlier = working_days(from, to - 1, weekdays);
        if is_working_day(to, weekdays) {
            earlier.push(to)
        } else {
            earlier
        }
    }
}

/// The day numbers of a list of dates.
pub open spec fn day_numbers(dates: Seq<Date>) -> Seq<int> {
    dates.map_values(|d: Date| d.day_number())
}

/// Whether a weekday is among those listed.
pub fn is_listed(weekdays: &[Weekday], day: Weekday) -> (r: bool)
    ensures
        r == weekdays@.contains(day),
{
    let mut i: usize = 0;
    while i < weekdays.len()
        invariant
            i <= weekdays@.len(),
            forall|k: int| 0 <= k < i ==> weekdays@[k] != day,
        decreases weekdays@.len() - i,
    {
        if weekdays[i] == day {
            return true;
        }
        i += 1;
    }
    false
}

/// All days from `start` to `end`, both included, that fall on one of the
/// given weekdays, in ascending order.
pub fn get_weekdays(start: &Date, end: &Date, weekdays: &[Weekday]) -> (r: Vec<Date>)
    ensures
        day_numbers(r@) == working_days(start.day_number(), end.day_number(), weekdays@),
{
    let mut dates: Vec<Date> = Vec::new();
    let first: i64 = start.num_days_from_ce() as i64;
    let last: i64 = end.num_days_from_ce() as i64;
    let mut current: i64 = first;
    assert(day_numbers(dates@) =~= working_days(first as int, first - 1, weekdays@));
    while current <= last
        invariant
            first <= current <= last + 1 || (last < first && current == first),
            i32::MIN <= first <= i32::MAX,
            i32::MIN <= last <= i32::MAX,
            day_numbers(dates@) == working_days(first as int, current - 1, weekdays@),
        decreases last - current + 1,
    {
        let ghost before = dates@;
        match Date::from_num_days_from_ce_opt(current as i32) {
            Some(date) => {
                if is_listed(weekdays, date.weekday()) {
                    dates.push(date);
                    assert(day_numbers(dates@) =~= day_numbers(before).push(current as int));
                }
            },
            None => {},
        }
        current += 1;
    }
    dates
}

} // verus!

//! The summary of the ledgers: which of the highlight slots a person holds.

use vstd::prelude::*;
use vstd::string::*;
use crate::date::Weekday;
use crate::text::str_equal;
use crate::schedule::{PersonState, PersonView, as_int, views};
use crate::text::{decimal, decimal_text};

verus! {

/// The slot holds this name.
pub open spec fn holds_name(slot: Option<String>, name: Seq<char>) -> bool {
    match slot {
        Some(held) => held@ == name,
        None => false,
    }
}

/// The first of the four highlight slots that holds the name, if any does.
pub open spec fn slot_holding(names: Seq<Option<String>>, name: Seq<char>) -> Option<int> {
    if holds_name(names[0], name) {
        Some(0)
    } else if holds_name(names[1], name) {
        Some(1)
    } else if holds_name(names[2], name) {
        Some(2)
    } else if holds_name(names[3], name) {
        Some(3)
    } else {
        None
    }
}

/// The first of the four highlight slots that holds the person's name, if
/// any does.
pub fn highlight_slot_for_person(highlighted_names: &[Option<String>; 4], person_name: &str) -> (r:
    Option<usize>)
    ensures
        as_int(r) == slot_holding(highlighted_names@, person_name@),
{
    let mut i: usize = 0;
    while i < 4
        invariant
            i <= 4,
            forall|j: int| 0 <= j < i ==> !holds_name(highlighted_names@[j], person_name@),
        decreases 4 - i,
    {
        let held = match &highlighted_names[i] {
            Some(name) => str_equal(name.as_str(), person_name),
            None => false,
        };
        if held {
            return Some(i);
        }
        i += 1;
    }
    None
}

/// What the summary says of one weekday, where the person has served on
/// it: a comma, the weekday and its count; nothing where the person has not.
pub open spec fn weekday_part(person: PersonView, day: Weekday) -> Seq<char> {
    let count = person.weekdays.count(day);
    if count > 0 {
        ", "@ + day.abbreviation() + ": "@ + decimal(count)
    } else {
        Seq::empty()
    }
}

/// What the summary says of the first `n` weekdays, Monday first.
pub open spec fn weekday_parts(person: PersonView, n: int) -> Seq<char>
    decreases n,
{
    if n <= 0 {
        Seq::empty()
    } else {
        weekday_parts(person, n - 1) + weekday_part(person, Weekday::at(n - 1))
    }
}

/// The line of the summary for one person: the name, the total, the counts
/// of the weekdays served on, and the services away from home.
pub open spec fn summary_line(person: PersonView) -> Seq<char> {
    person.name + ", total: "@ + decimal(person.total_services) + weekday_parts(person, 7)
        + ", different_place: "@ + decimal(person.different_place_services) + "\n"@
}

/// The summary of the first `n` people, one line each.
pub open spec fn summary_text(people: Seq<PersonView>, n: int) -> Seq<char>
    decreases n,
{
    if n <= 0 {
        Seq::empty()
    } else {
        summary_text(people, n - 1) + summary_line(people[n - 1])
    }
}

/// The line of the summary for one person.
pub fn summary_line_of(person: &PersonState) -> (r: String)
    ensures
        r@ == summary_line(person@),
{
    let mut line = person.name();
    line.append(", total: ");
    line.append(decimal_text(person.total_services()).as_str());
    let ghost start = line@;
    let mut d: usize = 0;
    assert(line@ =~= start + weekday_parts(person@, 0));
    while d < 7
        invariant
            d <= 7,
            line@ == start + weekday_parts(person@, d as int),
        decreases 7 - d,
    {
        let day = Weekday::from_index(d);
        let count = person.weekday_count(day);
        let ghost before = line@;
        if count > 0 {
            line.append(", ");
            line.append(day.name());
            line.append(": ");
            line.append(decimal_text(count).as_str());
        }
        assert(line@ =~= before + weekday_part(person@, day));
        assert(line@ =~= start + weekday_parts(person@, d + 1));
        d += 1;
    }
    line.append(", different_place: ");
    line.append(decimal_text(person.different_place_services()).as_str());
    line.append("\n");
    assert(line@ =~= summary_line(person@));
    line
}

/// The summary of the ledgers, one line for every person.
pub fn summary_content(people: &Vec<PersonState>) -> (r: String)
    ensures
        r@ == summary_text(views(people@), people@.len() as int),
{
    let mut text = String::new();
    let mut i: usize = 0;
    assert(text@ =~= summary_text(views(people@), 0));
    while i < people.len()
        invariant
            i <= people@.len(),
            text@ == summary_text(views(people@), i as int),
        decreases people@.len() - i,
    {
        let line = summary_line_of(&people[i]);
        assert(views(people@)[i as int] == people@[i as int]@);
        text.append(line.as_str());
        i += 1;
    }
    text
}

} // verus!

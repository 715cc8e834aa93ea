//! A list of assignments laid out as a table: one row for every date, one
//! column for every place, both in ascending order.

use vstd::prelude::*;
use crate::date::Date;
use crate::text::str_equal;
use crate::schedule::Assignment;
use crate::text::{lemma_text_less_transitive, lemma_text_order_total, text_is_less, text_less};

verus! {

/// The texts stand in ascending order, none twice.
pub open spec fn texts_ascend(list: Seq<String>) -> bool {
    forall|i: int, j: int|
        0 <= i < j < list.len() ==> text_less((#[trigger] list[i])@, (#[trigger] list[j])@)
}

/// The list holds this text.
pub open spec fn has_text(list: Seq<String>, text: Seq<char>) -> bool {
    exists|i: int| 0 <= i < list.len() && (#[trigger] list[i])@ == text
}

/// The characters of each text of a list.
pub open spec fn texts(list: Seq<String>) -> Seq<Seq<char>> {
    list.map_values(|text: String| text@)
}

/// The dates stand in ascending order, none twice.
pub open spec fn dates_ascend(list: Seq<Date>) -> bool {
    forall|i: int, j: int|
        0 <= i < j < list.len() ==> (#[trigger] list[i]).day_number() < (
        #[trigger] list[j]).day_number()
}

/// Some assignment is at this place.
pub open spec fn names_place(assignments: Seq<Assignment>, place: Seq<char>) -> bool {
    exists|k: int| 0 <= k < assignments.len() && (#[trigger] assignments[k]).place@ == place
}

/// Some assignment is on this date.
pub open spec fn names_date(assignments: Seq<Assignment>, date: Date) -> bool {
    exists|k: int| 0 <= k < assignments.len() && (#[trigger] assignments[k]).date == date
}

/// `places` are the columns of the table: the places of the assignments in
/// ascending order, each once.
pub open spec fn columns_of(places: Seq<String>, assignments: Seq<Assignment>) -> bool {
    &&& texts_ascend(places)
    &&& forall|text: Seq<char>| has_text(places, text) <==> names_place(assignments, text)
}

/// `dates` are the rows of the table: the dates of the assignments in
/// ascending order, each once.
pub open spec fn rows_of(dates: Seq<Date>, assignments: Seq<Assignment>) -> bool {
    &&& dates_ascend(dates)
    &&& forall|date: Date| dates.contains(date) <==> names_date(assignments, date)
}

/// The assignment fills the slot on `date` at `place`.
pub open spec fn fills(a: Assignment, date: Date, place: Seq<char>) -> bool {
    a.date == date && a.place@ == place
}

/// Who the table shows in a slot: the person of the last assignment that
/// fills it, if any does.
pub open spec fn person_of(assignments: Seq<Assignment>, date: Date, place: Seq<char>) -> Option<
    Seq<char>,
>
    decreases assignments.len(),
{
    if assignments.len() == 0 {
        None
    } else if fills(assignments.last(), date, place) {
        Some(assignments.last().person@)
    } else {
        person_of(assignments.drop_last(), date, place)
    }
}

/// Puts a text into an ascending list, unless it is there already.
pub fn insert_text(list: &mut Vec<String>, text: &str)
    requires
        texts_ascend(old(list)@),
    ensures
        texts_ascend(final(list)@),
        forall|other: Seq<char>|
            has_text(final(list)@, other) <==> has_text(old(list)@, other) || other == text@,
{
    let mut i: usize = 0;
    while i < list.len() && text_is_less(list[i].as_str(), text)
        invariant
            i <= list@.len(),
            list@ == old(list)@,
            forall|j: int| 0 <= j < i ==> text_less((#[trigger] list@[j])@, text@),
        decreases list@.len() - i,
    {
        i += 1;
    }
    let ghost before = list@;
    if i < list.len() && str_equal(list[i].as_str(), text) {
        assert forall|other: Seq<char>| has_text(before, other) || other == text@ implies has_text(
            before,
            other,
        ) by {
            if other == text@ {
                assert(before[i as int]@ == other);
            }
        }
        return ;
    }
    list.insert(i, text.to_owned());
    proof {
        let after = list@;
        assert forall|a: int, b: int| 0 <= a < b < after.len() implies text_less(
            (#[trigger] after[a])@,
            (#[trigger] after[b])@,
        ) by {
            if b == i {
                assert(after[a] == before[a]);
            } else if a == i {
                assert(after[b] == before[b - 1]);
                lemma_text_order_total(before[i as int]@, text@);
                if b - 1 > i {
                    lemma_text_less_transitive(text@, before[i as int]@, before[b - 1]@);
                }
            } else {
                let x = if a < i {
                    a
                } else {
                    a - 1
                };
                let y = if b < i {
                    b
                } else {
                    b - 1
                };
                assert(after[a] == before[x]);
                assert(after[b] == before[y]);
            }
        }
        assert forall|other: Seq<char>| has_text(after, other) <==> has_text(before, other)
            || other == text@ by {
            if has_text(after, other) {
                let k = choose|k: int| 0 <= k < after.len() && (#[trigger] after[k])@ == other;
                if k < i {
                    assert(before[k]@ == other);
                } else if k > i {
                    assert(before[k - 1]@ == other);
                }
            }
            if has_text(before, other) {
                let k = choose|k: int| 0 <= k < before.len() && (#[trigger] before[k])@ == other;
                if k < i {
                    assert(after[k]@ == other);
                } else {
                    assert(after[k + 1]@ == other);
                }
            }
            if other == text@ {
                assert(after[i as int]@ == other);
            }
        }
    }
}

/// Puts a date into an ascending list, unless it is there already.
pub fn insert_date(list: &mut Vec<Date>, date: Date)
    requires
        dates_ascend(old(list)@),
    ensures
        dates_ascend(final(list)@),
        forall|other: Date|
            final(list)@.contains(other) <==> old(list)@.contains(other) || other == date,
{
    broadcast use Date::lemma_day_number_decides;
    let mut i: usize = 0;
    while i < list.len() && list[i].is_before(&date)
        invariant
            i <= list@.len(),
            list@ == old(list)@,
            forall|j: int| 0 <= j < i ==> (#[trigger] list@[j]).day_number() < date.day_number(),
        decreases list@.len() - i,
    {
        i += 1;
    }
    let ghost before = list@;
    if i < list.len() && list[i] == date {
        assert(before.contains(date));
        return ;
    }
    list.insert(i, date);
    proof {
        let after = list@;
        assert forall|a: int, b: int| 0 <= a < b < after.len() implies (
        #[trigger] after[a]).day_number() < (#[trigger] after[b]).day_number() by {
            let x = if a < i {
                a
            } else {
                a - 1
            };
            let y = if b < i {
                b
            } else {
                b - 1
            };
            if b == i {
                assert(after[a] == before[a]);
            } else if a == i {
                assert(after[b] == before[y]);
                assert(before[i as int].day_number() != date.day_number());
            } else {
                assert(after[a] == before[x]);
                assert(after[b] == before[y]);
            }
        }
        assert forall|other: Date| after.contains(other) <==> before.contains(other) || other
            == date by {
            if after.contains(other) {
                let k = choose|k: int| 0 <= k < after.len() && after[k] == other;
                if k < i {
                    assert(before[k] == other);
                } else if k > i {
                    assert(before[k - 1] == other);
                }
            }
            if before.contains(other) {
                let k = choose|k: int| 0 <= k < before.len() && before[k] == other;
                if k < i {
                    assert(after[k] == other);
                } else {
                    assert(after[k + 1] == other);
                }
            }
            if other == date {
                assert(after[i as int] == other);
            }
        }
    }
}

/// The columns of the table.
pub fn place_columns(assignments: &[Assignment]) -> (places: Vec<String>)
    ensures
        columns_of(places@, assignments@),
        texts(places@) == columns(assignments@),
{
    let mut places: Vec<String> = Vec::new();
    let mut k: usize = 0;
    while k < assignments.len()
        invariant
            k <= assignments@.len(),
            columns_of(places@, assignments@.take(k as int)),
        decreases assignments@.len() - k,
    {
        let ghost before = places@;
        let ghost seen = assignments@.take(k as int);
        let ghost more = assignments@.take(k + 1);
        insert_text(&mut places, assignments[k].place.as_str());
        proof {
            assert forall|text: Seq<char>| has_text(places@, text) <==> names_place(
                more,
                text,
            ) by {
                if names_place(more, text) {
                    let j = choose|j: int| 0 <= j < more.len() && (#[trigger] more[j]).place@ == text;
                    if j < k {
                        assert(seen[j].place@ == text);
                    }
                }
                if names_place(seen, text) {
                    let j = choose|j: int| 0 <= j < seen.len() && (#[trigger] seen[j]).place@ == text;
                    assert(more[j].place@ == text);
                }
                if text == assignments@[k as int].place@ {
                    assert(more[k as int].place@ == text);
                }
            }
        }
        k += 1;
    }
    assert(assignments@.take(k as int) =~= assignments@);
    proof {
        lemma_columns_are(places@, assignments@);
    }
    places
}

/// The rows of the table.
pub fn date_rows(assignments: &[Assignment]) -> (dates: Vec<Date>)
    ensures
        rows_of(dates@, assignments@),
        dates@ == rows(assignments@),
{
    let mut dates: Vec<Date> = Vec::new();
    let mut k: usize = 0;
    while k < assignments.len()
        invariant
            k <= assignments@.len(),
            rows_of(dates@, assignments@.take(k as int)),
        decreases assignments@.len() - k,
    {
        let ghost seen = assignments@.take(k as int);
        let ghost more = assignments@.take(k + 1);
        insert_date(&mut dates, assignments[k].date);
        proof {
            assert forall|date: Date| dates@.contains(date) <==> names_date(more, date) by {
                if names_date(more, date) {
                    let j = choose|j: int| 0 <= j < more.len() && (#[trigger] more[j]).date == date;
                    if j < k {
                        assert(seen[j].date == date);
                    }
                }
                if names_date(seen, date) {
                    let j = choose|j: int| 0 <= j < seen.len() && (#[trigger] seen[j]).date == date;
                    assert(more[j].date == date);
                }
                if date == assignments@[k as int].date {
                    assert(more[k as int].date == date);
                }
            }
        }
        k += 1;
    }
    assert(assignments@.take(k as int) =~= assignments@);
    proof {
        lemma_rows_are(dates@, assignments@);
    }
    dates
}

/// Who the table shows in the slot on `date` at `place`.
pub fn person_at(assignments: &[Assignment], date: Date, place: &str) -> (r: Option<String>)
    ensures
        match r {
            Some(person) => person_of(assignments@, date, place@) == Some(person@),
            None => person_of(assignments@, date, place@).is_none(),
        },
{
    let mut k: usize = assignments.len();
    assert(assignments@.take(k as int) =~= assignments@);
    while k > 0
        invariant
            k <= assignments@.len(),
            person_of(assignments@, date, place@) == person_of(
                assignments@.take(k as int),
                date,
                place@,
            ),
        decreases k,
    {
        let a = &assignments[k - 1];
        proof {
            let seen = assignments@.take(k as int);
            assert(seen.last() == assignments@[k - 1]);
            assert(seen.drop_last() =~= assignments@.take(k - 1));
        }
        if a.date == date && str_equal(a.place.as_str(), place) {
            return Some(a.person.clone());
        }
        k -= 1;
    }
    None
}

/// What the table shows in the cell at `row` and `column`: the date of the
/// row, the place of the column and the person in that slot. Row 0 is the
/// header and column 0 holds the dates, so neither has a cell to show; nor
/// has a slot that no assignment fills.
pub open spec fn cell_of(assignments: Seq<Assignment>, row: int, column: int) -> Option<
    (Date, Seq<char>, Seq<char>),
> {
    if row <= 0 || column <= 0 || row > rows(assignments).len() || column > columns(
        assignments,
    ).len() {
        None
    } else {
        let date = rows(assignments)[row - 1];
        let place = columns(assignments)[column - 1];
        match person_of(assignments, date, place) {
            Some(person) => Some((date, place, person)),
            None => None,
        }
    }
}

/// A cell as mathematics: the texts by their characters.
pub open spec fn cell_view(cell: Option<(Date, String, String)>) -> Option<
    (Date, Seq<char>, Seq<char>),
> {
    match cell {
        Some((date, place, person)) => Some((date, place@, person@)),
        None => None,
    }
}

/// What the table shows in the cell at `row` and `column`, given the rows
/// and the columns of the table.
pub fn cell_at(
    assignments: &[Assignment],
    dates: &Vec<Date>,
    places: &Vec<String>,
    row: usize,
    column: usize,
) -> (r: Option<(Date, String, String)>)
    requires
        dates@ == rows(assignments@),
        texts(places@) == columns(assignments@),
    ensures
        cell_view(r) == cell_of(assignments@, row as int, column as int),
{
    if row == 0 || column == 0 {
        return None;
    }
    if row > dates.len() || column > places.len() {
        return None;
    }
    let date = dates[row - 1];
    let place = places[column - 1].clone();
    assert(texts(places@)[column - 1] == place@);
    match person_at(assignments, date, place.as_str()) {
        Some(person) => Some((date, place, person)),
        None => None,
    }
}

/// What the table of the assignments shows in the cell at `row` and
/// `column`.
pub fn shown_cell(assignments: &[Assignment], row: usize, column: usize) -> (r: Option<
    (Date, String, String),
>)
    ensures
        cell_view(r) == cell_of(assignments@, row as int, column as int),
{
    let dates = date_rows(assignments);
    let places = place_columns(assignments);
    cell_at(assignments, &dates, &places, row, column)
}

/// A copy of the assignments.
pub fn copy_assignments(assignments: &[Assignment]) -> (r: Vec<Assignment>)
    ensures
        r@ == assignments@,
{
    let mut r: Vec<Assignment> = Vec::new();
    let mut k: usize = 0;
    while k < assignments.len()
        invariant
            k <= assignments@.len(),
            r@ == assignments@.take(k as int),
        decreases assignments@.len() - k,
    {
        r.push(assignments[k].clone());
        assert(r@ =~= assignments@.take(k + 1));
        k += 1;
    }
    assert(assignments@.take(k as int) =~= assignments@);
    r
}

/// The order of dates as a relation.
pub open spec fn date_before() -> spec_fn(Date, Date) -> bool {
    |a: Date, b: Date| a.day_number() < b.day_number()
}

/// The order of texts as a relation.
pub open spec fn text_before() -> spec_fn(Seq<char>, Seq<char>) -> bool {
    |a: Seq<char>, b: Seq<char>| text_less(a, b)
}

/// `names` are the places of the assignments in ascending order, each once.
pub open spec fn names_of(names: Seq<Seq<char>>, assignments: Seq<Assignment>) -> bool {
    &&& crate::order::ascends(names, text_before())
    &&& forall|text: Seq<char>| names.contains(text) <==> names_place(assignments, text)
}

/// The rows of the table of these assignments: their dates in ascending
/// order, each once.
pub open spec fn rows(assignments: Seq<Assignment>) -> Seq<Date> {
    choose|dates: Seq<Date>| rows_of(dates, assignments)
}

/// The columns of the table of these assignments: their places in
/// ascending order, each once.
pub open spec fn columns(assignments: Seq<Assignment>) -> Seq<Seq<char>> {
    choose|names: Seq<Seq<char>>| names_of(names, assignments)
}

/// The dates are ordered strictly and totally.
pub proof fn lemma_date_order()
    ensures
        crate::order::is_strict_total(date_before()),
{
    let less = date_before();
    assert forall|x: Date, y: Date| #[trigger] less(x, y) || less(y, x) || x == y by {
        Date::lemma_day_number_decides(x, y);
    }
}

/// The texts are ordered strictly and totally.
pub proof fn lemma_text_order()
    ensures
        crate::order::is_strict_total(text_before()),
{
    let less = text_before();
    assert forall|x: Seq<char>| !#[trigger] less(x, x) by {
        lemma_text_order_total(x, x);
    }
    assert forall|x: Seq<char>, y: Seq<char>| #[trigger] less(x, y) || less(y, x) || x == y by {
        lemma_text_order_total(x, y);
    }
    assert forall|x: Seq<char>, y: Seq<char>, z: Seq<char>| #[trigger]
        less(x, y) && #[trigger] less(y, z) implies less(x, z) by {
        lemma_text_less_transitive(x, y, z);
    }
}

/// A list that holds the dates of the assignments in ascending order, each
/// once, is the list of rows: there is no other.
pub proof fn lemma_rows_are(dates: Seq<Date>, assignments: Seq<Assignment>)
    requires
        rows_of(dates, assignments),
    ensures
        dates == rows(assignments),
        rows_of(rows(assignments), assignments),
{
    let other = rows(assignments);
    lemma_date_order();
    assert(crate::order::ascends(dates, date_before()));
    assert(crate::order::ascends(other, date_before()));
    crate::order::lemma_ascending_unique(dates, other, date_before());
}

/// A list that holds the places of the assignments in ascending order, each
/// once, is the list of columns: there is no other.
pub proof fn lemma_columns_are(places: Seq<String>, assignments: Seq<Assignment>)
    requires
        columns_of(places, assignments),
    ensures
        texts(places) == columns(assignments),
        names_of(columns(assignments), assignments),
{
    let names = texts(places);
    assert(names_of(names, assignments)) by {
        assert forall|p: int, q: int| 0 <= p < q < names.len() implies text_before()(
            #[trigger] names[p],
            #[trigger] names[q],
        ) by {
            assert(text_less(places[p]@, places[q]@));
        }
        assert forall|text: Seq<char>| names.contains(text) <==> names_place(
            assignments,
            text,
        ) by {
            if names.contains(text) {
                let k = names.index_of(text);
                assert(places[k]@ == text);
                assert(has_text(places, text));
            }
            if has_text(places, text) {
                let m = choose|m: int| 0 <= m < places.len() && (#[trigger] places[m])@ == text;
                assert(names[m] == text);
            }
        }
    }
    let other = columns(assignments);
    lemma_text_order();
    crate::order::lemma_ascending_unique(names, other, text_before());
}

} // verus!

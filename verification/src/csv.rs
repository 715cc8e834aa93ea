//! The schedule as comma-separated text: one line for every date, one
//! column for every place.

use vstd::prelude::*;
use crate::date::{Date, text_of_day_number};
use crate::grid::{columns, date_rows, person_at, person_of, place_columns, rows, texts};
use crate::schedule::Assignment;

verus! {

/// The byte of a comma, which stands between fields.
pub const COMMA: u8 = 44;

/// The byte of a double quote, which encloses the fields that need it.
pub const QUOTE: u8 = 34;

/// The byte of a backslash, which stands before a quote inside a field.
pub const BACKSLASH: u8 = 92;

/// The texts of a record by their characters.
pub open spec fn fields(record: Seq<String>) -> Seq<Seq<char>> {
    record.map_values(|field: String| field@)
}

/// The records of a table by the characters of their fields.
pub open spec fn records(table: Seq<Vec<String>>) -> Seq<Seq<Seq<char>>> {
    table.map_values(|record: Vec<String>| fields(record@))
}

/// The people of one date, column by column; a place that has nobody on
/// that date is passed over.
pub open spec fn row_people(assignments: Seq<Assignment>, date: Date, places: Seq<Seq<char>>) -> Seq<
    Seq<char>,
>
    decreases places.len(),
{
    if places.len() == 0 {
        Seq::empty()
    } else {
        let earlier = row_people(assignments, date, places.drop_last());
        match person_of(assignments, date, places.last()) {
            Some(person) => earlier.push(person),
            None => earlier,
        }
    }
}

/// The first record: the word `date`, then the places.
pub open spec fn header_record(places: Seq<Seq<char>>) -> Seq<Seq<char>> {
    seq!["date"@] + places
}

/// The record of one date: the date as text, then its people.
pub open spec fn date_record(assignments: Seq<Assignment>, date: Date, places: Seq<Seq<char>>) -> Seq<
    Seq<char>,
> {
    seq![text_of_day_number(date.day_number()).unwrap()] + row_people(assignments, date, places)
}

/// The records of the table of the assignments: the header, then one
/// record for every date, in ascending order.
pub open spec fn table_records(assignments: Seq<Assignment>) -> Seq<Seq<Seq<char>>> {
    seq![header_record(columns(assignments))] + Seq::new(
        rows(assignments).len(),
        |j: int| date_record(assignments, rows(assignments)[j], columns(assignments)),
    )
}

/// What the `csv` crate writes for a list of records with the given
/// delimiter, quote and escape bytes, quoting fields only where necessary,
/// with quotes inside fields doubled or escaped: the text, or what the crate
/// says of the record that it refuses.
pub uninterp spec fn csv_document(
    records: Seq<Seq<Seq<char>>>,
    delimiter: u8,
    quote: u8,
    escape: u8,
    double_quote: bool,
) -> Result<Seq<char>, Seq<char>>;

/// A text or an error text by their characters.
pub open spec fn outcome(r: Result<String, String>) -> Result<Seq<char>, Seq<char>> {
    match r {
        Ok(text) => Ok(text@),
        Err(error) => Err(error@),
    }
}

/// Builds a writer of the `csv` crate over a byte vector with
/// `csv::WriterBuilder` (`delimiter`, `quote_style`, `quote`,
/// `double_quote`, `escape`, `from_writer`), hands it the records one by
/// one with `csv::Writer::write_record`, and takes the bytes back with
/// `csv::Writer::into_inner`, which `String::from_utf8` turn into text.
/// An error comes back as the text of its `Display` impl. Nothing is
/// claimed of the outcome but that it depends on the records and the four
/// settings alone.
#[verifier::external_body]
fn write_records(
    table: &Vec<Vec<String>>,
    delimiter: u8,
    quote: u8,
    escape: u8,
    double_quote: bool,
) -> (r: Result<String, String>)
    ensures
        outcome(r) == csv_document(records(table@), delimiter, quote, escape, double_quote),
{
    let mut writer = ::csv::WriterBuilder::new().delimiter(delimiter).quote_style(
        ::csv::QuoteStyle::Necessary,
    ).quote(quote).double_quote(double_quote).escape(escape).from_writer(Vec::new());
    for record in table {
        if let Err(error) = writer.write_record(record) {
            return Err(error.to_string());
        }
    }
    match writer.into_inner().map(String::from_utf8) {
        Ok(Ok(text)) => Ok(text),
        Ok(Err(error)) => Err(error.to_string()),
        Err(error) => Err(error.to_string()),
    }
}

/// The record of one date.
fn date_row(assignments: &[Assignment], date: Date, places: &Vec<String>) -> (row: Vec<String>)
    ensures
        fields(row@) == date_record(assignments@, date, texts(places@)),
{
    let mut row: Vec<String> = Vec::new();
    row.push(date.to_string());
    let ghost first = fields(row@);
    let ghost names = texts(places@);
    let mut c: usize = 0;
    assert(fields(row@) =~= first + row_people(assignments@, date, names.take(0)));
    while c < places.len()
        invariant
            c <= places@.len(),
            names == texts(places@),
            first == seq![text_of_day_number(date.day_number()).unwrap()],
            fields(row@) == first + row_people(assignments@, date, names.take(c as int)),
        decreases places@.len() - c,
    {
        let ghost before = fields(row@);
        proof {
            assert(names.take(c + 1).drop_last() =~= names.take(c as int));
            assert(names.take(c + 1).last() == places@[c as int]@);
        }
        match person_at(assignments, date, places[c].as_str()) {
            Some(person) => {
                row.push(person);
                assert(fields(row@) =~= before.push(person@));
            },
            None => {},
        }
        assert(fields(row@) =~= first + row_people(assignments@, date, names.take(c + 1)));
        c += 1;
    }
    assert(names.take(c as int) =~= names);
    row
}

/// The records of the schedule: first the word `date` and the places in
/// ascending order, then for every date, in ascending order, the date and
/// who serves at each place. Where several assignments fill one slot the
/// last counts; a place that has nobody on a date is passed over, so that
/// the record is shorter.
pub fn csv_records(assignments: &Vec<Assignment>) -> (table: Vec<Vec<String>>)
    ensures
        records(table@) == table_records(assignments@),
{
    let places = place_columns(assignments.as_slice());
    let dates = date_rows(assignments.as_slice());
    let ghost names = texts(places@);
    let mut header: Vec<String> = Vec::new();
    header.push("date".to_owned());
    let mut c: usize = 0;
    assert(fields(header@) =~= seq!["date"@] + names.take(0));
    while c < places.len()
        invariant
            c <= places@.len(),
            names == texts(places@),
            fields(header@) == seq!["date"@] + names.take(c as int),
        decreases places@.len() - c,
    {
        let ghost before = fields(header@);
        header.push(places[c].clone());
        assert(fields(header@) =~= before.push(places@[c as int]@));
        assert(names.take(c + 1) =~= names.take(c as int).push(places@[c as int]@));
        assert(fields(header@) =~= seq!["date"@] + names.take(c + 1));
        c += 1;
    }
    assert(names.take(c as int) =~= names);
    let mut table: Vec<Vec<String>> = Vec::new();
    table.push(header);
    let ghost top = records(table@);
    assert(top =~= seq![header_record(names)]);
    let mut j: usize = 0;
    assert(records(table@) =~= top + Seq::new(0, |k: int| date_record(assignments@, dates@[k], names)));
    while j < dates.len()
        invariant
            j <= dates@.len(),
            names == texts(places@),
            top == seq![header_record(names)],
            records(table@) == top + Seq::new(
                j as nat,
                |k: int| date_record(assignments@, dates@[k], names),
            ),
        decreases dates@.len() - j,
    {
        let ghost before = records(table@);
        let row = date_row(assignments.as_slice(), dates[j], &places);
        table.push(row);
        assert(records(table@) =~= before.push(fields(row@)));
        assert(records(table@) =~= top + Seq::new(
            (j + 1) as nat,
            |k: int| date_record(assignments@, dates@[k], names),
        ));
        j += 1;
    }
    assert(records(table@) =~= table_records(assignments@));
    table
}

/// The schedule as comma-separated text: the records of `csv_records`,
/// written by the `csv` crate with a comma between fields, quotes where a
/// field needs them and a backslash before a quote inside a field. The crate
/// refuses records of different lengths, which is what a schedule with an
/// open slot gives.
pub fn assignments_to_csv(assignments: &Vec<Assignment>) -> (r: Result<String, String>)
    ensures
        outcome(r) == csv_document(table_records(assignments@), COMMA, QUOTE, BACKSLASH, false),
{
    let table = csv_records(assignments);
    write_records(&table, COMMA, QUOTE, BACKSLASH, false)
}

} // verus!

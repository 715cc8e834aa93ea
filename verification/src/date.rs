//! Calendar days as the scheduler sees them: a day number and the weekday that
//! the calendar gives it.

use vstd::prelude::*;
use chrono::Datelike;

verus! {

/// The seven days of the week, Monday first.
#[derive(Clone, Copy, Debug, PartialEq, Eq, Structural)]
pub enum Weekday {
    Mon,
    Tue,
    Wed,
    Thu,
    Fri,
    Sat,
    Sun,
}

impl Weekday {
    /// Position in the week, counted from Monday as zero.
    pub open spec fn index(self) -> int {
        match self {
            Weekday::Mon => 0,
            Weekday::Tue => 1,
            Weekday::Wed => 2,
            Weekday::Thu => 3,
            Weekday::Fri => 4,
            Weekday::Sat => 5,
            Weekday::Sun => 6,
        }
    }

    /// The weekday at a position of the week; positions past Sunday's count
    /// as Sunday.
    pub open spec fn at(index: int) -> Weekday {
        if index == 0 {
            Weekday::Mon
        } else if index == 1 {
            Weekday::Tue
        } else if index == 2 {
            Weekday::Wed
        } else if index == 3 {
            Weekday::Thu
        } else if index == 4 {
            Weekday::Fri
        } else if index == 5 {
            Weekday::Sat
        } else {
            Weekday::Sun
        }
    }

    /// Position in the week, counted from Monday as zero.
    pub fn num_days_from_monday(&self) -> (r: usize)
        ensures
            r as int == self.index(),
            r < 7,
    {
        match self {
            Weekday::Mon => 0,
            Weekday::Tue => 1,
            Weekday::Wed => 2,
            Weekday::Thu => 3,
            Weekday::Fri => 4,
            Weekday::Sat => 5,
            Weekday::Sun => 6,
        }
    }

    /// The weekday at a position of the week; positions past Sunday's count
    /// as Sunday.
    pub fn from_index(index: usize) -> (r: Weekday)
        ensures
            r == Weekday::at(index as int),
            index < 7 ==> r.index() == index,
    {
        if index == 0 {
            Weekday::Mon
        } else if index == 1 {
            Weekday::Tue
        } else if index == 2 {
            Weekday::Wed
        } else if index == 3 {
            Weekday::Thu
        } else if index == 4 {
            Weekday::Fri
        } else if index == 5 {
            Weekday::Sat
        } else {
            Weekday::Sun
        }
    }

    /// The three-letter English abbreviation.
    pub fn name(&self) -> (r: &'static str)
        ensures
            r@ == self.abbreviation(),
    {
        match self {
            Weekday::Mon => "Mon",
            Weekday::Tue => "Tue",
            Weekday::Wed => "Wed",
            Weekday::Thu => "Thu",
            Weekday::Fri => "Fri",
            Weekday::Sat => "Sat",
            Weekday::Sun => "Sun",
        }
    }

    /// The three-letter English abbreviation, as a sequence of characters.
    pub open spec fn abbreviation(self) -> Seq<char> {
        match self {
            Weekday::Mon => "Mon"@,
            Weekday::Tue => "Tue"@,
            Weekday::Wed => "Wed"@,
            Weekday::Thu => "Thu"@,
            Weekday::Fri => "Fri"@,
            Weekday::Sat => "Sat"@,
            Weekday::Sun => "Sun"@,
        }
    }
}

/// The weekday that the proleptic Gregorian calendar of `chrono` gives to the
/// day with this number (January 1 of year 1 is day 1), or `None` where
/// `chrono` has no date with that number.
pub uninterp spec fn weekday_of_day_number(days: int) -> Option<Weekday>;

/// The text that `chrono` prints for the day with this number, or `None`
/// where `chrono` has no date with that number.
pub uninterp spec fn text_of_day_number(days: int) -> Option<Seq<char>>;

/// Calls `chrono::NaiveDate::from_num_days_from_ce_opt` and, on the date it
/// gives, `chrono::Datelike::weekday`. Nothing is claimed of which weekday
/// comes back, only that it depends on the day number alone.
#[verifier::external_body]
fn calendar_weekday(days: i32) -> (r: Option<Weekday>)
    ensures
        r == weekday_of_day_number(days as int),
{
    match chrono::NaiveDate::from_num_days_from_ce_opt(days) {
        None => None,
        Some(date) => Some(match date.weekday() {
            chrono::Weekday::Mon => Weekday::Mon,
            chrono::Weekday::Tue => Weekday::Tue,
            chrono::Weekday::Wed => Weekday::Wed,
            chrono::Weekday::Thu => Weekday::Thu,
            chrono::Weekday::Fri => Weekday::Fri,
            chrono::Weekday::Sat => Weekday::Sat,
            chrono::Weekday::Sun => Weekday::Sun,
        }),
    }
}

/// Calls `chrono::NaiveDate::from_num_days_from_ce_opt` and prints the date
/// it gives through its `Display` impl (`to_string`). The text depends on the
/// day number alone, and there is one exactly where `chrono` has a date with
/// that number, which is also where it has a weekday for it.
#[verifier::external_body]
fn calendar_text(days: i32) -> (r: Option<String>)
    ensures
        r is Some <==> weekday_of_day_number(days as int) is Some,
        match r {
            Some(text) => text_of_day_number(days as int) == Some(text@),
            None => text_of_day_number(days as int).is_none(),
        },
{
    match chrono::NaiveDate::from_num_days_from_ce_opt(days) {
        None => None,
        Some(date) => Some(date.to_string()),
    }
}

/// A calendar day, held as its day number in the proleptic Gregorian calendar
/// (January 1 of year 1 is day 1). Every value is a day that the calendar
/// knows, so it has a weekday and a printed form.
#[derive(Clone, Copy, Debug, PartialEq, Eq, Structural)]
pub struct Date {
    days: i32,
}

impl Date {
    #[verifier::type_invariant]
    spec fn known_to_calendar(self) -> bool {
        weekday_of_day_number(self.days as int) is Some
    }

    /// The day number: days counted from January 1 of year 1 as day 1.
    pub closed spec fn day_number(self) -> int {
        self.days as int
    }

    /// The weekday of this day.
    pub open spec fn day_of_week(self) -> Weekday {
        weekday_of_day_number(self.day_number()).unwrap()
    }

    /// The weekly bucket of this day: its day number divided by seven,
    /// rounded down.
    pub open spec fn week_number(self) -> int {
        self.day_number() / 7
    }

    /// Two dates with one day number are one date.
    pub broadcast proof fn lemma_day_number_decides(self, other: Date)
        ensures
            #![trigger self.day_number(), other.day_number()]
            self.day_number() == other.day_number() <==> self == other,
            i32::MIN <= self.day_number() <= i32::MAX,
    {
    }

    /// The date with the given day number, if the calendar has one.
    pub fn from_num_days_from_ce_opt(days: i32) -> (r: Option<Date>)
        ensures
            r is Some <==> weekday_of_day_number(days as int) is Some,
            r matches Some(date) ==> date.day_number() == days,
    {
        match calendar_weekday(days) {
            Some(_) => Some(Date { days }),
            None => None,
        }
    }

    /// The day number: days counted from January 1 of year 1 as day 1.
    pub fn num_days_from_ce(&self) -> (r: i32)
        ensures
            r as int == self.day_number(),
    {
        self.days
    }

    /// The weekday of this day.
    pub fn weekday(&self) -> (r: Weekday)
        ensures
            r == self.day_of_week(),
            weekday_of_day_number(self.day_number()) == Some(r),
    {
        proof {
            use_type_invariant(self);
        }
        match calendar_weekday(self.days) {
            Some(day) => day,
            None => Weekday::Mon,
        }
    }

    /// The weekly bucket of this day: its day number divided by seven,
    /// rounded down.
    pub fn week(&self) -> (r: i32)
        ensures
            r as int == self.week_number(),
    {
        if self.days >= 0 {
            self.days / 7
        } else {
            let r: i32 = (self.days + 1) / 7 - 1;
            r
        }
    }

    /// The date as text, year first.
    pub fn to_string(&self) -> (r: String)
        ensures
            text_of_day_number(self.day_number()) == Some(r@),
    {
        proof {
            use_type_invariant(self);
        }
        match calendar_text(self.days) {
            Some(text) => text,
            None => String::new(),
        }
    }

    /// Whether this day comes before the other.
    pub fn is_before(&self, other: &Date) -> (r: bool)
        ensures
            r == (self.day_number() < other.day_number()),
    {
        self.days < other.days
    }
}

} // verus!

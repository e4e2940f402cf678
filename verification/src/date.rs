//! Calendar dates and the month-partitioned table each date is stored in.

use vstd::prelude::*;
use chrono::Datelike;
use crate::text::{
    append_padded, is_digit, lemma_padded_digits, lemma_padded_injective, padded, pow10,
};

verus! {

/// The `strftime` pattern of the date part of a flow record's timestamp.
pub const DATE_FORMAT: &'static str = "%Y-%m-%d";

/// A day given by year, month and day of month.
pub struct Day {
    pub year: int,
    pub month: int,
    pub day: int,
}

/// Whether February has 29 days in `year`.
pub open spec fn is_leap_year(year: int) -> bool {
    year % 4 == 0 && (year % 100 != 0 || year % 400 == 0)
}

/// Number of days of the month `month` of `year`.
pub open spec fn days_in_month(year: int, month: int) -> int {
    if month == 2 {
        if is_leap_year(year) {
            29
        } else {
            28
        }
    } else if month == 4 || month == 6 || month == 9 || month == 11 {
        30
    } else {
        31
    }
}

impl Day {
    /// A day of the Gregorian calendar in a year of at most four digits.
    pub open spec fn valid(self) -> bool {
        &&& 0 <= self.year <= 9999
        &&& 1 <= self.month <= 12
        &&& 1 <= self.day <= days_in_month(self.year, self.month)
    }
}

/// The day of the given year, month and day of month.
pub open spec fn day_of(year: i32, month: u32, day: u32) -> Day {
    Day { year: year as int, month: month as int, day: day as int }
}

/// A valid calendar date.
#[derive(Clone, Copy, Debug, PartialEq, Eq, Structural)]
pub struct Date {
    year: u16,
    month: u8,
    day: u8,
}

impl View for Date {
    type V = Day;

    closed spec fn view(&self) -> Day {
        Day { year: self.year as int, month: self.month as int, day: self.day as int }
    }
}

impl Date {
    /// Every date is a valid day.
    #[verifier::type_invariant]
    pub open spec fn inv(self) -> bool {
        self@.valid()
    }

    /// The date of the given day, where there is such a day.
    pub fn new(year: i32, month: u32, day: u32) -> (r: Option<Date>)
        ensures
            match r {
                Some(date) => date@ == day_of(year, month, day) && date@.valid(),
                None => !day_of(year, month, day).valid(),
            },
    {
        if year < 0 || year > 9999 || month < 1 || month > 12 || day < 1 {
            return None;
        }
        let leap = year % 4 == 0 && (year % 100 != 0 || year % 400 == 0);
        let last: u32 = if month == 2 {
            if leap {
                29
            } else {
                28
            }
        } else if month == 4 || month == 6 || month == 9 || month == 11 {
            30
        } else {
            31
        };
        if day > last {
            return None;
        }
        Some(Date { year: year as u16, month: month as u8, day: day as u8 })
    }

    /// The year, from 0 to 9999.
    pub fn year(&self) -> (r: u16)
        ensures
            r == self@.year,
            self@.valid(),
    {
        proof {
            use_type_invariant(self);
        }
        self.year
    }

    /// The month, from 1 to 12.
    pub fn month(&self) -> (r: u8)
        ensures
            r == self@.month,
            self@.valid(),
    {
        proof {
            use_type_invariant(self);
        }
        self.month
    }

    /// The day of the month, from 1.
    pub fn day(&self) -> (r: u8)
        ensures
            r == self@.day,
            self@.valid(),
    {
        proof {
            use_type_invariant(self);
        }
        self.day
    }
}

/// What `chrono::NaiveDate::parse_from_str` makes of `text` under the pattern
/// `format`: the year, month and day of the date it finds, or `None` where it
/// reports an error.
pub uninterp spec fn chrono_date(text: Seq<char>, format: Seq<char>) -> Option<(i32, u32, u32)>;

/// Calls `chrono::NaiveDate::parse_from_str` and takes the resulting date
/// apart with `Datelike::year`, `month` and `day`. The parse depends on its
/// two arguments alone; chrono documents the month as ranging from 1 to 12
/// and the day of month from 1 to 31.
#[verifier::external_body]
fn parse_calendar_date(text: &str, format: &str) -> (r: Option<(i32, u32, u32)>)
    ensures
        r == chrono_date(text@, format@),
        r matches Some((_, month, day)) ==> 1 <= month <= 12 && 1 <= day <= 31,
{
    match chrono::NaiveDate::parse_from_str(text, format) {
        Ok(date) => Some((date.year(), date.month(), date.day())),
        Err(_) => None,
    }
}

/// The date that a text of the form `DATE_FORMAT` gives, where it names a
/// valid day.
pub open spec fn date_of_text(text: Seq<char>) -> Option<Day> {
    match chrono_date(text, DATE_FORMAT@) {
        Some((year, month, day)) => {
            let found = day_of(year, month, day);
            if found.valid() {
                Some(found)
            } else {
                None
            }
        },
        None => None,
    }
}

/// Reads a date written as year, month and day.
pub fn read_date(text: &str) -> (r: Option<Date>)
    ensures
        match r {
            Some(date) => date_of_text(text@) == Some(date@),
            None => date_of_text(text@) is None,
        },
{
    match parse_calendar_date(text, DATE_FORMAT) {
        Some((year, month, day)) => Date::new(year, month, day),
        None => None,
    }
}

/// Name of the table that holds the rows of one month.
pub open spec fn table_name(year: int, month: int) -> Seq<char> {
    seq!['n', 'f', '_'] + padded(year as nat, 4) + seq!['_'] + padded(month as nat, 2)
}

/// Name of the table for the month `month` of `year`.
pub fn month_table(year: u16, month: u8) -> (name: String)
    ensures
        name@ == table_name(year as int, month as int),
{
    let mut name = String::from_str("nf_");
    proof {
        reveal_strlit("nf_");
        reveal_strlit("_");
        assert(name@ =~= seq!['n', 'f', '_']);
    }
    append_padded(&mut name, year as u32, 4);
    name.append("_");
    append_padded(&mut name, month as u32, 2);
    assert(name@ =~= table_name(year as int, month as int));
    name
}

/// Name of the table that rows dated `date` are stored in.
pub fn route_table(date: &Date) -> (name: String)
    ensures
        name@ == table_name(date@.year, date@.month),
{
    month_table(date.year(), date.month())
}

/// A table name is `nf_`, four digits, `_` and two digits: it holds nothing
/// that a statement could take for anything but a name.
pub proof fn lemma_table_name_shape(year: int, month: int)
    ensures
        table_name(year, month).len() == 10,
        table_name(year, month).subrange(0, 3) == seq!['n', 'f', '_'],
        table_name(year, month)[7] == '_',
        forall|i: int|
            3 <= i < 7 || 8 <= i < 10 ==> is_digit(#[trigger] table_name(year, month)[i]),
{
    let name = table_name(year, month);
    let y = padded(year as nat, 4);
    let m = padded(month as nat, 2);
    lemma_padded_digits(year as nat, 4);
    lemma_padded_digits(month as nat, 2);
    assert(name.subrange(0, 3) =~= seq!['n', 'f', '_']);
    assert forall|i: int| 3 <= i < 7 || 8 <= i < 10 implies is_digit(#[trigger] name[i]) by {
        if i < 7 {
            assert(name[i] == y[i - 3]);
        } else {
            assert(name[i] == m[i - 8]);
        }
    }
}

/// Two days of one month of one year are stored in the same table, whatever
/// their days of month.
pub proof fn lemma_same_month_same_table(a: Day, b: Day)
    requires
        a.year == b.year,
        a.month == b.month,
    ensures
        table_name(a.year, a.month) == table_name(b.year, b.month),
{
}

/// Days of different months, or of different years, are stored in different
/// tables.
pub proof fn lemma_other_month_other_table(a: Day, b: Day)
    requires
        a.valid(),
        b.valid(),
        table_name(a.year, a.month) == table_name(b.year, b.month),
    ensures
        a.year == b.year,
        a.month == b.month,
{
    let ta = table_name(a.year, a.month);
    let tb = table_name(b.year, b.month);
    let ya = padded(a.year as nat, 4);
    let yb = padded(b.year as nat, 4);
    let ma = padded(a.month as nat, 2);
    let mb = padded(b.month as nat, 2);
    lemma_padded_digits(a.year as nat, 4);
    lemma_padded_digits(b.year as nat, 4);
    lemma_padded_digits(a.month as nat, 2);
    lemma_padded_digits(b.month as nat, 2);
    assert(ya == ta.subrange(3, 7));
    assert(yb == tb.subrange(3, 7));
    assert(ma == ta.subrange(8, 10));
    assert(mb == tb.subrange(8, 10));
    assert(pow10(4) == 10000 && pow10(2) == 100) by {
        reveal_with_fuel(pow10, 5);
    }
    lemma_padded_injective(a.year as nat, b.year as nat, 4);
    lemma_padded_injective(a.month as nat, b.month as nat, 2);
}

} // verus!

//! Dates as text: the form `dd/mm/yyyy` in which dates are written, and the
//! reading of a date out of that form.

use vstd::prelude::*;
use vstd::string::StringExecFns;
use crate::models::CalendarDate;
use crate::text::{decimal, push_decimal, push_two_digits, two_digits};

verus! {

/// The form in which dates are written: day, month and year between slashes.
pub const DATE_FORMAT: &'static str = "[day]/[month]/[year]";

/// What reading `text` as a date of the form `format` gives: year, month and
/// day, or nothing where `text` is not a date of that form.
pub uninterp spec fn date_reading(text: Seq<char>, format: Seq<char>) -> Option<(int, int, int)>;

/// The date that `text` holds in the form `dd/mm/yyyy`, if it holds one.
pub open spec fn date_in(text: Seq<char>) -> Option<CalendarDate> {
    match date_reading(text, DATE_FORMAT@) {
        Some((year, month, day)) => Some(
            CalendarDate { year: year as i32, month: month as u8, day: day as u8 },
        ),
        None => None,
    }
}

/// A day, a month and a year written as `dd/mm/yyyy`: day and month with at
/// least two digits, the year with as many as it has.
pub open spec fn date_text(day: nat, month: nat, year: nat) -> Seq<char> {
    two_digits(day) + seq!['/'] + two_digits(month) + seq!['/'] + decimal(year)
}

/// Reads `text` with `time::Date::parse`, under the format description that
/// `time::format_description::parse_borrowed::<1>` makes of `format`, which
/// is the form `dd/mm/yyyy`. Nothing comes back where the text is not a date
/// of that form. The reading depends on the two texts alone; the month of a
/// date read is one of the twelve and its day one of at most thirty-one.
#[verifier::external_body]
fn read_date(text: &str, format: &str) -> (r: Option<CalendarDate>)
    requires
        format@ == DATE_FORMAT@,
    ensures
        match r {
            Some(date) => date_reading(text@, format@) == Some(
                (date.year as int, date.month as int, date.day as int),
            ) && date.in_range(),
            None => date_reading(text@, format@) is None,
        },
{
    let description = time::format_description::parse_borrowed::<1>(format).ok()?;
    let date = time::Date::parse(text, &description).ok()?;
    Some(CalendarDate { year: date.year(), month: u8::from(date.month()), day: date.day() })
}

/// Reads a date written as `dd/mm/yyyy`.
pub fn parse_date(text: &str) -> (r: Option<CalendarDate>)
    ensures
        r == date_in(text@),
        r matches Some(date) ==> date.in_range(),
{
    read_date(text, DATE_FORMAT)
}

/// Writes a day, a month and a year as `dd/mm/yyyy`.
pub fn normalized_date_text(day: usize, month: usize, year: usize) -> (r: String)
    ensures
        r@ == date_text(day as nat, month as nat, year as nat),
{
    proof {
        reveal_strlit("/");
    }
    let mut out: String = String::new();
    push_two_digits(&mut out, day as u64);
    out.append("/");
    push_two_digits(&mut out, month as u64);
    out.append("/");
    push_decimal(&mut out, year as u64);
    assert(out@ =~= date_text(day as nat, month as nat, year as nat));
    out
}

/// The date with the given day, month and year: written as `dd/mm/yyyy` and
/// read back, so that what is no date of the calendar gives nothing.
pub fn date_from_parts(day: usize, month: usize, year: usize) -> (r: Option<CalendarDate>)
    ensures
        r == date_in(date_text(day as nat, month as nat, year as nat)),
        r matches Some(date) ==> date.in_range(),
{
    let text: String = normalized_date_text(day, month, year);
    parse_date(text.as_str())
}

} // verus!

use vstd::prelude::*;
use chrono::Datelike;
use crate::record::DayMetrics;
use crate::weekday::{parse_weekday_name, parse_weekday_name_spec, weekday_at, weekday_from_index, Weekday};

verus! {

/// A calendar date in the proleptic Gregorian calendar.
#[derive(Clone, Copy, Debug, PartialEq, Eq, Structural)]
pub struct CalendarDate {
    pub year: i32,
    pub month: u32,
    pub day: u32,
}

impl CalendarDate {
    pub open spec fn triple(self) -> (int, int, int) {
        (self.year as int, self.month as int, self.day as int)
    }
}

/// Days from a fixed origin to a Gregorian date (March-based year count).
pub open spec fn day_number(y: int, m: int, d: int) -> int {
    let yy = if m <= 2 { y - 1 } else { y };
    let mm = if m <= 2 { m + 12 } else { m };
    365 * yy + yy / 4 - yy / 100 + yy / 400 + (153 * (mm - 3) + 2) / 5 + d
}

/// Position of a date's weekday in the week, Monday being 0.
pub open spec fn weekday_number(y: int, m: int, d: int) -> int {
    (day_number(y, m, d) + 1) % 7
}

/// The date that `chrono::NaiveDate::parse_from_str` reads from a text under
/// a format, as (year, month, day).
pub uninterp spec fn chrono_parse(value: Seq<char>, format: Seq<char>) -> Option<(int, int, int)>;

/// Relies on `chrono::NaiveDate::parse_from_str` to read a date under a format,
/// and on `Datelike::weekday` with `Weekday::num_days_from_monday` for its
/// weekday. A `NaiveDate` always holds a valid Gregorian date.
#[verifier::external_body]
fn parse_with_format(value: &str, format: &str) -> (r: Option<(CalendarDate, u32)>)
    ensures
        match r {
            Some((d, w)) => {
                &&& chrono_parse(value@, format@) == Some(d.triple())
                &&& 1 <= d.month <= 12
                &&& 1 <= d.day <= 31
                &&& w as int == weekday_number(d.year as int, d.month as int, d.day as int)
            },
            None => chrono_parse(value@, format@) is None,
        },
{
    match chrono::NaiveDate::parse_from_str(value, format) {
        Ok(d) => Some((
            CalendarDate { year: d.year(), month: d.month(), day: d.day() },
            d.weekday().num_days_from_monday(),
        )),
        Err(_) => None,
    }
}

/// The date a text holds: the first of `YYYY-MM-DD`, `MM/DD/YYYY` and
/// `DD/MM/YYYY` under which it parses.
pub open spec fn parse_calendar_date_spec(s: Seq<char>) -> Option<(int, int, int)> {
    if chrono_parse(s, "%Y-%m-%d"@) is Some {
        chrono_parse(s, "%Y-%m-%d"@)
    } else if chrono_parse(s, "%m/%d/%Y"@) is Some {
        chrono_parse(s, "%m/%d/%Y"@)
    } else {
        chrono_parse(s, "%d/%m/%Y"@)
    }
}

fn parse_date_and_weekday(value: &str) -> (r: Option<(CalendarDate, u32)>)
    ensures
        match r {
            Some((d, w)) => {
                &&& parse_calendar_date_spec(value@) == Some(d.triple())
                &&& 1 <= d.month <= 12
                &&& 1 <= d.day <= 31
                &&& w as int == weekday_number(d.year as int, d.month as int, d.day as int)
            },
            None => parse_calendar_date_spec(value@) is None,
        },
{
    let first = parse_with_format(value, "%Y-%m-%d");
    if first.is_some() {
        return first;
    }
    let second = parse_with_format(value, "%m/%d/%Y");
    if second.is_some() {
        return second;
    }
    parse_with_format(value, "%d/%m/%Y")
}

/// Reads a date written as `YYYY-MM-DD`, `MM/DD/YYYY` or `DD/MM/YYYY`, trying
/// the formats in that order.
pub fn parse_calendar_date(value: &str) -> (r: Option<CalendarDate>)
    ensures
        match r {
            Some(d) => parse_calendar_date_spec(value@) == Some(d.triple()) && 1 <= d.month <= 12
                && 1 <= d.day <= 31,
            None => parse_calendar_date_spec(value@) is None,
        },
{
    match parse_date_and_weekday(value) {
        Some((d, _)) => Some(d),
        None => None,
    }
}

/// The weekday of a day record: the one its date falls on where the date
/// parses, else the one its weekday label names.
pub open spec fn determine_weekday_spec(date: Seq<char>, label: Seq<char>) -> Option<Weekday> {
    match parse_calendar_date_spec(date) {
        Some(t) => Some(weekday_at(weekday_number(t.0, t.1, t.2))),
        None => parse_weekday_name_spec(label),
    }
}

/// The weekday of a day record, its date taking precedence over its label.
pub fn determine_weekday(day: &DayMetrics) -> (r: Option<Weekday>)
    ensures
        r == determine_weekday_spec(day.calendar_date@, day.weekday@),
{
    match parse_date_and_weekday(day.calendar_date.as_str()) {
        Some((_, w)) => Some(weekday_from_index(w)),
        None => parse_weekday_name(day.weekday.as_str()),
    }
}

/// Where the date parses, the weekday is the one it falls on, whatever the
/// label says.
pub proof fn lemma_date_beats_label(date: Seq<char>, label: Seq<char>)
    requires
        parse_calendar_date_spec(date) is Some,
    ensures
        ({
            let t = parse_calendar_date_spec(date)->0;
            determine_weekday_spec(date, label) == Some(weekday_at(weekday_number(t.0, t.1, t.2)))
        }),
{
}

/// Chronological order on (year, month, day).
pub open spec fn date_less(a: (int, int, int), b: (int, int, int)) -> bool {
    a.0 < b.0 || (a.0 == b.0 && (a.1 < b.1 || (a.1 == b.1 && a.2 < b.2)))
}

pub fn date_before(a: CalendarDate, b: CalendarDate) -> (r: bool)
    ensures
        r == date_less(a.triple(), b.triple()),
{
    a.year < b.year || (a.year == b.year && (a.month < b.month || (a.month == b.month && a.day
        < b.day)))
}

} // verus!

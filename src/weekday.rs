use vstd::prelude::*;
use crate::text::{lowercase_str, lowercased, same_text, trim_str, trimmed};

verus! {

/// A day of the week, Monday first.
#[derive(Clone, Copy, Debug, PartialEq, Eq, Structural)]
pub enum Weekday {
    Mon,
    Tue,
    Wed,
    Thu,
    Fri,
    Sat,
    Sun,
}

/// Position in the week, counted from Monday as 0.
pub open spec fn weekday_index(w: Weekday) -> int {
    match w {
        Weekday::Mon => 0,
        Weekday::Tue => 1,
        Weekday::Wed => 2,
        Weekday::Thu => 3,
        Weekday::Fri => 4,
        Weekday::Sat => 5,
        Weekday::Sun => 6,
    }
}

/// The weekday at a position counted from Monday as 0.
pub open spec fn weekday_at(i: int) -> Weekday {
    if i == 0 {
        Weekday::Mon
    } else if i == 1 {
        Weekday::Tue
    } else if i == 2 {
        Weekday::Wed
    } else if i == 3 {
        Weekday::Thu
    } else if i == 4 {
        Weekday::Fri
    } else if i == 5 {
        Weekday::Sat
    } else {
        Weekday::Sun
    }
}

/// The weekday at position `i` (Monday is 0).
pub fn weekday_from_index(i: u32) -> (r: Weekday)
    requires
        i < 7,
    ensures
        r == weekday_at(i as int),
        weekday_index(r) == i,
{
    if i == 0 {
        Weekday::Mon
    } else if i == 1 {
        Weekday::Tue
    } else if i == 2 {
        Weekday::Wed
    } else if i == 3 {
        Weekday::Thu
    } else if i == 4 {
        Weekday::Fri
    } else if i == 5 {
        Weekday::Sat
    } else {
        Weekday::Sun
    }
}

/// The position of `w` in the week (Monday is 0).
pub fn weekday_position(w: Weekday) -> (r: usize)
    ensures
        r == weekday_index(w),
        r < 7,
        weekday_at(r as int) == w,
{
    match w {
        Weekday::Mon => 0,
        Weekday::Tue => 1,
        Weekday::Wed => 2,
        Weekday::Thu => 3,
        Weekday::Fri => 4,
        Weekday::Sat => 5,
        Weekday::Sun => 6,
    }
}

/// The weekday that an already trimmed, lower-case name stands for.
pub open spec fn weekday_of_name(s: Seq<char>) -> Option<Weekday> {
    if s == "mon"@ || s == "monday"@ {
        Some(Weekday::Mon)
    } else if s == "tue"@ || s == "tues"@ || s == "tuesday"@ {
        Some(Weekday::Tue)
    } else if s == "wed"@ || s == "wednesday"@ {
        Some(Weekday::Wed)
    } else if s == "thu"@ || s == "thur"@ || s == "thurs"@ || s == "thursday"@ {
        Some(Weekday::Thu)
    } else if s == "fri"@ || s == "friday"@ {
        Some(Weekday::Fri)
    } else if s == "sat"@ || s == "saturday"@ {
        Some(Weekday::Sat)
    } else if s == "sun"@ || s == "sunday"@ {
        Some(Weekday::Sun)
    } else {
        None
    }
}

/// Reads an already trimmed, lower-case weekday name or abbreviation.
pub fn weekday_from_normalized(s: &str) -> (r: Option<Weekday>)
    ensures
        r == weekday_of_name(s@),
{
    if same_text(s, "mon") || same_text(s, "monday") {
        Some(Weekday::Mon)
    } else if same_text(s, "tue") || same_text(s, "tues") || same_text(s, "tuesday") {
        Some(Weekday::Tue)
    } else if same_text(s, "wed") || same_text(s, "wednesday") {
        Some(Weekday::Wed)
    } else if same_text(s, "thu") || same_text(s, "thur") || same_text(s, "thurs")
        || same_text(s, "thursday") {
        Some(Weekday::Thu)
    } else if same_text(s, "fri") || same_text(s, "friday") {
        Some(Weekday::Fri)
    } else if same_text(s, "sat") || same_text(s, "saturday") {
        Some(Weekday::Sat)
    } else if same_text(s, "sun") || same_text(s, "sunday") {
        Some(Weekday::Sun)
    } else {
        None
    }
}

/// The weekday that free text names, ignoring case and surrounding space.
pub open spec fn parse_weekday_name_spec(s: Seq<char>) -> Option<Weekday> {
    weekday_of_name(lowercased(trimmed(s)))
}

/// Reads a weekday name or abbreviation (`mon`, `Tuesday`, ` THURS `).
pub fn parse_weekday_name(value: &str) -> (r: Option<Weekday>)
    ensures
        r == parse_weekday_name_spec(value@),
{
    let normalized = lowercase_str(trim_str(value));
    weekday_from_normalized(normalized.as_str())
}

/// The full English name of a weekday.
pub fn weekday_display_name(weekday: Weekday) -> (r: &'static str)
    ensures
        r@ == display_name(weekday),
{
    match weekday {
        Weekday::Mon => "Monday",
        Weekday::Tue => "Tuesday",
        Weekday::Wed => "Wednesday",
        Weekday::Thu => "Thursday",
        Weekday::Fri => "Friday",
        Weekday::Sat => "Saturday",
        Weekday::Sun => "Sunday",
    }
}

pub open spec fn display_name(w: Weekday) -> Seq<char> {
    match w {
        Weekday::Mon => "Monday"@,
        Weekday::Tue => "Tuesday"@,
        Weekday::Wed => "Wednesday"@,
        Weekday::Thu => "Thursday"@,
        Weekday::Fri => "Friday"@,
        Weekday::Sat => "Saturday"@,
        Weekday::Sun => "Sunday"@,
    }
}

} // verus!

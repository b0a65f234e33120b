use vstd::prelude::*;
use vstd::string::*;
use crate::columns::{texts, ColumnLookup};
use crate::number::{decimal_micros, parse_micros};
use crate::text::{trim_str, trimmed};

verus! {

/// One participant-day observation. Durations are in millionths of a
/// minute.
#[derive(Clone, Debug)]
pub struct DayMetrics {
    pub id: String,
    pub calendar_date: String,
    pub weekday: String,
    pub total_in_min: i64,
    pub total_lig_min: i64,
    pub total_mod_min: i64,
    pub total_vig_min: i64,
    pub sleep_minutes: i64,
}

impl DayMetrics {
    /// Duration number `f`: sleep, inactive, light, moderate, vigorous.
    pub open spec fn field(self, f: int) -> int {
        if f == 0 {
            self.sleep_minutes as int
        } else if f == 1 {
            self.total_in_min as int
        } else if f == 2 {
            self.total_lig_min as int
        } else if f == 3 {
            self.total_mod_min as int
        } else {
            self.total_vig_min as int
        }
    }
}

/// Why a row was left out: the column named had no value, or its value was
/// not a number.
#[derive(Clone, Debug)]
pub enum RowSkip {
    MissingValue(String),
    ParseError(String),
}

impl RowSkip {
    /// The column named, and whether its value was missing (rather than
    /// malformed).
    pub open spec fn view(self) -> (Seq<char>, bool) {
        match self {
            RowSkip::MissingValue(c) => (c@, true),
            RowSkip::ParseError(c) => (c@, false),
        }
    }
}

/// The cell at `index` has a value other than white space.
pub open spec fn has_value(rec: Seq<Seq<char>>, index: int) -> bool {
    0 <= index < rec.len() && trimmed(rec[index]).len() > 0
}

/// The cell at `index` holds a number.
pub open spec fn has_number(rec: Seq<Seq<char>>, index: int) -> bool {
    has_value(rec, index) && decimal_micros(trimmed(rec[index])) is Some
}

pub open spec fn number_at(rec: Seq<Seq<char>>, index: int) -> int {
    decimal_micros(trimmed(rec[index]))->0
}

/// The problem with a numeric cell, if any.
pub open spec fn number_problem(rec: Seq<Seq<char>>, index: int, name: Seq<char>) -> Option<
    (Seq<char>, bool),
> {
    if !has_value(rec, index) {
        Some((name, true))
    } else if !has_number(rec, index) {
        Some((name, false))
    } else {
        None
    }
}

/// The first problem of a row, checking the text fields and then the
/// durations in the order of the day record.
pub open spec fn first_problem(rec: Seq<Seq<char>>, c: ColumnLookup) -> Option<(Seq<char>, bool)> {
    if !has_value(rec, c.id as int) {
        Some(("ID"@, true))
    } else if !has_value(rec, c.calendar_date as int) {
        Some(("calendar_date"@, true))
    } else if !has_value(rec, c.weekday as int) {
        Some(("weekday"@, true))
    } else if number_problem(rec, c.total_durations[0] as int, "dur_day_total_IN_min"@) is Some {
        number_problem(rec, c.total_durations[0] as int, "dur_day_total_IN_min"@)
    } else if number_problem(rec, c.total_durations[1] as int, "dur_day_total_LIG_min"@) is Some {
        number_problem(rec, c.total_durations[1] as int, "dur_day_total_LIG_min"@)
    } else if number_problem(rec, c.total_durations[2] as int, "dur_day_total_MOD_min"@) is Some {
        number_problem(rec, c.total_durations[2] as int, "dur_day_total_MOD_min"@)
    } else if number_problem(rec, c.total_durations[3] as int, "dur_day_total_VIG_min"@) is Some {
        number_problem(rec, c.total_durations[3] as int, "dur_day_total_VIG_min"@)
    } else {
        number_problem(rec, c.sleep_minutes as int, "dur_spt_min"@)
    }
}

/// `d` is the day record of a row without problems: its texts trimmed and
/// its durations read.
pub open spec fn row_gives(rec: Seq<Seq<char>>, c: ColumnLookup, d: DayMetrics) -> bool {
    &&& d.id@ == trimmed(rec[c.id as int])
    &&& d.calendar_date@ == trimmed(rec[c.calendar_date as int])
    &&& d.weekday@ == trimmed(rec[c.weekday as int])
    &&& d.total_in_min == number_at(rec, c.total_durations[0] as int)
    &&& d.total_lig_min == number_at(rec, c.total_durations[1] as int)
    &&& d.total_mod_min == number_at(rec, c.total_durations[2] as int)
    &&& d.total_vig_min == number_at(rec, c.total_durations[3] as int)
    &&& d.sleep_minutes == number_at(rec, c.sleep_minutes as int)
}

/// The trimmed text of a cell, where it has a value.
pub fn required_string_field(record: &Vec<String>, index: usize) -> (r: Option<String>)
    ensures
        match r {
            Some(v) => has_value(texts(record@), index as int) && v@ == trimmed(
                texts(record@)[index as int],
            ),
            None => !has_value(texts(record@), index as int),
        },
{
    if index >= record.len() {
        return None;
    }
    let t = trim_str(record[index].as_str());
    if t.unicode_len() == 0 {
        None
    } else {
        Some(String::from_str(t))
    }
}

/// The number of millionths of a minute in a cell.
pub fn parse_duration_field(record: &Vec<String>, index: usize, column_name: &str) -> (r: Result<
    i64,
    RowSkip,
>)
    ensures
        match r {
            Ok(v) => number_problem(texts(record@), index as int, column_name@) is None && v
                == number_at(texts(record@), index as int),
            Err(e) => number_problem(texts(record@), index as int, column_name@) == Some(e.view()),
        },
{
    if index >= record.len() {
        return Err(RowSkip::MissingValue(String::from_str(column_name)));
    }
    let t = trim_str(record[index].as_str());
    if t.unicode_len() == 0 {
        return Err(RowSkip::MissingValue(String::from_str(column_name)));
    }
    match parse_micros(t) {
        Some(v) => Ok(v),
        None => Err(RowSkip::ParseError(String::from_str(column_name))),
    }
}

/// Builds the day record of a row, or names the first field that keeps it
/// out.
pub fn extract_metrics_from_record(record: &Vec<String>, columns: &ColumnLookup) -> (r: Result<
    DayMetrics,
    RowSkip,
>)
    ensures
        match r {
            Ok(d) => first_problem(texts(record@), *columns) is None && row_gives(
                texts(record@),
                *columns,
                d,
            ),
            Err(e) => first_problem(texts(record@), *columns) == Some(e.view()),
        },
{
    let id = match required_string_field(record, columns.id) {
        Some(v) => v,
        None => return Err(RowSkip::MissingValue(String::from_str("ID"))),
    };
    let calendar_date = match required_string_field(record, columns.calendar_date) {
        Some(v) => v,
        None => return Err(RowSkip::MissingValue(String::from_str("calendar_date"))),
    };
    let weekday = match required_string_field(record, columns.weekday) {
        Some(v) => v,
        None => return Err(RowSkip::MissingValue(String::from_str("weekday"))),
    };
    let total_in_min = parse_duration_field(
        record,
        columns.total_durations[0],
        "dur_day_total_IN_min",
    )?;
    let total_lig_min = parse_duration_field(
        record,
        columns.total_durations[1],
        "dur_day_total_LIG_min",
    )?;
    let total_mod_min = parse_duration_field(
        record,
        columns.total_durations[2],
        "dur_day_total_MOD_min",
    )?;
    let total_vig_min = parse_duration_field(
        record,
        columns.total_durations[3],
        "dur_day_total_VIG_min",
    )?;
    let sleep_minutes = parse_duration_field(record, columns.sleep_minutes, "dur_spt_min")?;
    Ok(
        DayMetrics {
            id,
            calendar_date,
            weekday,
            total_in_min,
            total_lig_min,
            total_mod_min,
            total_vig_min,
            sleep_minutes,
        },
    )
}

} // verus!

//! Calendar time of a record, held as plain values. Reading a date from
//! text, writing it as text and reading the clock are chrono's work, behind
//! the wrappers below.
use vstd::prelude::*;
use chrono::{Datelike, Timelike};

verus! {

/// A point in time in UTC, field by field as chrono's `DateTime<Utc>`
/// gives them.
#[derive(Debug, Clone, Copy, PartialEq, Eq, Structural)]
pub struct FuelDate {
    pub year: i32,
    pub month: u32,
    pub day: u32,
    pub hour: u32,
    pub minute: u32,
    pub second: u32,
    pub nanosecond: u32,
}

/// What `chrono::NaiveDateTime::parse_from_str(text, "%Y.%m.%d %H:%M")`
/// yields for `text`, read into plain fields (`None` where chrono returns an
/// error). It depends on the text alone.
pub uninterp spec fn chrono_date(text: Seq<char>) -> Option<FuelDate>;

/// Calls `chrono::NaiveDateTime::parse_from_str` with the record format
/// `"%Y.%m.%d %H:%M"` and reads the result into a `FuelDate` (the value is
/// then taken as UTC, as `and_utc` does, which changes no field). The
/// contract claims only that the result is chrono's, named `chrono_date`.
#[verifier::external_body]
pub fn parse_date_time(text: &str) -> (r: Option<FuelDate>)
    ensures
        r == chrono_date(text@),
{
    match chrono::NaiveDateTime::parse_from_str(text, "%Y.%m.%d %H:%M") {
        Ok(n) => Some(
            FuelDate {
                year: n.year(),
                month: n.month(),
                day: n.day(),
                hour: n.hour(),
                minute: n.minute(),
                second: n.second(),
                nanosecond: n.nanosecond(),
            },
        ),
        Err(_) => None,
    }
}

/// What chrono writes for the date `d` in the format `fmt`
/// (`NaiveDateTime::format(fmt).to_string()`), or `None` where the fields
/// are no date chrono can hold. It depends on its arguments alone.
pub uninterp spec fn chrono_format(d: FuelDate, fmt: Seq<char>) -> Option<Seq<char>>;

/// The date format of a saved record line.
pub open spec fn record_date_format() -> Seq<char> {
    "%Y.%m.%d %H:%M"@
}

/// The date format of a displayed record.
pub open spec fn display_date_format() -> Seq<char> {
    "%Y-%m-%d %H:%M:%S"@
}

/// Calls `chrono::NaiveDate::from_ymd_opt`, `and_hms_nano_opt` and
/// `format(fmt).to_string()` on the fields of `d`. The contract claims only
/// that the result is chrono's, named `chrono_format`; it asks for one of the
/// two formats this library writes, which chrono accepts.
#[verifier::external_body]
pub fn format_date_time(d: &FuelDate, fmt: &str) -> (r: Option<String>)
    requires
        fmt@ == record_date_format() || fmt@ == display_date_format(),
    ensures
        r matches Some(t) ==> chrono_format(*d, fmt@) == Some(t@),
        r is None ==> chrono_format(*d, fmt@) is None,
{
    match chrono::NaiveDate::from_ymd_opt(d.year, d.month, d.day) {
        Some(day) => match day.and_hms_nano_opt(d.hour, d.minute, d.second, d.nanosecond) {
            Some(t) => Some(t.format(fmt).to_string()),
            None => None,
        },
        None => None,
    }
}

/// What chrono's `Display` of `DateTime<Utc>` writes for the date `d`
/// (such as `2024-06-01 12:00:00 UTC`), or `None` where the fields are no
/// date chrono can hold. It depends on the date alone.
pub uninterp spec fn chrono_display(d: FuelDate) -> Option<Seq<char>>;

/// Calls `chrono::NaiveDate::from_ymd_opt`, `and_hms_nano_opt`, `and_utc`
/// and `to_string` (the `Display` of `DateTime<Utc>`) on the fields of `d`.
/// The contract claims only that the result is chrono's, named
/// `chrono_display`.
#[verifier::external_body]
pub fn display_date_time(d: &FuelDate) -> (r: Option<String>)
    ensures
        r matches Some(t) ==> chrono_display(*d) == Some(t@),
        r is None ==> chrono_display(*d) is None,
{
    match chrono::NaiveDate::from_ymd_opt(d.year, d.month, d.day) {
        Some(day) => match day.and_hms_nano_opt(d.hour, d.minute, d.second, d.nanosecond) {
            Some(t) => Some(t.and_utc().to_string()),
            None => None,
        },
        None => None,
    }
}

/// The text that a table shows for the date `d`: chrono's display of it,
/// or nothing where the fields are no date.
pub open spec fn table_text_spec(d: FuelDate) -> Seq<char> {
    match chrono_display(d) {
        Some(t) => t,
        None => Seq::empty(),
    }
}

impl FuelDate {
    /// The date as a table shows it: chrono's display of it (for example
    /// `2024-06-01 12:00:00 UTC`), or an empty text where the fields are no
    /// date.
    pub fn table_text(&self) -> (t: String)
        ensures
            t@ == table_text_spec(*self),
    {
        match display_date_time(self) {
            Some(t) => t,
            None => String::new(),
        }
    }

    /// The current time, from `chrono::Utc::now()`. Of the value it is
    /// claimed only that its fields are a date chrono can hold (they are read
    /// from a `DateTime<Utc>`), so that chrono can write it: which time it
    /// is, is whatever the clock reads.
    #[verifier::external_body]
    pub fn now() -> (d: FuelDate)
        ensures
            chrono_format(d, record_date_format()) is Some,
            chrono_format(d, display_date_format()) is Some,
            chrono_display(d) is Some,
    {
        let t = chrono::Utc::now();
        FuelDate {
            year: t.year(),
            month: t.month(),
            day: t.day(),
            hour: t.hour(),
            minute: t.minute(),
            second: t.second(),
            nanosecond: t.nanosecond(),
        }
    }
}

} // verus!

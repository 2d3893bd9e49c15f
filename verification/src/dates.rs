//! Parsing of date-entry text. The chart epoch is midnight at the start of
//! the chart's first day (the first of March 2025); timestamps are minutes
//! relative to it. The calendar arithmetic itself is delegated to the
//! `chrono` crate behind a trusted wrapper; everything downstream works on
//! the plain minute values it returns.

use vstd::prelude::*;

verus! {

/// The minute value denoted by a date-entry text in the fixed
/// `year-month-dayThour:minute` form, relative to the chart epoch, or
/// nothing when the text does not parse. The result depends on the text
/// alone.
pub uninterp spec fn datetime_input_minutes(s: Seq<char>) -> Option<i64>;

/// Relies on chrono's `NaiveDateTime::parse_from_str` with the fixed format
/// `"%Y-%m-%dT%H:%M"`, and on `NaiveDateTime::signed_duration_since` /
/// `TimeDelta::num_minutes` to express the parsed calendar point as whole
/// minutes from the chart epoch. All three are pure calendar arithmetic:
/// the result depends on the input text alone.
#[verifier::external_body]
pub(crate) fn parse_datetime_input(s: &str) -> (r: Option<i64>)
    ensures
        r == datetime_input_minutes(s@),
{
    let epoch = chrono::NaiveDate::from_ymd_opt(2025, 3, 1).and_then(
        |d| d.and_hms_opt(0, 0, 0),
    );
    match (chrono::NaiveDateTime::parse_from_str(s, "%Y-%m-%dT%H:%M"), epoch) {
        (Ok(dt), Some(e)) => Some(dt.signed_duration_since(e).num_minutes()),
        _ => None,
    }
}

} // verus!

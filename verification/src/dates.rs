//! Calendar dates as days since the Common Era (`Datelike::num_days_from_ce`),
//! which orders dates as the calendar does; parsing is `chrono`'s.
use chrono::{Datelike, NaiveDate};
use std::str::FromStr;
use vstd::prelude::*;

verus! {

/// The day `NaiveDate::from_str` reads from `text` (the form a JSON date takes).
pub uninterp spec fn iso_date(text: Seq<char>) -> Option<i32>;

/// The day `NaiveDate::parse_from_str(text, "%Y-%m-%d")` reads from `text`.
pub uninterp spec fn ymd_date(text: Seq<char>) -> Option<i32>;

/// Reads a date with `NaiveDate::from_str`.
#[verifier::external_body]
pub(crate) fn parse_iso_date(text: &str) -> (r: Option<i32>)
    ensures
        r == iso_date(text@),
{
    NaiveDate::from_str(text).ok().map(|d| d.num_days_from_ce())
}

/// Reads a date in the `%Y-%m-%d` format with `NaiveDate::parse_from_str`.
#[verifier::external_body]
pub(crate) fn parse_ymd_date(text: &str) -> (r: Option<i32>)
    ensures
        r == ymd_date(text@),
{
    NaiveDate::parse_from_str(text, "%Y-%m-%d").ok().map(|d| d.num_days_from_ce())
}

} // verus!

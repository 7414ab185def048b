//! Calendar dates, read by the `chrono` crate.

use vstd::prelude::*;

verus! {

#[verifier::external_type_specification]
#[verifier::external_body]
pub struct ExNaiveDate(chrono::NaiveDate);

#[verifier::external_type_specification]
#[verifier::external_body]
pub struct ExParseError(chrono::ParseError);

/// The date that `chrono::NaiveDate::parse_from_str` reads in `text` by
/// `format`, if it reads one.
pub uninterp spec fn date_of(text: Seq<char>, format: Seq<char>) -> Option<chrono::NaiveDate>;

/// The format of a date as year, month and day with hyphens between them.
pub open spec fn iso_format() -> Seq<char> {
    "%Y-%m-%d"@
}

/// Calls `chrono::NaiveDate::parse_from_str`. Trusted: it returns the date
/// that [`date_of`] names, and an error exactly where there is none.
#[verifier::external_body]
fn parse_from_str(text: &str, format: &str) -> (date: Result<chrono::NaiveDate, chrono::ParseError>)
    ensures
        match date {
            Ok(date) => date_of(text@, format@) == Some(date),
            Err(_) => date_of(text@, format@) is None,
        },
{
    chrono::NaiveDate::parse_from_str(text, format)
}

/// The date that `text` writes as year, month and day.
pub fn parse_iso_date(text: &str) -> (date: Result<chrono::NaiveDate, chrono::ParseError>)
    ensures
        match date {
            Ok(date) => date_of(text@, iso_format()) == Some(date),
            Err(_) => date_of(text@, iso_format()) is None,
        },
{
    parse_from_str(text, "%Y-%m-%d")
}

} // verus!

//! Regular expressions, matched by the `regex` crate.
//!
//! What an expression matches in a text is not defined here: it is named, by
//! [`first_match`] and [`all_matches`], and the functions that call the
//! `regex` crate say that they return what those names stand for.

use vstd::prelude::*;
use crate::error::{missing, Error};

verus! {

#[verifier::external_type_specification]
#[verifier::external_body]
pub struct ExRegex(regex::Regex);

/// The expression that `regex::Regex::new` makes of `pattern`, if it accepts
/// it.
pub uninterp spec fn compiled(pattern: Seq<char>) -> Option<regex::Regex>;

/// The groups of the leftmost match of `regex` in `text`, as
/// `regex::Regex::captures` finds them: group 0 is the whole match, the others
/// are numbered by their opening parenthesis, and a group that took no part
/// in the match has no text.
pub uninterp spec fn first_match(regex: regex::Regex, text: Seq<char>) -> Option<
    Seq<Option<Seq<char>>>,
>;

/// The groups of each match of `regex` in `text`, as
/// `regex::Regex::captures_iter` walks them: from left to right, without
/// overlap.
pub uninterp spec fn all_matches(regex: regex::Regex, text: Seq<char>) -> Seq<
    Seq<Option<Seq<char>>>,
>;

/// Calls `regex::Regex::new` and drops what its error says. Trusted: the
/// result is what [`compiled`] names.
#[verifier::external_body]
fn compile(pattern: &str) -> (made: Option<regex::Regex>)
    ensures
        made == compiled(pattern@),
{
    regex::Regex::new(pattern).ok()
}

/// Calls `regex::Regex::captures` and copies the text of each group out of
/// the match. Trusted: the result is what [`first_match`] names.
#[verifier::external_body]
pub(crate) fn captures(regex: &regex::Regex, text: &str) -> (groups: Option<Vec<Option<String>>>)
    ensures
        groups.deep_view() == first_match(*regex, text@),
{
    regex.captures(text).map(
        |found| found.iter().map(|group| group.map(|part| part.as_str().to_owned())).collect(),
    )
}

/// Calls `regex::Regex::captures_iter` and copies the text of each group out
/// of each match. Trusted: the result is what [`all_matches`] names.
#[verifier::external_body]
pub(crate) fn captures_iter(regex: &regex::Regex, text: &str) -> (matches: Vec<Vec<Option<String>>>)
    ensures
        matches.deep_view() == all_matches(*regex, text@),
{
    regex.captures_iter(text).map(
        |found| found.iter().map(|group| group.map(|part| part.as_str().to_owned())).collect(),
    ).collect()
}

/// The expression that `pattern` writes. A pattern that is no expression is
/// reported as the field that failed.
pub fn expression(pattern: &str) -> (made: Result<regex::Regex, Error>)
    ensures
        match made {
            Ok(regex) => compiled(pattern@) == Some(regex),
            Err(error) => compiled(pattern@) is None && error@ == missing(pattern@),
        },
{
    match compile(pattern) {
        Some(regex) => Ok(regex),
        None => Err(Error::missing(pattern)),
    }
}

/// The text of group `number` of a match, if the match has that group and it
/// took part.
pub open spec fn group_text(groups: Seq<Option<Seq<char>>>, number: int) -> Option<Seq<char>> {
    if 0 <= number < groups.len() {
        groups[number]
    } else {
        None
    }
}

/// The text of group `number` of a match.
pub fn group(groups: &Vec<Option<String>>, number: usize) -> (text: Option<&String>)
    ensures
        text.deep_view() == group_text(groups.deep_view(), number as int),
{
    if number < groups.len() {
        groups[number].as_ref()
    } else {
        None
    }
}

} // verus!

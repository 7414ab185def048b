//! Pages as the `scraper` crate parses them, and the elements that its
//! selectors find in them.
//!
//! A document and its elements are values of `scraper`, which this library
//! hands on without looking inside. What `scraper` reads out of them is named
//! here, and the functions that call it say that they return what those names
//! stand for.

use vstd::prelude::*;
use crate::error::{missing, Error};

verus! {

#[verifier::external_type_specification]
#[verifier::external_body]
pub struct ExHtml(scraper::Html);

#[verifier::external_type_specification]
#[verifier::external_body]
pub struct ExSelector(scraper::Selector);

#[verifier::external_type_specification]
#[verifier::external_body]
pub struct ExElementRef<'a>(scraper::ElementRef<'a>);

/// The tree that `scraper::Html::parse_document` makes of `text`.
pub uninterp spec fn document_of(text: Seq<char>) -> scraper::Html;

/// The tree that `scraper::Html::parse_fragment` makes of `text`.
pub uninterp spec fn fragment_of(text: Seq<char>) -> scraper::Html;

/// The selector that `scraper::Selector::parse` makes of `text`, if it
/// accepts it.
pub uninterp spec fn selector_of(text: Seq<char>) -> Option<scraper::Selector>;

/// The elements of `page` that `selector` matches, in the order in which
/// `scraper::Html::select` yields them.
pub uninterp spec fn page_matches(page: scraper::Html, selector: scraper::Selector) -> Seq<
    scraper::ElementRef<'static>,
>;

/// The elements below `element` that `selector` matches, in the order in
/// which `scraper::ElementRef::select` yields them.
pub uninterp spec fn element_matches(
    element: scraper::ElementRef,
    selector: scraper::Selector,
) -> Seq<scraper::ElementRef<'static>>;

/// What stands between the tags of `element`, as
/// `scraper::ElementRef::inner_html` writes it.
pub uninterp spec fn element_inner_html(element: scraper::ElementRef) -> Seq<char>;

/// The value that `element` gives its attribute `name`, if it has that
/// attribute, as `scraper::ElementRef::attr` finds it.
pub uninterp spec fn element_attr(element: scraper::ElementRef, name: Seq<char>) -> Option<
    Seq<char>,
>;

/// The pieces of text below `element`, in the order in which
/// `scraper::ElementRef::text` yields them.
pub uninterp spec fn element_text(element: scraper::ElementRef) -> Seq<Seq<char>>;

/// Calls `scraper::Html::parse_document`. Trusted: the result is what
/// [`document_of`] names.
#[verifier::external_body]
pub(crate) fn parse_document(text: &str) -> (page: scraper::Html)
    ensures
        page == document_of(text@),
{
    scraper::Html::parse_document(text)
}

/// Calls `scraper::Html::parse_fragment`. Trusted: the result is what
/// [`fragment_of`] names.
#[verifier::external_body]
pub(crate) fn parse_fragment(text: &str) -> (page: scraper::Html)
    ensures
        page == fragment_of(text@),
{
    scraper::Html::parse_fragment(text)
}

/// Calls `scraper::Selector::parse` and drops what its error says. Trusted:
/// the result is what [`selector_of`] names.
#[verifier::external_body]
fn parse_selector(text: &str) -> (made: Option<scraper::Selector>)
    ensures
        made == selector_of(text@),
{
    scraper::Selector::parse(text).ok()
}

/// Calls `scraper::Html::select` and gathers what it yields. Trusted: the
/// result is what [`page_matches`] names.
#[verifier::external_body]
pub(crate) fn select_in_page<'a>(page: &'a scraper::Html, selector: &scraper::Selector) -> (found:
    Vec<scraper::ElementRef<'a>>)
    ensures
        found@ == page_matches(*page, *selector),
{
    page.select(selector).collect()
}

/// Calls `scraper::ElementRef::select` and gathers what it yields. Trusted:
/// the result is what [`element_matches`] names.
#[verifier::external_body]
pub(crate) fn select<'a>(element: scraper::ElementRef<'a>, selector: &scraper::Selector) -> (found:
    Vec<scraper::ElementRef<'a>>)
    ensures
        found@ == element_matches(element, *selector),
{
    element.select(selector).collect()
}

/// Calls `scraper::ElementRef::inner_html`. Trusted: the result is what
/// [`element_inner_html`] names.
#[verifier::external_body]
pub(crate) fn inner_html(element: scraper::ElementRef) -> (text: String)
    ensures
        text@ == element_inner_html(element),
{
    element.inner_html()
}

/// Calls `scraper::ElementRef::attr` and copies the value. Trusted: the
/// result is what [`element_attr`] names.
#[verifier::external_body]
pub(crate) fn attr(element: scraper::ElementRef, name: &str) -> (value: Option<String>)
    ensures
        value.deep_view() == element_attr(element, name@),
{
    element.attr(name).map(|value| value.to_owned())
}

/// Calls `scraper::ElementRef::text` and copies what it yields. Trusted: the
/// result is what [`element_text`] names.
#[verifier::external_body]
pub(crate) fn text(element: scraper::ElementRef) -> (pieces: Vec<String>)
    ensures
        pieces.deep_view() == element_text(element),
{
    element.text().map(|piece| piece.to_owned()).collect()
}

/// The selector that `text` writes. A text that is no selector is reported
/// as the field that failed.
pub fn selector(text: &str) -> (made: Result<scraper::Selector, Error>)
    ensures
        match made {
            Ok(selector) => selector_of(text@) == Some(selector),
            Err(error) => selector_of(text@) is None && error@ == missing(text@),
        },
{
    match parse_selector(text) {
        Some(selector) => Ok(selector),
        None => Err(Error::missing(text)),
    }
}

/// The first element below `element` that `selector` matches.
pub open spec fn first_match_below(
    element: scraper::ElementRef,
    selector: scraper::Selector,
) -> Option<scraper::ElementRef<'static>> {
    let found = element_matches(element, selector);
    if found.len() > 0 {
        Some(found[0])
    } else {
        None
    }
}

/// The first element below `element` that `selector` matches.
pub fn select_first<'a>(element: scraper::ElementRef<'a>, selector: &scraper::Selector) -> (first:
    Option<scraper::ElementRef<'a>>)
    ensures
        first == first_match_below(element, *selector),
{
    let found = select(element, selector);
    if found.len() > 0 {
        Some(found[0])
    } else {
        None
    }
}

/// What stands between the tags of the first element below `element` that
/// `selector` matches.
pub open spec fn first_inner_html_below(
    element: scraper::ElementRef,
    selector: scraper::Selector,
) -> Option<Seq<char>> {
    match first_match_below(element, selector) {
        Some(first) => Some(element_inner_html(first)),
        None => None,
    }
}

/// What stands between the tags of the first element below `element` that
/// `selector` matches.
pub fn first_inner_html<'a>(
    element: scraper::ElementRef<'a>,
    selector: &scraper::Selector,
) -> (text: Option<String>)
    ensures
        text.deep_view() == first_inner_html_below(element, *selector),
{
    match select_first(element, selector) {
        Some(first) => Some(inner_html(first)),
        None => None,
    }
}

} // verus!

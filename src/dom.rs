//! Queries on HTML text, answered by the `scraper` crate. Each query parses
//! `html` as a document, selects the elements matching a CSS selector, and
//! reads the element at a given position (0-based, in the order in which
//! `Html::select` yields the matches: the order the parser created the
//! nodes, which can differ from document order when it moves nodes). What a
//! query answers depends on its arguments alone; it is named here and not
//! restated.
use vstd::prelude::*;

verus! {

/// How many elements of `html` match `selector` (0 for an invalid selector).
pub uninterp spec fn selected_count(html: Seq<char>, selector: Seq<char>) -> nat;

/// The attribute `name` of the `index`-th match, if there is such a match and
/// it has that attribute.
pub uninterp spec fn selected_attr(
    html: Seq<char>,
    selector: Seq<char>,
    index: int,
    name: Seq<char>,
) -> Option<Seq<char>>;

/// The first text node under the `index`-th match, if any.
pub uninterp spec fn selected_first_text(html: Seq<char>, selector: Seq<char>, index: int) -> Option<
    Seq<char>,
>;

/// All text under the `index`-th match, concatenated, if there is such a match.
pub uninterp spec fn selected_text(html: Seq<char>, selector: Seq<char>, index: int) -> Option<
    Seq<char>,
>;

/// The HTML of the `index`-th match, the element itself included.
pub uninterp spec fn selected_html(html: Seq<char>, selector: Seq<char>, index: int) -> Option<
    Seq<char>,
>;

/// Relies on scraper's `Selector::parse`, `Html::parse_document` and
/// `Html::select`: the number of matches.
#[verifier::external_body]
pub(crate) fn select_count(html: &str, selector: &str) -> (r: usize)
    ensures
        r as nat == selected_count(html@, selector@),
{
    match scraper::Selector::parse(selector) {
        Ok(sel) => scraper::Html::parse_document(html).select(&sel).count(),
        Err(_) => 0,
    }
}

/// Relies on scraper's `Selector::parse`, `Html::parse_document`,
/// `Html::select` and `ElementRef::attr`: an attribute of the `index`-th match.
#[verifier::external_body]
pub(crate) fn select_attr(html: &str, selector: &str, index: usize, name: &str) -> (r: Option<String>)
    ensures
        match r {
            Some(v) => selected_attr(html@, selector@, index as int, name@) == Some(v@),
            None => selected_attr(html@, selector@, index as int, name@) is None,
        },
{
    let sel = scraper::Selector::parse(selector).ok()?;
    let doc = scraper::Html::parse_document(html);
    let found = doc.select(&sel).nth(index)?.attr(name)?.to_string();
    Some(found)
}

/// Relies on scraper's `Selector::parse`, `Html::parse_document`,
/// `Html::select` and `ElementRef::text`: the first text node under the
/// `index`-th match.
#[verifier::external_body]
pub(crate) fn select_first_text(html: &str, selector: &str, index: usize) -> (r: Option<String>)
    ensures
        match r {
            Some(v) => selected_first_text(html@, selector@, index as int) == Some(v@),
            None => selected_first_text(html@, selector@, index as int) is None,
        },
{
    let sel = scraper::Selector::parse(selector).ok()?;
    let doc = scraper::Html::parse_document(html);
    let found = doc.select(&sel).nth(index)?.text().next()?.to_string();
    Some(found)
}

/// Relies on scraper's `Selector::parse`, `Html::parse_document`,
/// `Html::select` and `ElementRef::text`: all text under the `index`-th match.
#[verifier::external_body]
pub(crate) fn select_text(html: &str, selector: &str, index: usize) -> (r: Option<String>)
    ensures
        match r {
            Some(v) => selected_text(html@, selector@, index as int) == Some(v@),
            None => selected_text(html@, selector@, index as int) is None,
        },
{
    let sel = scraper::Selector::parse(selector).ok()?;
    let doc = scraper::Html::parse_document(html);
    let found = doc.select(&sel).nth(index)?.text().collect::<String>();
    Some(found)
}

/// Relies on scraper's `Selector::parse`, `Html::parse_document`,
/// `Html::select` and `ElementRef::html`: the HTML of the `index`-th match.
#[verifier::external_body]
pub(crate) fn select_html(html: &str, selector: &str, index: usize) -> (r: Option<String>)
    ensures
        match r {
            Some(v) => selected_html(html@, selector@, index as int) == Some(v@),
            None => selected_html(html@, selector@, index as int) is None,
        },
{
    let sel = scraper::Selector::parse(selector).ok()?;
    let doc = scraper::Html::parse_document(html);
    let found = doc.select(&sel).nth(index)?.html();
    Some(found)
}

} // verus!

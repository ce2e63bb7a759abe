//! Selection of element texts from an HTML document, through nipper.

use vstd::prelude::*;

verus! {

/// Why a document could not be turned into records.
#[derive(Debug)]
pub enum ScrapeError {
    /// A selector of the extraction does not parse as CSS.
    InvalidSelector(String),
    /// An amount field does not hold a decimal number; the field's text.
    BadAmount(String),
}

/// Whether a CSS selector list parses.
pub uninterp spec fn valid_selector(sel: Seq<char>) -> bool;

/// The texts that `select_texts` finds: for each element that `scope`
/// matches, in document order, and for each selector of `items`, the text of
/// each element that it matches inside that element.
pub uninterp spec fn selected_texts(
    html: Seq<char>,
    scope: Seq<char>,
    items: Seq<Seq<char>>,
) -> Seq<Seq<Seq<Seq<char>>>>;

/// Relies on `nipper::Matcher::new`: `Ok` exactly when `sel` parses as a CSS
/// selector list, which is when nipper's `select` does not panic on it.
#[verifier::external_body]
pub(crate) fn selector_is_valid(sel: &str) -> (r: bool)
    ensures
        r == valid_selector(sel@),
{
    nipper::Matcher::new(sel).is_ok()
}

/// Relies on nipper's `Document::from` (parsing), `Document::select` and
/// `Selection::select` (matching, in document order), `Selection::iter` and
/// `Selection::text`. Both `select` calls panic on a selector that does not
/// parse; the result has one entry per selector of `items` for each element
/// that `scope` matches.
#[verifier::external_body]
pub(crate) fn select_texts(html: &str, scope: &str, items: &Vec<String>) -> (r: Vec<
    Vec<Vec<String>>,
>)
    requires
        valid_selector(scope@),
        forall|i: int| 0 <= i < items@.len() ==> valid_selector(#[trigger] items@[i]@),
    ensures
        r.deep_view() == selected_texts(html@, scope@, items.deep_view()),
        forall|i: int| 0 <= i < r@.len() ==> (#[trigger] r@[i])@.len() == items@.len(),
{
    let doc = nipper::Document::from(html);
    let outer = doc.select(scope);
    outer.iter().map(|node| {
        items.iter().map(|item| {
            node.select(item).iter().map(|m| m.text().to_string()).collect()
        }).collect()
    }).collect()
}

} // verus!

//! What the `scraper` crate reads out of an HTML document.
use vstd::prelude::*;

verus! {

/// One element matched by a CSS selector: the value of the requested
/// attribute, if the element has it, and the element's text.
pub struct Element {
    pub attr: Option<String>,
    pub text: String,
}

/// An element as plain values.
pub open spec fn element_view(e: Element) -> (Option<Seq<char>>, Seq<char>) {
    (
        match e.attr {
            Some(a) => Some(a@),
            None => None,
        },
        e.text@,
    )
}

/// Elements as plain values.
pub open spec fn elements_view(v: Seq<Element>) -> Seq<(Option<Seq<char>>, Seq<char>)> {
    v.map_values(|e: Element| element_view(e))
}

/// The elements of the document parsed from `html` that the CSS selector
/// matches, in document order, each with the value of attribute `attr` and
/// its concatenated text (empty when the selector does not parse).
pub uninterp spec fn html_select_spec(html: Seq<char>, selector: Seq<char>, attr: Seq<char>) -> Seq<
    (Option<Seq<char>>, Seq<char>),
>;

/// The concatenated text of the root element of the document parsed from `html`.
pub uninterp spec fn html_text_spec(html: Seq<char>) -> Seq<char>;

/// `scraper::Html::parse_document`, `Selector::parse` and `Html::select`, with
/// `attr` and `text` read from each match.
#[verifier::external_body]
pub(crate) fn html_select(html: &str, selector: &str, attr: &str) -> (r: Vec<Element>)
    ensures
        elements_view(r@) == html_select_spec(html@, selector@, attr@),
{
    let doc = scraper::Html::parse_document(html);
    match scraper::Selector::parse(selector) {
        Ok(sel) => doc.select(&sel).map(|e| Element {
            attr: e.value().attr(attr).map(|a| a.to_string()),
            text: e.text().collect(),
        }).collect(),
        Err(_) => Vec::new(),
    }
}

/// `scraper::Html::parse_document` followed by the text of the root element.
#[verifier::external_body]
pub(crate) fn html_text(html: &str) -> (r: String)
    ensures
        r@ == html_text_spec(html@),
{
    scraper::Html::parse_document(html).root_element().text().collect()
}

} // verus!

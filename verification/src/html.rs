//! What the scraper reads out of an HTML page, through the `scraper` crate.
use vstd::prelude::*;

verus! {

/// The text that `scraper` finds under the elements matching the CSS
/// selector `div` of a document parsed from `html`: one entry per matching
/// element, in the order in which the parser created the elements, each
/// holding that element's descendant text nodes in order.
pub uninterp spec fn html_div_texts(html: Seq<char>) -> Seq<Seq<Seq<char>>>;

/// The `href` attribute of each element matching the CSS selector `a` of a
/// document parsed from `html`, in the order in which the parser created
/// the elements (`None` for an anchor without one).
pub uninterp spec fn html_anchor_hrefs(html: Seq<char>) -> Seq<Option<Seq<char>>>;

/// Parses `html` with `scraper::Html::parse_document`, selects `div` with a
/// `scraper::Selector` and collects each match's `ElementRef::text()`.
/// The contract claims only that the result is `html_div_texts` of the
/// input: parsing, selection and text extraction are deterministic in the
/// document (the selector `div` always parses).
#[verifier::external_body]
pub fn div_texts(html: &str) -> (r: Vec<Vec<String>>)
    ensures
        r.deep_view() == html_div_texts(html@),
{
    let document = scraper::Html::parse_document(html);
    let selector = scraper::Selector::parse("div").unwrap();
    document.select(&selector).map(|e| e.text().map(|t| t.to_string()).collect()).collect()
}

/// Parses `html` with `scraper::Html::parse_document`, selects `a` with a
/// `scraper::Selector` and reads each match's `href` with `Element::attr`.
/// The contract claims only that the result is `html_anchor_hrefs` of the
/// input, attribute lookup being a search in the element's sorted
/// attribute list.
#[verifier::external_body]
pub fn anchor_hrefs(html: &str) -> (r: Vec<Option<String>>)
    ensures
        r.deep_view() == html_anchor_hrefs(html@),
{
    let document = scraper::Html::parse_document(html);
    let selector = scraper::Selector::parse("a").unwrap();
    document.select(&selector).map(|e| e.value().attr("href").map(String::from)).collect()
}

} // verus!

//! Trusted boundary to the HTML parsing crate.
//!
//! The crawler never holds a document or an element: each wrapper below goes
//! from the HTML string straight to plain values (tag names, flattened text,
//! href attributes), and its result is named by an uninterpreted function of
//! the strings alone — parsing and selection are deterministic, so the same
//! strings always read the same. Everything decided on those values, the
//! anchor-finding and tag classification included, is verified elsewhere in
//! this crate.

use vstd::prelude::*;

verus! {

/// One element read as plain values: its tag name, its flattened text over
/// all descendant text nodes, and its href attribute if set.
#[derive(Debug, Clone)]
pub struct RawElem {
    pub name: String,
    pub text: String,
    pub href: Option<String>,
}

/// The model of one element read as plain values.
pub struct RawElemView {
    pub name: Seq<char>,
    pub text: Seq<char>,
    pub href: Option<Seq<char>>,
}

impl View for RawElem {
    type V = RawElemView;

    open spec fn view(&self) -> RawElemView {
        RawElemView {
            name: self.name@,
            text: self.text@,
            href: match self.href {
                Some(h) => Some(h@),
                None => None,
            },
        }
    }
}

/// The models of a sequence of read elements.
pub open spec fn elem_views(elems: Seq<RawElem>) -> Seq<RawElemView> {
    elems.map_values(|e: RawElem| e@)
}

/// The model of an optional read.
pub open spec fn opt_elems_view(r: Option<Vec<RawElem>>) -> Option<Seq<RawElemView>> {
    match r {
        Some(v) => Some(elem_views(v@)),
        None => None,
    }
}

/// The flattened text of the first element of the document matching the
/// selector; nothing when the selector is invalid or matches no element.
pub uninterp spec fn first_match_text(html: Seq<char>, selector: Seq<char>) -> Option<Seq<char>>;

/// The direct child elements, as plain values, of the element reached from
/// the first match of the selector by following the path, each step an index
/// into the current element's child elements; nothing when the selector is
/// invalid, matches no element, or the path leads nowhere.
pub uninterp spec fn elems_at(html: Seq<char>, selector: Seq<char>, path: Seq<usize>) -> Option<
    Seq<RawElemView>,
>;

/// For every element of the document matching the selector, in document
/// order, its direct child elements as plain values; empty when the selector
/// is invalid or matches nothing.
pub uninterp spec fn all_match_elems(html: Seq<char>, selector: Seq<char>) -> Seq<
    Seq<RawElemView>,
>;

/// Relies on scraper's Html::parse_document, Selector::parse, Html::select
/// and ElementRef::text: the flattened text of the selector's first match,
/// a function of the two strings alone.
#[verifier::external_body]
pub(crate) fn read_first_text(html: &str, selector: &str) -> (r: Option<String>)
    ensures
        crate::segment::view_opt(r) == first_match_text(html@, selector@),
{
    let doc = scraper::Html::parse_document(html);
    let sel = scraper::Selector::parse(selector).ok()?;
    let element = doc.select(&sel).next()?;
    Some(element.text().collect::<String>())
}

/// Relies on scraper's Html::parse_document, Selector::parse, Html::select
/// and ElementRef::child_elements, value, text and attr: the child elements
/// of the element the path reaches under the selector's first match, a
/// function of the three arguments alone.
#[verifier::external_body]
pub(crate) fn read_elems_at(html: &str, selector: &str, path: &Vec<usize>) -> (r: Option<
    Vec<RawElem>,
>)
    ensures
        opt_elems_view(r) == elems_at(html@, selector@, path@),
{
    let doc = scraper::Html::parse_document(html);
    let sel = scraper::Selector::parse(selector).ok()?;
    let mut element = doc.select(&sel).next()?;
    for &i in path.iter() {
        element = element.child_elements().nth(i)?;
    }
    let conv = |c: scraper::ElementRef<'_>| RawElem { name: c.value().name().to_string(), text: c.text().collect(), href: c.attr("href").map(|h| h.to_string()) };
    Some(element.child_elements().map(conv).collect())
}

/// Relies on scraper's Html::parse_document, Selector::parse, Html::select
/// and ElementRef::child_elements, value, text and attr: per selector match,
/// its child elements as plain values, a function of the two strings alone.
#[verifier::external_body]
pub(crate) fn read_all_match_elems(html: &str, selector: &str) -> (r: Vec<Vec<RawElem>>)
    ensures
        r@.map_values(|v: Vec<RawElem>| elem_views(v@)) == all_match_elems(html@, selector@),
{
    let doc = scraper::Html::parse_document(html);
    let sel = match scraper::Selector::parse(selector) {
        Ok(s) => s,
        Err(_) => return Vec::new(),
    };
    let conv = |c: scraper::ElementRef<'_>| RawElem { name: c.value().name().to_string(), text: c.text().collect(), href: c.attr("href").map(|h| h.to_string()) };
    doc.select(&sel).map(|m| m.child_elements().map(conv).collect()).collect()
}

} // verus!

//! The document model: parsed HTML documents, compiled CSS selectors and
//! sets of matched elements, all provided by `dom_query`. A document changes
//! when elements are removed from it, so what is read from one depends on
//! its state: these functions promise nothing of their results beyond what
//! `dom_query` documents for every document.

use vstd::prelude::*;

verus! {

#[verifier::external_type_specification]
#[verifier::external_body]
pub struct ExDocument(dom_query::Document);

#[verifier::external_type_specification]
#[verifier::external_body]
pub struct ExMatcher(dom_query::Matcher);

#[verifier::external_type_specification]
#[verifier::external_body]
pub struct ExSelection<'a>(dom_query::Selection<'a>);

#[verifier::external_type_specification]
#[verifier::external_body]
pub struct ExNodeRef<'a>(dom_query::NodeRef<'a>);

/// Whether `selector` is a CSS selector that `dom_query::Matcher::new`
/// accepts.
pub uninterp spec fn selector_compiles(selector: Seq<char>) -> bool;

/// Relies on `dom_query::Matcher::new`: it fails exactly on the selectors it
/// cannot parse, which depends on the text alone.
#[verifier::external_body]
pub(crate) fn compile_selector(selector: &str) -> (r: Option<dom_query::Matcher>)
    ensures
        r is Some <==> selector_compiles(selector@),
{
    dom_query::Matcher::new(selector).ok()
}

/// Relies on `dom_query::Document::from`: parses a whole HTML document.
#[verifier::external_body]
pub(crate) fn parse_html(html: &str) -> dom_query::Document {
    dom_query::Document::from(html)
}

/// Relies on `dom_query::Document::root`: the document node as a selection.
#[verifier::external_body]
pub(crate) fn document_scope<'a>(doc: &'a dom_query::Document) -> dom_query::Selection<'a> {
    dom_query::Selection::from(doc.root())
}

/// Relies on `dom_query::Selection::select_matcher`: every descendant that
/// matches.
#[verifier::external_body]
pub(crate) fn select_all<'a>(
    scope: &dom_query::Selection<'a>,
    m: &dom_query::Matcher,
) -> dom_query::Selection<'a> {
    scope.select_matcher(m)
}

/// Relies on `dom_query::Selection::select_single_matcher`: the first
/// descendant that matches.
#[verifier::external_body]
pub(crate) fn select_first<'a>(
    scope: &dom_query::Selection<'a>,
    m: &dom_query::Matcher,
) -> dom_query::Selection<'a> {
    scope.select_single_matcher(m)
}

/// Relies on `dom_query::Selection::parent`: the parent of each element.
#[verifier::external_body]
pub(crate) fn parents_of<'a>(sel: &dom_query::Selection<'a>) -> dom_query::Selection<'a> {
    sel.parent()
}

/// Relies on `Clone` of `dom_query::Selection`: the same elements.
#[verifier::external_body]
pub(crate) fn same_scope<'a>(sel: &dom_query::Selection<'a>) -> dom_query::Selection<'a> {
    sel.clone()
}

/// Relies on `dom_query::Selection::iter`: each matched element on its own.
#[verifier::external_body]
pub(crate) fn elements_of<'a>(sel: &dom_query::Selection<'a>) -> Vec<dom_query::Selection<'a>> {
    sel.iter().collect()
}

/// Relies on `dom_query::Selection::text`: the text of the elements and
/// their descendants.
#[verifier::external_body]
pub(crate) fn text_of(sel: &dom_query::Selection) -> String {
    sel.text().to_string()
}

/// Relies on `dom_query::Selection::immediate_text`: the text of the
/// elements' own text nodes, without their descendants; it reads the tree
/// and changes nothing.
#[verifier::external_body]
pub(crate) fn own_text_of(sel: &dom_query::Selection) -> String {
    sel.immediate_text().to_string()
}

/// Relies on `dom_query::Selection::try_html`: the markup of the first
/// element, itself included.
#[verifier::external_body]
pub(crate) fn html_of(sel: &dom_query::Selection) -> Option<String> {
    sel.try_html().map(|t| t.to_string())
}

/// Relies on `dom_query::Selection::try_inner_html`: the markup of the
/// first element's children.
#[verifier::external_body]
pub(crate) fn inner_html_of(sel: &dom_query::Selection) -> Option<String> {
    sel.try_inner_html().map(|t| t.to_string())
}

/// Relies on `dom_query::Selection::attr`: an attribute of the first
/// element.
#[verifier::external_body]
pub(crate) fn attr_of(sel: &dom_query::Selection, name: &str) -> Option<String> {
    sel.attr(name).map(|t| t.to_string())
}

/// Relies on `dom_query::Selection::remove`: detaches the matched elements
/// from their document.
#[verifier::external_body]
pub(crate) fn remove_all(sel: &dom_query::Selection) {
    sel.remove()
}

/// Relies on `dom_query::NodeRef::try_html`: the markup of the node.
#[verifier::external_body]
pub(crate) fn node_html(node: &dom_query::NodeRef) -> Option<String> {
    node.try_html().map(|t| t.to_string())
}

/// Relies on `dom_query::NodeRef::try_inner_html`: the markup of the node's
/// children.
#[verifier::external_body]
pub(crate) fn node_inner_html(node: &dom_query::NodeRef) -> Option<String> {
    node.try_inner_html().map(|t| t.to_string())
}

} // verus!

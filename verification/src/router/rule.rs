//! The parts of a rule that the filters are built from.
use vstd::prelude::*;

verus! {

/// A body filter of a rule: an action on the element that `element_tree` leads to.
#[derive(Debug)]
pub struct BodyFilter {
    /// `append_child`, `prepend_child` or `replace`.
    pub action: String,
    /// The names of the elements from the root down to the element to act on.
    pub element_tree: Vec<String>,
    /// An XPath expression that the element's HTML is checked against.
    pub x_path_matcher: Option<String>,
    pub value: String,
}

} // verus!

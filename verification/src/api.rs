//! The rule descriptions that the filters are built from.
use vstd::prelude::*;

verus! {

/// What a rule asks of a response header.
#[derive(Debug)]
pub struct HeaderFilter {
    /// `add`, `remove`, `replace`, `override` or `default`.
    pub action: String,
    pub header: String,
    pub value: String,
    pub id: Option<String>,
    pub target_hash: Option<String>,
}

/// An HTML body filter that reaches its element through a path of element names and,
/// optionally, a CSS selector.
#[derive(Debug)]
pub struct HTMLBodyTreeFilter {
    pub element_tree: Vec<String>,
    pub css_selector: Option<String>,
    pub value: String,
    pub inner_value: Option<String>,
    pub id: Option<String>,
    pub target_hash: Option<String>,
}

/// An HTML body filter that reaches its element through a CSS selector.
#[derive(Debug)]
pub struct HTMLBodySelectorFilter {
    pub css_selector: String,
    pub value: String,
    pub inner_value: Option<String>,
    pub id: Option<String>,
    pub target_hash: Option<String>,
}

/// An HTML body filter that appends to the elements of a CSS selector, unless an element
/// of a second selector is found in them.
#[derive(Debug)]
pub struct HTMLBodyAppendFilter {
    pub css_selector: String,
    pub ignore_css_selector: Option<String>,
    pub value: String,
    pub inner_value: Option<String>,
    pub id: Option<String>,
    pub target_hash: Option<String>,
}

/// An HTML body filter that removes the elements of a CSS selector.
#[derive(Debug)]
pub struct HTMLBodyRemoveFilter {
    pub css_selector: String,
    pub id: Option<String>,
    pub target_hash: Option<String>,
}

/// What a rule asks of an HTML body.
#[derive(Debug)]
pub enum HTMLBodyFilter {
    PrependLegacy(HTMLBodyTreeFilter),
    AppendLegacy(HTMLBodyTreeFilter),
    ReplaceLegacy(HTMLBodyTreeFilter),
    Append(HTMLBodyAppendFilter),
    Prepend(HTMLBodySelectorFilter),
    Replace(HTMLBodySelectorFilter),
    After(HTMLBodySelectorFilter),
    Before(HTMLBodySelectorFilter),
    Remove(HTMLBodyRemoveFilter),
}

/// Where a text body filter puts its text.
#[derive(Debug, Clone, Copy, PartialEq, Eq, Structural)]
pub enum TextAction {
    Append,
    Prepend,
    Replace,
}

/// A body filter on plain text.
#[derive(Debug)]
pub struct TextBodyFilter {
    pub id: Option<String>,
    pub action: TextAction,
    pub content: String,
}

/// What a rule asks of a response body.
#[derive(Debug)]
pub enum BodyFilter {
    HTML(HTMLBodyFilter),
    Text(TextBodyFilter),
}

/// The value of a variable of a rule.
#[derive(Debug)]
pub enum VariableValue {
    /// A value known as it is.
    Static(String),
    /// A value to take from the text of the elements that an HTML selector finds in the body.
    HtmlFilter { selector: String },
}

impl VariableValue {
    /// The variable, now with a known value.
    pub fn to_static(&self, value: String) -> (res: VariableValue)
        ensures
            res matches VariableValue::Static(s) && s@ == value@,
    {
        VariableValue::Static(value)
    }
}

} // verus!

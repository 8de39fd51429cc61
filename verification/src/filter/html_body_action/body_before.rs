use vstd::prelude::*;

use crate::action::{UnitTrace, element_unit_records, record_element_unit, trace_extended};
use crate::filter::html_body_action::body_capture::CaptureRegistry;

verus! {

/// Puts content before the elements of a CSS selector.
#[derive(Debug)]
pub struct BodyBefore {
    css_selector: String,
    content: String,
    inner_content: String,
    id: Option<String>,
    target_hash: Option<String>,
}

impl BodyBefore {
    pub closed spec fn spec_css_selector(&self) -> Seq<char> {
        self.css_selector@
    }

    /// The action was made of these.
    pub open spec fn made_of(
        &self,
        css_selector: Seq<char>,
        content: Seq<char>,
        inner_content: Seq<char>,
        id: Option<String>,
        target_hash: Option<String>,
    ) -> bool {
        &&& self.spec_css_selector() == css_selector
        &&& self.spec_content() == content
        &&& self.spec_inner_content() == inner_content
        &&& self.spec_id() == id
        &&& self.spec_target_hash() == target_hash
    }

    pub closed spec fn spec_content(&self) -> Seq<char> {
        self.content@
    }

    pub closed spec fn spec_inner_content(&self) -> Seq<char> {
        self.inner_content@
    }

    pub closed spec fn spec_id(&self) -> Option<String> {
        self.id
    }

    pub closed spec fn spec_target_hash(&self) -> Option<String> {
        self.target_hash
    }

    pub fn new(
        css_selector: String,
        content: String,
        inner_content: String,
        id: Option<String>,
        target_hash: Option<String>,
    ) -> (res: BodyBefore)
        ensures
            res.made_of(css_selector@, content@, inner_content@, id, target_hash),
    {
        BodyBefore { css_selector, content, inner_content, id, target_hash }
    }

    pub fn css_selector(&self) -> (res: String)
        ensures
            res@ == self.spec_css_selector(),
    {
        self.css_selector.clone()
    }

    /// What goes before an element that the selector finds: the content with the
    /// variables put in; records the unit, with its inner content, in the trace.
    pub fn content_for_element(&self, variables: &CaptureRegistry, unit_trace: &mut Option<UnitTrace>) -> (res: String)
        ensures
            res@ == variables.spec_replace(self.spec_content()),
            trace_extended(
                *old(unit_trace),
                *final(unit_trace),
                element_unit_records(self.spec_id(), self.spec_target_hash(), variables.spec_replace(self.spec_inner_content())),
            ),
    {
        let content = variables.replace(self.content.clone());
        let inner_content = variables.replace(self.inner_content.clone());
        record_element_unit(unit_trace, &self.id, &self.target_hash, inner_content.as_str());
        content
    }
}

} // verus!

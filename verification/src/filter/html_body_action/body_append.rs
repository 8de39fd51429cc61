use vstd::prelude::*;

use crate::action::{UnitTrace, element_unit_records, record_element_unit, trace_extended};
use crate::filter::header_action::clone_option;
use crate::filter::html_body_action::body_capture::CaptureRegistry;
use crate::text::opt_view;

verus! {

/// Puts content at the end of the elements of a CSS selector, but not in those where an
/// element of a second selector is found.
#[derive(Debug)]
pub struct BodyAppend {
    css_selector: String,
    ignore_css_selector: Option<String>,
    content: String,
    inner_content: String,
    id: Option<String>,
    target_hash: Option<String>,
}

impl BodyAppend {
    pub closed spec fn spec_css_selector(&self) -> Seq<char> {
        self.css_selector@
    }

    pub closed spec fn spec_ignore_css_selector(&self) -> Option<Seq<char>> {
        opt_view(self.ignore_css_selector)
    }

    /// The action was made of these.
    pub open spec fn made_of(
        &self,
        css_selector: Seq<char>,
        ignore_css_selector: Option<Seq<char>>,
        content: Seq<char>,
        inner_content: Seq<char>,
        id: Option<String>,
        target_hash: Option<String>,
    ) -> bool {
        &&& self.spec_css_selector() == css_selector
        &&& self.spec_ignore_css_selector() == ignore_css_selector
        &&& self.spec_content() == content
        &&& self.spec_inner_content() == inner_content
        &&& self.spec_id() == id
        &&& self.spec_target_hash() == target_hash
    }

    pub closed spec fn spec_content(&self) -> Seq<char> {
        self.content@
    }

    pub closed spec fn spec_inner_content(&self) -> Seq<char> {
        self.inner_content@
    }

    pub closed spec fn spec_id(&self) -> Option<String> {
        self.id
    }

    pub closed spec fn spec_target_hash(&self) -> Option<String> {
        self.target_hash
    }

    pub fn new(
        css_selector: String,
        ignore_css_selector: Option<String>,
        content: String,
        inner_content: String,
        id: Option<String>,
        target_hash: Option<String>,
    ) -> (res: BodyAppend)
        ensures
            res.made_of(css_selector@, opt_view(ignore_css_selector), content@, inner_content@, id, target_hash),
    {
        BodyAppend { css_selector, ignore_css_selector, content, inner_content, id, target_hash }
    }

    /// The selector of the elements to append to, and the one whose elements prevent it.
    pub fn css_selector(&self) -> (res: (String, Option<String>))
        ensures
            res.0@ == self.spec_css_selector(),
            opt_view(res.1) == self.spec_ignore_css_selector(),
    {
        (self.css_selector.clone(), clone_option(&self.ignore_css_selector))
    }

    /// What goes at the end of an element, without a second selector: the content with the
    /// variables put in; records the unit, with its inner content, in the trace.
    pub fn content_for_element(&self, variables: &CaptureRegistry, unit_trace: &mut Option<UnitTrace>) -> (res: String)
        ensures
            res@ == variables.spec_replace(self.spec_content()),
            trace_extended(
                *old(unit_trace),
                *final(unit_trace),
                element_unit_records(self.spec_id(), self.spec_target_hash(), variables.spec_replace(self.spec_inner_content())),
            ),
    {
        let content = variables.replace(self.content.clone());
        let inner_content = variables.replace(self.inner_content.clone());
        record_element_unit(unit_trace, &self.id, &self.target_hash, inner_content.as_str());
        content
    }

    /// What goes before the end tag of an element, with a second selector that found
    /// nothing in it: the content as it is; records the unit, with its inner content.
    pub fn content_for_end_tag(&self, unit_trace: &mut Option<UnitTrace>) -> (res: String)
        ensures
            res@ == self.spec_content(),
            trace_extended(
                *old(unit_trace),
                *final(unit_trace),
                element_unit_records(self.spec_id(), self.spec_target_hash(), self.spec_inner_content()),
            ),
    {
        record_element_unit(unit_trace, &self.id, &self.target_hash, self.inner_content.as_str());
        self.content.clone()
    }

    /// What goes before the end tag of an element the selector matched, where the second
    /// selector matched in it (`checker_matched`) or not: nothing in the first case, the
    /// content otherwise, with the unit recorded.
    pub fn content_at_end_tag(&self, checker_matched: bool, unit_trace: &mut Option<UnitTrace>) -> (res: Option<String>)
        ensures
            checker_matched ==> res is None && *final(unit_trace) == *old(unit_trace),
            !checker_matched ==> (res matches Some(c) && c@ == self.spec_content() && trace_extended(
                *old(unit_trace),
                *final(unit_trace),
                element_unit_records(self.spec_id(), self.spec_target_hash(), self.spec_inner_content()),
            )),
    {
        if checker_matched {
            return None;
        }
        Some(self.content_for_end_tag(unit_trace))
    }
}

} // verus!

use vstd::prelude::*;

use crate::action::{UnitTrace, element_unit_records, record_element_unit, trace_extended};

verus! {

/// Removes the elements of a CSS selector.
#[derive(Debug)]
pub struct BodyRemove {
    css_selector: String,
    id: Option<String>,
    target_hash: Option<String>,
}

impl BodyRemove {
    pub closed spec fn spec_css_selector(&self) -> Seq<char> {
        self.css_selector@
    }

    /// The action was made of these.
    pub open spec fn made_of(&self, css_selector: Seq<char>, id: Option<String>, target_hash: Option<String>) -> bool {
        &&& self.spec_css_selector() == css_selector
        &&& self.spec_id() == id
        &&& self.spec_target_hash() == target_hash
    }

    pub closed spec fn spec_id(&self) -> Option<String> {
        self.id
    }

    pub closed spec fn spec_target_hash(&self) -> Option<String> {
        self.target_hash
    }

    pub fn new(css_selector: String, id: Option<String>, target_hash: Option<String>) -> (res: BodyRemove)
        ensures
            res.made_of(css_selector@, id, target_hash),
    {
        BodyRemove { css_selector, id, target_hash }
    }

    pub fn css_selector(&self) -> (res: String)
        ensures
            res@ == self.spec_css_selector(),
    {
        self.css_selector.clone()
    }

    /// Records in the trace that the unit removed an element.
    pub fn record_removal(&self, unit_trace: &mut Option<UnitTrace>)
        ensures
            trace_extended(
                *old(unit_trace),
                *final(unit_trace),
                element_unit_records(self.spec_id(), self.spec_target_hash(), Seq::<char>::empty()),
            ),
    {
        proof {
            reveal_strlit("");
        }
        assert(""@ =~= Seq::<char>::empty());
        record_element_unit(unit_trace, &self.id, &self.target_hash, "");
    }
}

} // verus!

use vstd::prelude::*;

use crate::filter::body_action::{BodyAction, evaluate, selector_set, spec_evaluate};

verus! {

/// Puts content in place of the element that a path of elements leads to.
#[derive(Debug)]
pub struct BodyReplace {
    element_tree: Vec<String>,
    position: usize,
    css_selector: Option<String>,
    content: String,
    is_buffering: bool,
}

impl BodyReplace {
    pub closed spec fn spec_tree(&self) -> Seq<String> {
        self.element_tree@
    }

    pub closed spec fn spec_position(&self) -> int {
        self.position as int
    }

    pub closed spec fn spec_selector(&self) -> Option<String> {
        self.css_selector
    }

    pub closed spec fn spec_content(&self) -> Seq<char> {
        self.content@
    }

    /// Whether the element's HTML is being buffered.
    pub closed spec fn spec_buffering(&self) -> bool {
        self.is_buffering
    }

    /// The action was made of these and has not moved yet.
    pub open spec fn made_of(&self, tree: Seq<String>, selector: Option<String>, content: Seq<char>) -> bool {
        &&& self.spec_tree() == tree
        &&& self.spec_selector() == selector
        &&& self.spec_content() == content
        &&& self.spec_position() == 0
        &&& !self.spec_buffering()
    }

    /// `self` and `other` differ at most in their position and buffering.
    pub open spec fn same_config(&self, other: BodyReplace) -> bool {
        &&& self.spec_tree() == other.spec_tree()
        &&& self.spec_selector() == other.spec_selector()
        &&& self.spec_content() == other.spec_content()
    }

    pub fn new(element_tree: Vec<String>, css_selector: Option<String>, content: String) -> (res: BodyReplace)
        ensures
            res.made_of(element_tree@, css_selector, content@),
            element_tree@.len() > 0 ==> res.inv(),
    {
        BodyReplace { element_tree, css_selector, position: 0, content, is_buffering: false }
    }
}

impl BodyAction for BodyReplace {
    open spec fn inv(&self) -> bool {
        self.spec_position() < self.spec_tree().len()
    }

    open spec fn spec_path(&self) -> Seq<String> {
        self.spec_tree()
    }

    fn enter(&mut self, data: String) -> (res: (Option<String>, Option<String>, bool, String))
        ensures
            final(self).same_config(*old(self)),
            res.1 == Some(old(self).spec_tree()[old(self).spec_position()]),
            res.3 == data,
            if old(self).spec_position() + 1 < old(self).spec_tree().len() {
                &&& final(self).spec_position() == old(self).spec_position() + 1
                &&& final(self).spec_buffering() == old(self).spec_buffering()
                &&& res.0 == Some(old(self).spec_tree()[old(self).spec_position() + 1])
                &&& !res.2
            } else {
                &&& final(self).spec_position() == old(self).spec_position()
                &&& final(self).spec_buffering()
                &&& res.0 is None
                &&& res.2
            },
    {
        let next_leave = Some(self.element_tree[self.position].clone());
        let n = self.element_tree.len();
        if self.position + 1 < n {
            self.position = self.position + 1;
            let next_enter = Some(self.element_tree[self.position].clone());
            return (next_enter, next_leave, false, data);
        }
        self.is_buffering = true;
        (None, next_leave, true, data)
    }

    fn leave(&mut self, data: String) -> (res: (Option<String>, Option<String>, String))
        ensures
            final(self).same_config(*old(self)),
            !final(self).spec_buffering(),
            res.0 == Some(old(self).spec_tree()[old(self).spec_position()]),
            if (old(self).spec_position() as i32) > 0 && !old(self).spec_buffering() {
                &&& final(self).spec_position() == old(self).spec_position() - 1
                &&& res.1 == Some(old(self).spec_tree()[old(self).spec_position() - 1])
            } else {
                &&& final(self).spec_position() == old(self).spec_position()
                &&& res.1 is None
            },
            res.2@ == if old(self).spec_buffering() && (!selector_set(old(self).spec_selector()) || spec_evaluate(
                data@,
                old(self).spec_selector()->0@,
            )) {
                old(self).spec_content()
            } else {
                data@
            },
    {
        let next_enter = Some(self.element_tree[self.position].clone());
        let next_leave = if (self.position as i32) > 0 && !self.is_buffering {
            self.position = self.position - 1;
            Some(self.element_tree[self.position].clone())
        } else {
            None
        };
        if self.is_buffering {
            self.is_buffering = false;
            match &self.css_selector {
                None => return (next_enter, next_leave, self.content.clone()),
                Some(selector) => {
                    if selector.as_str().is_empty() {
                        return (next_enter, next_leave, self.content.clone());
                    }
                    if evaluate(data.as_str(), selector.as_str()) {
                        return (next_enter, next_leave, self.content.clone());
                    }
                },
            }
        }
        (next_enter, next_leave, data)
    }

    fn first(&self) -> (res: String)
        ensures
            res == self.spec_tree()[0],
    {
        self.element_tree[0].clone()
    }
}

} // verus!

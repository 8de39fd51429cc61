use vstd::prelude::*;

use crate::filter::body_action::{BodyAction, evaluate, inserts_after_open_tag, prepend_child, selector_set, spec_evaluate};

verus! {

/// Whether the position `p`, read as an `i32`, less one (wrapping), is not negative.
pub open spec fn steps_back(p: int) -> bool {
    (p as i32) >= 1 || (p as i32) == i32::MIN
}

/// Puts content at the start of the element that a path of elements leads to.
#[derive(Debug)]
pub struct BodyPrepend {
    element_tree: Vec<String>,
    position: usize,
    x_path_matcher: Option<String>,
    content: String,
    is_buffering: bool,
}

impl BodyPrepend {
    pub closed spec fn spec_tree(&self) -> Seq<String> {
        self.element_tree@
    }

    pub closed spec fn spec_position(&self) -> int {
        self.position as int
    }

    pub closed spec fn spec_matcher(&self) -> Option<String> {
        self.x_path_matcher
    }

    pub closed spec fn spec_content(&self) -> Seq<char> {
        self.content@
    }

    /// Whether the element's HTML is being buffered.
    pub closed spec fn spec_buffering(&self) -> bool {
        self.is_buffering
    }

    /// The action was made of these and has not moved yet.
    pub open spec fn made_of(&self, tree: Seq<String>, matcher: Option<String>, content: Seq<char>) -> bool {
        &&& self.spec_tree() == tree
        &&& self.spec_matcher() == matcher
        &&& self.spec_content() == content
        &&& self.spec_position() == 0
        &&& !self.spec_buffering()
    }

    /// `self` and `other` differ at most in their position and buffering.
    pub open spec fn same_config(&self, other: BodyPrepend) -> bool {
        &&& self.spec_tree() == other.spec_tree()
        &&& self.spec_matcher() == other.spec_matcher()
        &&& self.spec_content() == other.spec_content()
    }

    pub fn new(element_tree: Vec<String>, x_path_matcher: Option<String>, content: String) -> (res: BodyPrepend)
        ensures
            res.made_of(element_tree@, x_path_matcher, content@),
            element_tree@.len() > 0 ==> res.inv(),
    {
        BodyPrepend { element_tree, x_path_matcher, position: 0, content, is_buffering: false }
    }
}

impl BodyAction for BodyPrepend {
    open spec fn inv(&self) -> bool {
        self.spec_position() < self.spec_tree().len()
    }

    open spec fn spec_path(&self) -> Seq<String> {
        self.spec_tree()
    }

    fn enter(&mut self, data: String) -> (res: (Option<String>, Option<String>, bool, String))
        ensures
            final(self).same_config(*old(self)),
            res.1 == Some(old(self).spec_tree()[old(self).spec_position()]),
            if old(self).spec_position() + 1 < old(self).spec_tree().len() {
                &&& final(self).spec_position() == old(self).spec_position() + 1
                &&& final(self).spec_buffering() == old(self).spec_buffering()
                &&& res.0 == Some(old(self).spec_tree()[old(self).spec_position() + 1])
                &&& !res.2
                &&& res.3@ == data@
            } else {
                &&& final(self).spec_position() == old(self).spec_position()
                &&& res.0 is None
                &&& if old(self).spec_matcher() is None {
                    &&& final(self).spec_buffering() == old(self).spec_buffering()
                    &&& res.3@ == data@ + old(self).spec_content()
                } else {
                    &&& final(self).spec_buffering()
                    &&& res.3@ == data@
                }
                &&& res.2 == final(self).spec_buffering()
            },
    {
        let next_leave = Some(self.element_tree[self.position].clone());
        let mut new_data = data;
        let n = self.element_tree.len();
        if self.position + 1 < n {
            self.position = self.position + 1;
            let next_enter = Some(self.element_tree[self.position].clone());
            return (next_enter, next_leave, false, new_data);
        }
        if self.x_path_matcher.is_none() {
            new_data.append(self.content.as_str());
        } else {
            self.is_buffering = true;
        }
        (None, next_leave, self.is_buffering, new_data)
    }

    fn leave(&mut self, data: String) -> (res: (Option<String>, Option<String>, String))
        ensures
            final(self).same_config(*old(self)),
            res.0 == Some(old(self).spec_tree()[old(self).spec_position()]),
            if steps_back(old(self).spec_position()) {
                &&& final(self).spec_position() == old(self).spec_position() - 1
                &&& res.1 == Some(old(self).spec_tree()[old(self).spec_position() - 1])
            } else {
                &&& final(self).spec_position() == old(self).spec_position()
                &&& res.1 is None
            },
            if old(self).spec_buffering() && selector_set(old(self).spec_matcher()) {
                &&& !final(self).spec_buffering()
                &&& if spec_evaluate(data@, old(self).spec_matcher()->0@) {
                    inserts_after_open_tag(data@, old(self).spec_content(), res.2@)
                } else {
                    res.2@ == data@
                }
            } else {
                &&& final(self).spec_buffering() == old(self).spec_buffering()
                &&& res.2@ == data@
            },
    {
        let next_enter = Some(self.element_tree[self.position].clone());
        let mut next_leave = None;
        let signed = self.position as i32;
        if signed >= 1 || signed == i32::MIN {
            self.position = self.position - 1;
            next_leave = Some(self.element_tree[self.position].clone());
        }
        if self.is_buffering {
            match &self.x_path_matcher {
                Some(matcher) => {
                    if !matcher.as_str().is_empty() {
                        self.is_buffering = false;
                        if evaluate(data.as_str(), matcher.as_str()) {
                            return (next_enter, next_leave, prepend_child(data, self.content.clone()));
                        }
                    }
                },
                None => {},
            }
        }
        (next_enter, next_leave, data)
    }

    fn first(&self) -> (res: String)
        ensures
            res == self.spec_tree()[0],
    {
        self.element_tree[0].clone()
    }
}

} // verus!

use vstd::prelude::*;

use vstd::utf8::encode_utf8;

use crate::filter::body_action::{
    BodyAction, append_child, evaluate, inserts_before_close_tag, open_element, selector_set, simple_element,
    spec_evaluate,
};
use crate::html::{name_ends_at, plain_up_to};

verus! {

/// Puts content at the end of the element that a path of elements leads to.
#[derive(Debug)]
pub struct BodyAppend {
    element_tree: Vec<String>,
    position: usize,
    css_selector: Option<String>,
    content: String,
    is_buffering: bool,
}

impl BodyAppend {
    pub closed spec fn spec_tree(&self) -> Seq<String> {
        self.element_tree@
    }

    pub closed spec fn spec_position(&self) -> int {
        self.position as int
    }

    pub closed spec fn spec_selector(&self) -> Option<String> {
        self.css_selector
    }

    pub closed spec fn spec_content(&self) -> Seq<char> {
        self.content@
    }

    pub closed spec fn spec_buffering(&self) -> bool {
        self.is_buffering
    }

    /// The action was made of these and has not moved yet.
    pub open spec fn made_of(&self, tree: Seq<String>, selector: Option<String>, content: Seq<char>) -> bool {
        &&& self.spec_tree() == tree
        &&& self.spec_selector() == selector
        &&& self.spec_content() == content
        &&& self.spec_position() == 0
        &&& !self.spec_buffering()
    }

    /// `self` and `other` differ at most in their position.
    pub open spec fn same_config(&self, other: BodyAppend) -> bool {
        &&& self.spec_tree() == other.spec_tree()
        &&& self.spec_selector() == other.spec_selector()
        &&& self.spec_content() == other.spec_content()
        &&& self.spec_buffering() == other.spec_buffering()
    }

    pub fn new(element_tree: Vec<String>, css_selector: Option<String>, content: String) -> (res: BodyAppend)
        ensures
            res.made_of(element_tree@, css_selector, content@),
            element_tree@.len() > 0 ==> res.inv(),
    {
        BodyAppend { element_tree, css_selector, position: 0, content, is_buffering: false }
    }
}

impl BodyAction for BodyAppend {
    open spec fn inv(&self) -> bool {
        self.spec_position() < self.spec_tree().len()
    }

    open spec fn spec_path(&self) -> Seq<String> {
        self.spec_tree()
    }

    fn enter(&mut self, data: String) -> (res: (Option<String>, Option<String>, bool, String))
        ensures
            final(self).same_config(*old(self)),
            res.1 == Some(old(self).spec_tree()[old(self).spec_position()]),
            res.3 == data,
            if old(self).spec_position() + 1 < old(self).spec_tree().len() {
                &&& final(self).spec_position() == old(self).spec_position() + 1
                &&& res.0 == Some(old(self).spec_tree()[old(self).spec_position() + 1])
                &&& !res.2
            } else {
                &&& final(self).spec_position() == old(self).spec_position()
                &&& res.0 is None
                &&& res.2 == selector_set(old(self).spec_selector())
            },
    {
        let next_leave = Some(self.element_tree[self.position].clone());
        let n = self.element_tree.len();
        if self.position + 1 < n {
            self.position = self.position + 1;
            let next_enter = Some(self.element_tree[self.position].clone());
            return (next_enter, next_leave, false, data);
        }
        let should_buffer = match &self.css_selector {
            Some(s) => !s.as_str().is_empty(),
            None => false,
        };
        (None, next_leave, should_buffer, data)
    }

    fn leave(&mut self, data: String) -> (res: (Option<String>, Option<String>, String))
        ensures
            final(self).same_config(*old(self)),
            res.0 == Some(old(self).spec_tree()[old(self).spec_position()]),
            if (old(self).spec_position() as i32) > 0 {
                &&& final(self).spec_position() == old(self).spec_position() - 1
                &&& res.1 == Some(old(self).spec_tree()[old(self).spec_position() - 1])
            } else {
                &&& final(self).spec_position() == old(self).spec_position()
                &&& res.1 is None
            },
            if old(self).spec_position() + 1 >= old(self).spec_tree().len() {
                if selector_set(old(self).spec_selector()) {
                    if spec_evaluate(data@, old(self).spec_selector()->0@) {
                        res.2@ == data@
                    } else {
                        &&& inserts_before_close_tag(data@, old(self).spec_content(), res.2@)
                        &&& forall|q: int, n: int, q2: int|
                            #![trigger plain_up_to(encode_utf8(data@), 2, q), name_ends_at(encode_utf8(data@), 2, n), plain_up_to(encode_utf8(data@), q + 4, q2)]
                            simple_element(encode_utf8(data@), q, n, q2) ==> encode_utf8(res.2@) == encode_utf8(
                                data@,
                            ).take(q + 1) + encode_utf8(old(self).spec_content()) + encode_utf8(data@).skip(q + 1)
                        &&& forall|q: int, n: int, k: int, q2: int|
                            #[trigger] open_element(encode_utf8(data@), q, n, k, q2) ==> encode_utf8(res.2@)
                                == encode_utf8(data@).take(k) + encode_utf8(old(self).spec_content()) + encode_utf8(
                                data@,
                            ).skip(k)
                    }
                } else {
                    res.2@ == old(self).spec_content() + data@
                }
            } else {
                res.2@ == data@
            },
    {
        let next_enter = Some(self.element_tree[self.position].clone());
        let n = self.element_tree.len();
        let is_processing = self.position + 1 >= n;
        let next_leave = if (self.position as i32) > 0 {
            self.position = self.position - 1;
            Some(self.element_tree[self.position].clone())
        } else {
            None
        };
        if is_processing {
            match &self.css_selector {
                Some(selector) => {
                    if !selector.as_str().is_empty() {
                        if !evaluate(data.as_str(), selector.as_str()) {
                            return (next_enter, next_leave, append_child(data, self.content.clone()));
                        }
                        return (next_enter, next_leave, data);
                    }
                },
                None => {},
            }
            let mut new_data = self.content.clone();
            new_data.append(data.as_str());
            return (next_enter, next_leave, new_data);
        }
        (next_enter, next_leave, data)
    }

    fn first(&self) -> (res: String)
        ensures
            res == self.spec_tree()[0],
    {
        self.element_tree[0].clone()
    }
}

} // verus!

use vstd::prelude::*;

use crate::marker::Transform;
use crate::text::{replace, replace_all};

verus! {

/// Replaces each occurrence of a string by another.
#[derive(Debug)]
pub struct Replace {
    something: String,
    with: String,
}

impl Replace {
    pub closed spec fn spec_something(&self) -> Seq<char> {
        self.something@
    }

    pub closed spec fn spec_with(&self) -> Seq<char> {
        self.with@
    }

    pub fn new(something: String, with: String) -> (res: Replace)
        ensures
            res.spec_something() == something@,
            res.spec_with() == with@,
    {
        Replace { something, with }
    }
}

impl Transform for Replace {
    open spec fn spec_transform(&self, s: Seq<char>) -> Seq<char> {
        replace_all(s, self.spec_something(), self.spec_with())
    }

    fn transform(&self, str: String) -> (res: String) {
        replace(str.as_str(), self.something.as_str(), self.with.as_str())
    }
}

} // verus!

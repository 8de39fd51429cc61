use vstd::prelude::*;

use crate::marker::Transform;
use crate::text::{spec_to_uppercase, to_uppercase};

verus! {

/// Writes a string in uppercase.
#[derive(Debug, Default)]
pub struct Uppercase;

impl Transform for Uppercase {
    open spec fn spec_transform(&self, s: Seq<char>) -> Seq<char> {
        spec_to_uppercase(s)
    }

    fn transform(&self, str: String) -> (res: String) {
        to_uppercase(str.as_str())
    }
}

} // verus!

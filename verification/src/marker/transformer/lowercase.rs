use vstd::prelude::*;

use crate::marker::Transform;
use crate::text::{spec_to_lowercase, to_lowercase};

verus! {

/// Writes a string in lowercase.
#[derive(Debug, Default)]
pub struct Lowercase;

impl Transform for Lowercase {
    open spec fn spec_transform(&self, s: Seq<char>) -> Seq<char> {
        spec_to_lowercase(s)
    }

    fn transform(&self, str: String) -> (res: String) {
        to_lowercase(str.as_str())
    }
}

} // verus!

use vstd::prelude::*;

use crate::marker::Transform;

verus! {

/// What `heck`'s `to_lower_camel_case` gives for a string.
pub uninterp spec fn spec_lower_camel_case(s: Seq<char>) -> Seq<char>;

/// Calls `heck::ToLowerCamelCase::to_lower_camel_case`; the result is a function of the
/// characters alone.
#[verifier::external_body]
fn lower_camel_case(s: &str) -> (res: String)
    ensures
        res@ == spec_lower_camel_case(s@),
{
    heck::ToLowerCamelCase::to_lower_camel_case(s)
}

/// Writes a string in lower camel case.
#[derive(Debug, Default)]
pub struct Camelize;

impl Transform for Camelize {
    open spec fn spec_transform(&self, s: Seq<char>) -> Seq<char> {
        spec_lower_camel_case(s)
    }

    fn transform(&self, str: String) -> (res: String) {
        lower_camel_case(str.as_str())
    }
}

} // verus!

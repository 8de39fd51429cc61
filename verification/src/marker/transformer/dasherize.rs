use vstd::prelude::*;

use crate::marker::Transform;

verus! {

/// What `heck`'s `to_kebab_case` gives for a string.
pub uninterp spec fn spec_kebab_case(s: Seq<char>) -> Seq<char>;

/// Calls `heck::ToKebabCase::to_kebab_case`; the result is a function of the characters alone.
#[verifier::external_body]
fn kebab_case(s: &str) -> (res: String)
    ensures
        res@ == spec_kebab_case(s@),
{
    heck::ToKebabCase::to_kebab_case(s)
}

/// Writes a string in kebab case (words in lowercase, joined by dashes).
#[derive(Debug, Default)]
pub struct Dasherize;

impl Transform for Dasherize {
    open spec fn spec_transform(&self, s: Seq<char>) -> Seq<char> {
        spec_kebab_case(s)
    }

    fn transform(&self, str: String) -> (res: String) {
        kebab_case(str.as_str())
    }
}

} // verus!

//! Transformations applied to the value of a marker.
use vstd::prelude::*;

pub mod camelize;
pub mod dasherize;
pub mod lowercase;
pub mod replace;
pub mod uppercase;

pub use camelize::Camelize;
pub use dasherize::Dasherize;
pub use lowercase::Lowercase;
pub use replace::Replace;
pub use uppercase::Uppercase;

verus! {

/// A transformation of a string.
pub trait Transform {
    /// What the transformation gives for `s`.
    spec fn spec_transform(&self, s: Seq<char>) -> Seq<char>;

    fn transform(&self, str: String) -> (res: String)
        ensures
            res@ == self.spec_transform(str@),
    ;
}

} // verus!

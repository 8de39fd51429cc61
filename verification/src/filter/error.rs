use vstd::prelude::*;


verus! {

/// What can go wrong while filtering a body.
#[derive(Debug)]
#[non_exhaustive]
pub enum FilterBodyError {
    /// Reading or writing the body failed.
    IoError(std::io::Error),
}

impl From<std::io::Error> for FilterBodyError {
    fn from(error: std::io::Error) -> (res: Self)
    {
        FilterBodyError::IoError(error)
    }
}

impl vstd::std_specs::convert::FromSpecImpl<std::io::Error> for FilterBodyError {
    open spec fn obeys_from_spec() -> bool {
        true
    }

    open spec fn from_spec(v: std::io::Error) -> Self {
        FilterBodyError::IoError(v)
    }
}

} // verus!

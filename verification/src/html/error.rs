use vstd::prelude::*;

verus! {

/// This error describes all of the potential failures that can occur during the html parse process.
#[derive(Debug)]
#[non_exhaustive]
pub enum HtmlParseError {
    FromUtf8Error(std::string::FromUtf8Error),
}

} // verus!

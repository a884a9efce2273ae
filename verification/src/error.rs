//! The library's error type.
use vstd::prelude::*;

verus! {

/// The I/O error type of std, carried by `Error::Io`.
#[verifier::external_type_specification]
#[verifier::external_body]
pub struct ExIoError(std::io::Error);

#[derive(Debug)]
pub enum Error {
    Io(std::io::Error),
    Metadata(String),
    Resolution(String),
    Parse(String),
    Suggestions(String),
    Cli(String),
    Remote(String),
    Other(String),
}

impl From<String> for Error {
    fn from(s: String) -> (r: Self)
        ensures
            r == Error::Other(s),
    {
        Error::Other(s)
    }
}

impl vstd::std_specs::convert::FromSpecImpl<String> for Error {
    open spec fn obeys_from_spec() -> bool {
        true
    }

    open spec fn from_spec(s: String) -> Self {
        Error::Other(s)
    }
}

pub type Result<T> = std::result::Result<T, Error>;

} // verus!

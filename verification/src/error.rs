use vstd::prelude::*;

verus! {

/// `std::io::Error` travels through the library only as a carried value.
#[verifier::external_type_specification]
#[verifier::external_body]
pub struct ExIoError(std::io::Error);

/// Errors that stop a whole operation (as opposed to a single file failing).
#[derive(Debug)]
pub enum Error {
    /// The caller asked for something the converter cannot do.
    InvalidOptions(&'static str),
    /// The file system refused an operation.
    Io(std::io::Error),
}

/// Renders an I/O error the way `std::io::Error`'s `Display` does.
/// Nothing is claimed of the text.
#[verifier::external_body]
fn io_error_text(error: &std::io::Error) -> String {
    format!("{error}")
}

impl Error {
    /// The human-readable message of the error: the fixed text of an
    /// invalid-options error, or the rendering of the I/O error.
    pub fn message(&self) -> (text: String)
        ensures
            self matches Error::InvalidOptions(message) ==> text@ == message@,
    {
        match self {
            Error::InvalidOptions(message) => (*message).to_owned(),
            Error::Io(error) => io_error_text(error),
        }
    }
}

impl From<std::io::Error> for Error {
    fn from(error: std::io::Error) -> (wrapped: Self) {
        Error::Io(error)
    }
}

impl vstd::std_specs::convert::FromSpecImpl<std::io::Error> for Error {
    open spec fn obeys_from_spec() -> bool {
        true
    }

    open spec fn from_spec(error: std::io::Error) -> Self {
        Error::Io(error)
    }
}

} // verus!

use vstd::prelude::*;
use vstd::string::*;

verus! {

#[verifier::external_type_specification]
#[verifier::external_body]
pub struct ExIoError(std::io::Error);

/// Why a connection could not be taken into service.
#[derive(Debug)]
pub enum ConnectionError {
    /// The connection closed before it sent a header.
    NoData,
    /// The header was malformed.
    BadData(String),
    /// Reading from or writing to the socket failed.
    IO(std::io::Error),
    /// The registry refused the connection.
    CannotAssignToReplay,
}

/// Shorthand for a `BadData` error with the given reason.
pub fn bad_data(what: &str) -> (r: ConnectionError)
    ensures
        r matches ConnectionError::BadData(s) && s@ == what@,
{
    ConnectionError::BadData(String::from_str(what))
}

/// An error whose kind does not matter to the caller.
#[derive(Debug)]
pub struct SomeError {}

} // verus!

//! What the daemon answers when it cannot do what it was asked for.
use vstd::prelude::*;

use crate::file::error::Error as FileError;
use crate::file::error::InvalidItemError;
use crate::text::sentence;

verus! {

/// A failure of the bus, or of another part of the system that a request went to.
#[derive(Debug)]
pub struct BusError {
    pub message: String,
}

/// Errors that go out to a client.
#[derive(Debug)]
pub enum ServiceError {
    /// There is no such session.
    NoSession(String),
    /// There is no such object.
    NoSuchObject(String),
    /// The object is locked.
    IsLocked(String),
    /// Anything else that the daemon has words for.
    Failed(String),
    /// The bus failed.
    Bus(BusError),
}

/// The error with these words of the daemon's own.
pub fn custom_service_error(message: &str) -> (error: ServiceError)
    ensures
        is_failure(error, message@),
{
    ServiceError::Failed(message.to_owned())
}

/// The error with these words of the daemon's own.
pub open spec fn is_failure(error: ServiceError, message: Seq<char>) -> bool {
    error matches ServiceError::Failed(text) && text@ == message
}

/// The error whose words are those of an error of a keyring, between two pieces of text.
pub open spec fn is_file_failure(
    error: ServiceError,
    before: Seq<char>,
    e: FileError,
    after: Seq<char>,
) -> bool {
    exists|shown: Seq<char>| #[trigger] e.shown(shown) && is_failure(error, before + shown + after)
}

/// Makes an error of the words of an error of a keyring, between two pieces of text.
pub fn file_failure(before: &str, e: &FileError, after: &str) -> (error: ServiceError)
    ensures
        is_file_failure(error, before@, *e, after@),
{
    let shown = e.display();
    let text = sentence(before, shown.as_str(), after);
    let error = ServiceError::Failed(text);
    assert(is_failure(error, before@ + shown@ + after@));
    error
}

/// Errors of the daemon.
pub enum Error {
    Service(ServiceError),
    File(FileError),
    /// A stored item could not be read.
    InvalidItem(InvalidItemError),
}

} // verus!

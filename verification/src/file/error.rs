//! What can go wrong with a keyring.
use vstd::prelude::*;
use vstd::std_specs::convert::FromSpecImpl;

use crate::crypto::error::Error as CryptoError;
use crate::io_error::IoError;

verus! {

/// Errors of a keyring and of the file behind it.
pub enum Error {
    /// The file could not be read or written.
    Io(IoError),
    /// A cryptographic operation failed.
    Crypto(CryptoError),
    /// The keyring is not of the GPG kind where that kind was asked for, or of the GPG
    /// kind where a password was.
    NotGpgEncrypted,
    /// The keyring has no password that could be changed.
    NotPasswordBased,
    /// The secret does not open the keyring.
    IncorrectSecret,
    /// The prompt was dismissed before there was an answer.
    PromptDismissed,
    /// The contents of the file make no sense, for the reason given.
    Malformed(String),
}

impl From<CryptoError> for Error {
    fn from(value: CryptoError) -> (error: Self) {
        Error::Crypto(value)
    }
}

impl FromSpecImpl<CryptoError> for Error {
    open spec fn obeys_from_spec() -> bool {
        true
    }

    open spec fn from_spec(value: CryptoError) -> Self {
        Error::Crypto(value)
    }
}

impl From<IoError> for Error {
    fn from(value: IoError) -> (error: Self) {
        Error::Io(value)
    }
}

impl FromSpecImpl<IoError> for Error {
    open spec fn obeys_from_spec() -> bool {
        true
    }

    open spec fn from_spec(value: IoError) -> Self {
        Error::Io(value)
    }
}

impl Error {
    /// Whether the text is how the error is shown.
    pub open spec fn shown(self, text: Seq<char>) -> bool {
        match self {
            Error::Io(e) => text == e.message@,
            Error::Crypto(e) => e.shown(text),
            Error::NotGpgEncrypted => text == "The keyring uses another kind of encryption"@,
            Error::NotPasswordBased => text == "The keyring is not based on a password"@,
            Error::IncorrectSecret => text == "The secret is incorrect"@,
            Error::PromptDismissed => text == "The prompt was dismissed"@,
            Error::Malformed(reason) => text == reason@,
        }
    }

    /// Writes the error as it is shown.
    pub fn display(&self) -> (text: String)
        ensures
            self.shown(text@),
    {
        match self {
            Error::Io(e) => e.message.clone(),
            Error::Crypto(e) => e.display(),
            Error::NotGpgEncrypted => "The keyring uses another kind of encryption".to_owned(),
            Error::NotPasswordBased => "The keyring is not based on a password".to_owned(),
            Error::IncorrectSecret => "The secret is incorrect".to_owned(),
            Error::PromptDismissed => "The prompt was dismissed".to_owned(),
            Error::Malformed(reason) => reason.clone(),
        }
    }
}

/// An item that could not be decrypted: why, and the names of its attributes.
pub struct InvalidItemError {
    pub error: Error,
    pub attribute_names: Vec<String>,
}

impl InvalidItemError {
    pub fn new(error: Error, attribute_names: Vec<String>) -> (invalid: InvalidItemError)
        ensures
            invalid == (InvalidItemError { error, attribute_names }),
    {
        InvalidItemError { error, attribute_names }
    }
}

} // verus!

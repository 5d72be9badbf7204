//! Cryptography specific errors.
use vstd::prelude::*;
use vstd::std_specs::convert::FromSpecImpl;

use crate::io_error::IoError;
use crate::text::decimal;
use crate::text::decimal_text;
use crate::text::sentence;

verus! {

/// The stack of errors that OpenSSL reports.
#[verifier::external_type_specification]
#[verifier::external_body]
pub struct ExErrorStack(openssl::error::ErrorStack);

/// The error of a block that cannot be padded.
#[verifier::external_type_specification]
#[verifier::external_body]
pub struct ExPadError(cipher::inout::PadError);

/// The error of a block whose padding is malformed.
#[verifier::external_type_specification]
#[verifier::external_body]
pub struct ExUnpadError(cipher::block_padding::UnpadError);

/// The code by which GPG says that a public key is missing.
pub const NO_PUBKEY: u32 = 9;

/// An error that GPG reports: its code, and the words that GPG has for it.
#[derive(Debug)]
pub struct GpgError {
    pub code: u32,
    pub description: String,
}

impl GpgError {
    /// The error of a public key that is missing.
    pub fn no_pubkey() -> (error: GpgError)
        ensures
            error.code == NO_PUBKEY,
            error.description@ == "No public key"@,
    {
        GpgError { code: NO_PUBKEY, description: "No public key".to_owned() }
    }

    /// The error as it is shown.
    pub open spec fn shown(self) -> Seq<char> {
        self.description@ + " (gpg error "@ + decimal(self.code as nat) + ")"@
    }

    /// Writes the error as it is shown: the words, then the code.
    pub fn display(&self) -> (text: String)
        ensures
            text@ == self.shown(),
    {
        let number = decimal_text(self.code);
        let mut text = sentence(self.description.as_str(), " (gpg error ", number.as_str());
        text.append(")");
        text
    }
}

/// Cryptography specific errors.
#[derive(Debug)]
pub enum Error {
    Openssl(openssl::error::ErrorStack),
    PadError(cipher::inout::PadError),
    UnpadError(cipher::block_padding::UnpadError),
    Gpg(GpgError),
    GpgIo(IoError),
    /// No decryption key is available.
    NoKey,
}

impl From<openssl::error::ErrorStack> for Error {
    fn from(value: openssl::error::ErrorStack) -> (error: Self) {
        Error::Openssl(value)
    }
}

impl FromSpecImpl<openssl::error::ErrorStack> for Error {
    open spec fn obeys_from_spec() -> bool {
        true
    }

    open spec fn from_spec(value: openssl::error::ErrorStack) -> Self {
        Error::Openssl(value)
    }
}

impl From<cipher::block_padding::UnpadError> for Error {
    fn from(value: cipher::block_padding::UnpadError) -> (error: Self) {
        Error::UnpadError(value)
    }
}

impl FromSpecImpl<cipher::block_padding::UnpadError> for Error {
    open spec fn obeys_from_spec() -> bool {
        true
    }

    open spec fn from_spec(value: cipher::block_padding::UnpadError) -> Self {
        Error::UnpadError(value)
    }
}

impl From<cipher::inout::PadError> for Error {
    fn from(value: cipher::inout::PadError) -> (error: Self) {
        Error::PadError(value)
    }
}

impl FromSpecImpl<cipher::inout::PadError> for Error {
    open spec fn obeys_from_spec() -> bool {
        true
    }

    open spec fn from_spec(value: cipher::inout::PadError) -> Self {
        Error::PadError(value)
    }
}

impl From<GpgError> for Error {
    fn from(value: GpgError) -> (error: Self) {
        Error::Gpg(value)
    }
}

impl FromSpecImpl<GpgError> for Error {
    open spec fn obeys_from_spec() -> bool {
        true
    }

    open spec fn from_spec(value: GpgError) -> Self {
        Error::Gpg(value)
    }
}

impl From<IoError> for Error {
    fn from(value: IoError) -> (error: Self) {
        Error::GpgIo(value)
    }
}

impl FromSpecImpl<IoError> for Error {
    open spec fn obeys_from_spec() -> bool {
        true
    }

    open spec fn from_spec(value: IoError) -> Self {
        Error::GpgIo(value)
    }
}

/// What lies behind an error.
pub enum Source<'a> {
    Openssl(&'a openssl::error::ErrorStack),
    Gpg(&'a GpgError),
    Io(&'a IoError),
}

/// `Display` of `cipher::inout::PadError` writes the same two words for every
/// value.
#[verifier::external_body]
fn pad_error_text(error: &cipher::inout::PadError) -> (text: String)
    ensures
        text@ == "Padding error"@,
{
    error.to_string()
}

/// `Display` of `cipher::block_padding::UnpadError` writes the same two words for
/// every value.
#[verifier::external_body]
fn unpad_error_text(error: &cipher::block_padding::UnpadError) -> (text: String)
    ensures
        text@ == "Unpad Error"@,
{
    error.to_string()
}

impl Error {
    /// Whether the text is how the error is shown. What stands behind
    /// "Openssl error: " is what the error stack writes of itself.
    pub open spec fn shown(self, text: Seq<char>) -> bool {
        match self {
            Error::Openssl(e) => exists|stack: String| #[trigger]
                vstd::string::to_string_from_display_ensures::<openssl::error::ErrorStack>(
                    &e,
                    stack,
                ) && text == "Openssl error: "@ + stack@,
            Error::UnpadError(_) => text == "Wrong padding error: "@ + "Unpad Error"@,
            Error::PadError(_) => text == "Wrong padding error: "@ + "Padding error"@,
            Error::Gpg(e) => text == "GPG error: "@ + e.shown(),
            Error::GpgIo(e) => text == "GPG I/O error: "@ + e.message@,
            Error::NoKey => text == "No decryption key available"@,
        }
    }

    /// Writes the error as it is shown.
    pub fn display(&self) -> (text: String)
        ensures
            self.shown(text@),
    {
        match self {
            Error::Openssl(e) => {
                let stack = e.to_string();
                let mut text = "Openssl error: ".to_owned();
                text.append(stack.as_str());
                text
            },
            Error::UnpadError(e) => {
                let mut text = "Wrong padding error: ".to_owned();
                text.append(unpad_error_text(e).as_str());
                text
            },
            Error::PadError(e) => {
                let mut text = "Wrong padding error: ".to_owned();
                text.append(pad_error_text(e).as_str());
                text
            },
            Error::Gpg(e) => {
                let mut text = "GPG error: ".to_owned();
                text.append(e.display().as_str());
                text
            },
            Error::GpgIo(e) => {
                let mut text = "GPG I/O error: ".to_owned();
                text.append(e.message.as_str());
                text
            },
            Error::NoKey => "No decryption key available".to_owned(),
        }
    }

    /// The error that this one was made of, where there is one to look into.
    pub fn source(&self) -> (source: Option<Source<'_>>)
        ensures
            source == (match *self {
                Error::Openssl(e) => Some(Source::Openssl(&e)),
                Error::UnpadError(_) | Error::PadError(_) => None,
                Error::Gpg(e) => Some(Source::Gpg(&e)),
                Error::GpgIo(e) => Some(Source::Io(&e)),
                Error::NoKey => None,
            }),
    {
        match self {
            Error::Openssl(e) => Some(Source::Openssl(e)),
            Error::UnpadError(_) | Error::PadError(_) => None,
            Error::Gpg(e) => Some(Source::Gpg(e)),
            Error::GpgIo(e) => Some(Source::Io(e)),
            Error::NoKey => None,
        }
    }
}

} // verus!

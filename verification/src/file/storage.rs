//! What comes back from the file behind a keyring.
use vstd::prelude::*;

use crate::file::api::Keyring;
use crate::file::error::Error;
use crate::io_error::IoError;
use crate::io_error::IoErrorKind;

verus! {

/// The outcome of reading a keyring file.
pub enum KeyringFile {
    /// The file could not be opened.
    OpenFailed(IoError),
    /// The file was opened, but could not be read, or holds no keyring.
    Unreadable(Error),
    /// The keyring in the file, with the time at which the file was last written.
    Loaded { mtime: Option<std::time::SystemTime>, keyring: Keyring },
}

/// What a keyring starts with: the contents of its file, and where there is no file a
/// fresh keyring.
pub open spec fn contents_or_fresh(file: KeyringFile, fresh: Keyring) -> Result<
    (Option<std::time::SystemTime>, Keyring),
    Error,
> {
    match file {
        KeyringFile::OpenFailed(e) => if e.kind == IoErrorKind::NotFound {
            Ok((None, fresh))
        } else {
            Err(Error::Io(e))
        },
        KeyringFile::Unreadable(e) => Err(e),
        KeyringFile::Loaded { mtime, keyring } => Ok((mtime, keyring)),
    }
}

/// Whether there is no file.
pub open spec fn is_absent(file: KeyringFile) -> bool {
    file matches KeyringFile::OpenFailed(e) && e.kind == IoErrorKind::NotFound
}

/// Takes the contents of the file, and where there is no file the fresh keyring.
pub fn load_or_create(file: KeyringFile, fresh: Keyring) -> (contents: Result<
    (Option<std::time::SystemTime>, Keyring),
    Error,
>)
    ensures
        contents == contents_or_fresh(file, fresh),
{
    match file {
        KeyringFile::OpenFailed(e) => {
            if e.kind == IoErrorKind::NotFound {
                Ok((None, fresh))
            } else {
                Err(Error::Io(e))
            }
        },
        KeyringFile::Unreadable(e) => Err(e),
        KeyringFile::Loaded { mtime, keyring } => Ok((mtime, keyring)),
    }
}

/// The contents of a keyring are to be dumped to a file, which was last read or written at the
/// time. A dump may bring the contents up to date.
pub struct DumpRequest<'a> {
    pub path: &'a std::path::PathBuf,
    pub contents: &'a mut Keyring,
    pub mtime: Option<std::time::SystemTime>,
}

/// The outcome of writing a keyring to its file.
pub enum Written {
    /// The contents could not be written, or the file could not be looked at after that.
    Failed(Error),
    /// The contents were written. The time is missing where the system does not tell it.
    Done { mtime: Option<std::time::SystemTime> },
}

/// The time of the last write that is remembered after a write.
pub open spec fn mtime_after(
    mtime: Option<std::time::SystemTime>,
    written: Written,
) -> Option<std::time::SystemTime> {
    match written {
        Written::Done { mtime: Some(time) } => Some(time),
        _ => mtime,
    }
}

/// What a write returns.
pub open spec fn write_outcome(written: Written) -> Result<(), Error> {
    match written {
        Written::Failed(e) => Err(e),
        Written::Done { .. } => Ok(()),
    }
}

/// A change that was made to a keyring in memory. What it gives is told once the keyring was
/// written.
#[must_use]
pub struct Unsaved<T> {
    given: T,
}

impl<T> Unsaved<T> {
    /// What the change gives.
    pub closed spec fn view(self) -> T {
        self.given
    }

    /// The change that gives this.
    pub(crate) fn new(given: T) -> (change: Unsaved<T>)
        ensures
            change@ == given,
    {
        Unsaved { given }
    }

    /// Ends the operation that made the change with the outcome of the write: an operation
    /// whose change was not written has failed.
    pub fn saved(self, written: Result<(), Error>) -> (outcome: Result<T, Error>)
        ensures
            outcome == (match written {
                Ok(_) => Ok(self@),
                Err(e) => Err(e),
            }),
    {
        match written {
            Ok(_) => Ok(self.given),
            Err(e) => Err(e),
        }
    }
}

/// What came of a change in memory.
pub open spec fn in_memory<T>(outcome: Result<Unsaved<T>, Error>) -> Result<T, Error> {
    match outcome {
        Ok(change) => Ok(change@),
        Err(e) => Err(e),
    }
}

/// Marks what came of a change in memory as not written yet.
pub(crate) fn unsaved<T>(outcome: Result<T, Error>) -> (changed: Result<Unsaved<T>, Error>)
    ensures
        in_memory(changed) == outcome,
{
    match outcome {
        Ok(given) => Ok(Unsaved::new(given)),
        Err(e) => Err(e),
    }
}

} // verus!

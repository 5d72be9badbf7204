//! Keyring loader that detects encryption type and returns appropriate implementation.
use vstd::prelude::*;

use crate::attributes::Attributes;
use crate::crypto::error::Error as CryptoError;
use crate::file::api::Item;
use crate::file::api::Keyring;
use crate::file::api::KeyringCipher;
use crate::file::api::UnlockedItem;
use crate::file::error::Error;
use crate::file::error::InvalidItemError;
use crate::file::gpg_keyring::gpg_loaded;
use crate::file::gpg_keyring::GpgLockedKeyring;
use crate::file::gpg_keyring::GpgUnlockedKeyring;
use crate::file::password_keyring::password_loaded;
use crate::file::password_keyring::secret_changed;
use crate::file::password_keyring::PasswordLockedKeyring;
use crate::file::password_keyring::PasswordUnlockedKeyring;
use crate::file::storage::in_memory;
use crate::file::storage::KeyringFile;
use crate::file::storage::Unsaved;
use crate::file::traits::KeySource;
use crate::file::traits::LockedKeyring;
use crate::file::traits::SecretRule;
use crate::file::traits::UnlockedKeyring;
use crate::io_error::IoErrorKind;
use crate::secret::Key;
use crate::secret::Secret;
use crate::time::Timestamp;

verus! {

/// A locked keyring of either kind.
pub enum AnyLockedKeyring<P, N> {
    Password(PasswordLockedKeyring<P>),
    Gpg(GpgLockedKeyring<N>),
}

/// An unlocked keyring of either kind.
pub enum AnyUnlockedKeyring<P, N> {
    Password(PasswordUnlockedKeyring<P>),
    Gpg(GpgUnlockedKeyring<N>),
}

/// Whether a keyring file is of the GPG kind. A file that is not there counts as the
/// password kind, which is what a new keyring gets.
pub open spec fn detected(probe: KeyringFile) -> Result<bool, Error> {
    match probe {
        KeyringFile::OpenFailed(e) => if e.kind == IoErrorKind::NotFound {
            Ok(false)
        } else {
            Err(Error::Io(e))
        },
        KeyringFile::Unreadable(e) => Err(e),
        KeyringFile::Loaded { keyring, .. } => Ok(keyring.gpg_config is Some),
    }
}

/// Load a keyring from file, returning appropriate implementation based on encryption type.
///
/// The file is read twice: `probe` is what came back the first time, by which the type is
/// detected, and `file` is what came back the second time, which is loaded. The provider is
/// for password keyrings, the notifier for GPG keyrings.
pub fn load_keyring<P, N>(
    path: std::path::PathBuf,
    label: &str,
    secret_provider: P,
    notifier: Option<N>,
    probe: KeyringFile,
    file: KeyringFile,
    fresh: Keyring,
) -> (outcome: Result<AnyLockedKeyring<P, N>, Error>)
    ensures
        match detected(probe) {
            Ok(true) => exists|loaded: Result<GpgLockedKeyring<N>, Error>| #[trigger]
                gpg_loaded(path, label@, notifier, file, loaded) && outcome == (match loaded {
                    Ok(keyring) => Ok::<AnyLockedKeyring<P, N>, Error>(
                        AnyLockedKeyring::Gpg(keyring),
                    ),
                    Err(e) => Err(e),
                }),
            Ok(false) => exists|loaded: Result<PasswordLockedKeyring<P>, Error>| #[trigger]
                password_loaded(path, label@, secret_provider, file, fresh, loaded) && outcome == (
                match loaded {
                    Ok(keyring) => Ok::<AnyLockedKeyring<P, N>, Error>(
                        AnyLockedKeyring::Password(keyring),
                    ),
                    Err(e) => Err(e),
                }),
            Err(e) => outcome == Err::<AnyLockedKeyring<P, N>, Error>(e),
        },
{
    let gpg = match probe {
        KeyringFile::OpenFailed(e) => {
            if e.kind != IoErrorKind::NotFound {
                return Err(Error::Io(e));
            }
            false
        },
        KeyringFile::Unreadable(e) => {
            return Err(e);
        },
        KeyringFile::Loaded { mtime: _, keyring } => keyring.gpg_config.is_some(),
    };
    if gpg {
        let loaded = GpgLockedKeyring::load(path, label, notifier, file);
        assert(gpg_loaded(path, label@, notifier, file, loaded));
        match loaded {
            Ok(keyring) => Ok(AnyLockedKeyring::Gpg(keyring)),
            Err(e) => Err(e),
        }
    } else {
        let loaded = PasswordLockedKeyring::load(path, label, secret_provider, file, fresh);
        assert(password_loaded(path, label@, secret_provider, file, fresh, loaded));
        match loaded {
            Ok(keyring) => Ok(AnyLockedKeyring::Password(keyring)),
            Err(e) => Err(e),
        }
    }
}

/// Check if a keyring file uses GPG encryption, given what came back from it.
///
/// This is useful for determining the encryption type before deciding how to handle the
/// keyring. A file that is not there is an error here.
pub fn is_gpg_encrypted(file: KeyringFile) -> (encrypted: Result<bool, Error>)
    ensures
        encrypted == (match file {
            KeyringFile::OpenFailed(e) => Err(Error::Io(e)),
            KeyringFile::Unreadable(e) => Err(e),
            KeyringFile::Loaded { keyring, .. } => Ok(keyring.gpg_config is Some),
        }),
{
    match file {
        KeyringFile::OpenFailed(e) => Err(Error::Io(e)),
        KeyringFile::Unreadable(e) => Err(e),
        KeyringFile::Loaded { mtime: _, keyring } => Ok(keyring.gpg_config.is_some()),
    }
}

impl<P, N> AnyUnlockedKeyring<P, N> {
    /// Change the keyring's password, in memory. GPG keyrings have none. The keyring has to be
    /// written after that.
    pub fn change_secret<C: KeyringCipher>(&mut self, cipher: &C, secret: Secret) -> (outcome:
        Result<Unsaved<()>, Error>)
        ensures
            match *old(self) {
                AnyUnlockedKeyring::Password(before) => *final(self) matches
                    AnyUnlockedKeyring::Password(after) && secret_changed(
                    before,
                    cipher,
                    secret,
                    after,
                    in_memory(outcome),
                ),
                AnyUnlockedKeyring::Gpg(_) => {
                    &&& *final(self) == *old(self)
                    &&& outcome == Err::<Unsaved<()>, Error>(Error::NotPasswordBased)
                },
            },
    {
        match self {
            AnyUnlockedKeyring::Password(k) => k.change_secret(cipher, secret),
            AnyUnlockedKeyring::Gpg(k) => k.change_secret(secret),
        }
    }
}

impl<P, N> LockedKeyring for AnyLockedKeyring<P, N> {
    open spec fn contents(&self) -> Keyring {
        match self {
            AnyLockedKeyring::Password(k) => k.contents(),
            AnyLockedKeyring::Gpg(k) => k.contents(),
        }
    }

    open spec fn file(&self) -> Option<std::path::PathBuf> {
        match self {
            AnyLockedKeyring::Password(k) => k.file(),
            AnyLockedKeyring::Gpg(k) => k.file(),
        }
    }

    open spec fn password_needed(&self) -> bool {
        self is Password
    }

    open spec fn secret_rule(&self) -> SecretRule {
        match self {
            AnyLockedKeyring::Password(k) => k.secret_rule(),
            AnyLockedKeyring::Gpg(k) => k.secret_rule(),
        }
    }

    fn items(&self) -> Result<Vec<Result<Item, InvalidItemError>>, Error> {
        match self {
            AnyLockedKeyring::Password(k) => k.items(),
            AnyLockedKeyring::Gpg(k) => k.items(),
        }
    }

    fn path(&self) -> Option<&std::path::PathBuf> {
        match self {
            AnyLockedKeyring::Password(k) => k.path(),
            AnyLockedKeyring::Gpg(k) => k.path(),
        }
    }

    fn modified_time(&self) -> Timestamp {
        match self {
            AnyLockedKeyring::Password(k) => k.modified_time(),
            AnyLockedKeyring::Gpg(k) => k.modified_time(),
        }
    }

    fn validate_secret<C: KeyringCipher>(&self, cipher: &C, secret: &Secret) -> Result<
        bool,
        Error,
    > {
        match self {
            AnyLockedKeyring::Password(k) => k.validate_secret(cipher, secret),
            AnyLockedKeyring::Gpg(k) => k.validate_secret(cipher, secret),
        }
    }

    fn requires_password(&self) -> bool {
        match self {
            AnyLockedKeyring::Password(k) => k.requires_password(),
            AnyLockedKeyring::Gpg(k) => k.requires_password(),
        }
    }
}

impl<P, N> UnlockedKeyring<AnyLockedKeyring<P, N>> for AnyUnlockedKeyring<P, N> {
    open spec fn contents(&self) -> Keyring {
        match self {
            AnyUnlockedKeyring::Password(k) => k.contents(),
            AnyUnlockedKeyring::Gpg(k) => k.contents(),
        }
    }

    open spec fn file(&self) -> Option<std::path::PathBuf> {
        match self {
            AnyUnlockedKeyring::Password(k) => k.file(),
            AnyUnlockedKeyring::Gpg(k) => k.file(),
        }
    }

    open spec fn key_source(&self) -> KeySource {
        match self {
            AnyUnlockedKeyring::Password(k) => k.key_source(),
            AnyUnlockedKeyring::Gpg(k) => k.key_source(),
        }
    }

    open spec fn holding(&self, key: Key) -> Self {
        match self {
            AnyUnlockedKeyring::Password(k) => AnyUnlockedKeyring::Password(k.holding(key)),
            AnyUnlockedKeyring::Gpg(k) => AnyUnlockedKeyring::Gpg(k.holding(key)),
        }
    }

    open spec fn storing(&self, contents: Keyring) -> Self {
        match self {
            AnyUnlockedKeyring::Password(k) => AnyUnlockedKeyring::Password(k.storing(contents)),
            AnyUnlockedKeyring::Gpg(k) => AnyUnlockedKeyring::Gpg(k.storing(contents)),
        }
    }

    open spec fn locked(self) -> AnyLockedKeyring<P, N> {
        match self {
            AnyUnlockedKeyring::Password(k) => AnyLockedKeyring::Password(k.locked()),
            AnyUnlockedKeyring::Gpg(k) => AnyLockedKeyring::Gpg(k.locked()),
        }
    }

    open spec fn secret_rule(&self) -> SecretRule {
        match self {
            AnyUnlockedKeyring::Password(k) => k.secret_rule(),
            AnyUnlockedKeyring::Gpg(k) => k.secret_rule(),
        }
    }

    proof fn locking_keeps(self) {
    }

    proof fn holding_keeps(&self, key: Key) {
    }

    proof fn storing_keeps(&self, contents: Keyring) {
    }

    fn items<C: KeyringCipher>(&mut self, cipher: &C) -> Result<
        Vec<Result<Item, InvalidItemError>>,
        Error,
    > {
        let ghost before = (self.key_source(), self.contents());
        match self {
            AnyUnlockedKeyring::Password(k) => k.items(cipher),
            AnyUnlockedKeyring::Gpg(k) => k.items(cipher),
        }
    }

    fn search_items<C: KeyringCipher>(&mut self, cipher: &C, attributes: &Attributes) -> Result<
        Vec<UnlockedItem>,
        Error,
    > {
        let ghost before = (self.key_source(), self.contents());
        match self {
            AnyUnlockedKeyring::Password(k) => k.search_items(cipher, attributes),
            AnyUnlockedKeyring::Gpg(k) => k.search_items(cipher, attributes),
        }
    }

    fn create_item<C: KeyringCipher>(
        &mut self,
        cipher: &C,
        label: &str,
        attributes: &Attributes,
        secret: Secret,
        replace: bool,
    ) -> Result<Unsaved<UnlockedItem>, Error> {
        let ghost before = (self.key_source(), self.contents());
        match self {
            AnyUnlockedKeyring::Password(k) => k.create_item(
                cipher,
                label,
                attributes,
                secret,
                replace,
            ),
            AnyUnlockedKeyring::Gpg(k) => k.create_item(cipher, label, attributes, secret, replace),
        }
    }

    fn delete<C: KeyringCipher>(&mut self, cipher: &C, attributes: &Attributes) -> Result<
        Unsaved<()>,
        Error,
    > {
        let ghost before = (self.key_source(), self.contents());
        match self {
            AnyUnlockedKeyring::Password(k) => k.delete(cipher, attributes),
            AnyUnlockedKeyring::Gpg(k) => k.delete(cipher, attributes),
        }
    }

    fn path(&self) -> Option<&std::path::PathBuf> {
        match self {
            AnyUnlockedKeyring::Password(k) => k.path(),
            AnyUnlockedKeyring::Gpg(k) => k.path(),
        }
    }

    fn modified_time(&self) -> Timestamp {
        match self {
            AnyUnlockedKeyring::Password(k) => k.modified_time(),
            AnyUnlockedKeyring::Gpg(k) => k.modified_time(),
        }
    }

    fn lock(self) -> AnyLockedKeyring<P, N> {
        match self {
            AnyUnlockedKeyring::Password(k) => AnyLockedKeyring::Password(k.lock()),
            AnyUnlockedKeyring::Gpg(k) => AnyLockedKeyring::Gpg(k.lock()),
        }
    }

    fn key<C: KeyringCipher>(&mut self, cipher: &C) -> Result<Key, CryptoError> {
        let ghost before = (self.key_source(), self.contents());
        match self {
            AnyUnlockedKeyring::Password(k) => k.key(cipher),
            AnyUnlockedKeyring::Gpg(k) => k.key(cipher),
        }
    }

    fn validate_secret<C: KeyringCipher>(&self, cipher: &C, secret: &Secret) -> Result<
        bool,
        Error,
    > {
        match self {
            AnyUnlockedKeyring::Password(k) => k.validate_secret(cipher, secret),
            AnyUnlockedKeyring::Gpg(k) => k.validate_secret(cipher, secret),
        }
    }
}

} // verus!

//! GPG-based keyring implementation.
//!
//! This module provides keyring implementations that use GPG encryption with hardware
//! tokens like Yubikey.
use vstd::prelude::*;

use crate::attributes::Attributes;
use crate::crypto::error::Error as CryptoError;
use crate::crypto::gpg::generate_session_key;
use crate::crypto::gpg::SessionKey;
use crate::file::api::all_opened;
use crate::file::api::all_sealed;
use crate::file::api::validates;
use crate::file::api::GpgConfig;
use crate::file::api::Item;
use crate::file::api::Keyring;
use crate::file::api::KeyringCipher;
use crate::file::api::UnlockedItem;
use crate::file::error::Error;
use crate::file::error::InvalidItemError;
use crate::file::storage::mtime_after;
use crate::file::storage::unsaved;
use crate::file::storage::write_outcome;
use crate::file::storage::DumpRequest;
use crate::file::storage::KeyringFile;
use crate::file::storage::Unsaved;
use crate::file::storage::Written;
use crate::file::traits::key_answer;
use crate::file::traits::BeginUnlockResult;
use crate::file::traits::KeySource;
use crate::file::traits::LockedKeyring;
use crate::file::traits::SecretRule;
use crate::file::traits::UnlockNotifier;
use crate::file::traits::UnlockedKeyring;
use crate::secret::Key;
use crate::secret::KeyStrength;
use crate::secret::KeyView;
use crate::secret::Secret;
use crate::time::Timestamp;

verus! {

/// A GPG-based locked keyring.
///
/// This keyring uses GPG encryption with a hardware token (e.g., Yubikey). `N` is told
/// when an unlock begins.
pub struct GpgLockedKeyring<N> {
    pub inner: Keyring,
    pub path: Option<std::path::PathBuf>,
    pub mtime: Option<std::time::SystemTime>,
    pub label: String,
    pub notifier: Option<N>,
}

/// A GPG-based unlocked keyring with full access to its items.
pub struct GpgUnlockedKeyring<N> {
    pub inner: Keyring,
    pub path: Option<std::path::PathBuf>,
    pub mtime: Option<std::time::SystemTime>,
    pub key: Option<Key>,
    pub label: String,
    pub gpg_key_id: String,
    pub notifier: Option<N>,
}

impl<N> LockedKeyring for GpgLockedKeyring<N> {
    open spec fn contents(&self) -> Keyring {
        self.inner
    }

    open spec fn file(&self) -> Option<std::path::PathBuf> {
        self.path
    }

    open spec fn password_needed(&self) -> bool {
        false
    }

    open spec fn secret_rule(&self) -> SecretRule {
        SecretRule::Always(true)
    }

    fn items(&self) -> Result<Vec<Result<Item, InvalidItemError>>, Error> {
        Ok(self.inner.locked_items())
    }

    fn path(&self) -> Option<&std::path::PathBuf> {
        self.path.as_ref()
    }

    fn modified_time(&self) -> Timestamp {
        self.inner.modified_time
    }

    /// GPG keyrings don't use password-based validation: the GPG agent handles
    /// authentication.
    fn validate_secret<C: KeyringCipher>(&self, _cipher: &C, _secret: &Secret) -> Result<
        bool,
        Error,
    > {
        Ok(true)
    }

    fn requires_password(&self) -> bool {
        false
    }
}

/// The outcome of opening a keyring with a master key that was decrypted by GPG: the key,
/// where the keyring is of the GPG kind and the key fits.
pub open spec fn master_key_answer<C: KeyringCipher>(
    cipher: &C,
    contents: &Keyring,
    master_key: Result<SessionKey, Error>,
    answer: Result<Key, Error>,
) -> bool {
    match (contents.gpg_config, master_key) {
        (None, _) => answer == Err::<Key, Error>(Error::NotGpgEncrypted),
        (Some(_), Err(e)) => answer == Err::<Key, Error>(e),
        (Some(_), Ok(bytes)) => exists|key: Key, valid: Result<(), Error>| #[trigger]
            validates(cipher, contents, &key, valid) && key@ == (KeyView {
                bytes: bytes@,
                strength: KeyStrength::Unstated,
            }) && answer == (match valid {
                Ok(_) => Ok::<Key, Error>(key),
                Err(e) => Err(e),
            }),
    }
}

/// Makes a key of a master key and makes sure that it opens the items.
pub fn checked_master_key<C: KeyringCipher>(
    cipher: &C,
    contents: &Keyring,
    master_key: Result<SessionKey, Error>,
) -> (answer: Result<Key, Error>)
    ensures
        master_key_answer(cipher, contents, master_key, answer),
{
    if contents.gpg_config.is_none() {
        return Err(Error::NotGpgEncrypted);
    }
    match master_key {
        Ok(bytes) => {
            let key = Key::new(bytes.to_vec());
            let valid = cipher.validate_key(contents, &key);
            assert(validates(cipher, contents, &key, valid));
            match valid {
                Ok(_) => Ok(key),
                Err(e) => Err(e),
            }
        },
        Err(e) => Err(e),
    }
}

/// The encrypted master key of a keyring, for GPG to decrypt.
pub fn encrypted_master_key(contents: &Keyring) -> (bytes: Result<Vec<u8>, Error>)
    ensures
        match contents.gpg_config {
            Some(config) => bytes matches Ok(b) && b@ == config.encrypted_master_key@,
            None => bytes == Err::<Vec<u8>, Error>(Error::NotGpgEncrypted),
        },
{
    match &contents.gpg_config {
        Some(config) => {
            let bytes = config.encrypted_master_key.clone();
            assert(bytes@ =~= config.encrypted_master_key@);
            Ok(bytes)
        },
        None => Err(Error::NotGpgEncrypted),
    }
}

/// The outcome of loading a GPG-based keyring: it takes the contents of its file, which have
/// to be there and of the GPG kind.
pub open spec fn gpg_loaded<N>(
    path: std::path::PathBuf,
    label: Seq<char>,
    notifier: Option<N>,
    file: KeyringFile,
    outcome: Result<GpgLockedKeyring<N>, Error>,
) -> bool {
    match file {
        KeyringFile::OpenFailed(e) => outcome == Err::<GpgLockedKeyring<N>, Error>(Error::Io(e)),
        KeyringFile::Unreadable(e) => outcome == Err::<GpgLockedKeyring<N>, Error>(e),
        KeyringFile::Loaded { mtime, keyring } => if keyring.gpg_config is None {
            outcome == Err::<GpgLockedKeyring<N>, Error>(Error::NotGpgEncrypted)
        } else {
            outcome matches Ok(locked) && locked == (GpgLockedKeyring {
                inner: keyring,
                path: Some(path),
                mtime,
                label: locked.label,
                notifier,
            }) && locked.label@ == label
        },
    }
}

/// The outcome of unlocking a keyring with what GPG made of its encrypted master key.
pub open spec fn unlocks_with_gpg<C: KeyringCipher, N>(
    keyring: GpgLockedKeyring<N>,
    cipher: &C,
    master_key: Result<SessionKey, Error>,
    outcome: Result<GpgUnlockedKeyring<N>, Error>,
) -> bool {
    exists|checked: Result<Key, Error>| #[trigger]
        master_key_answer(cipher, &keyring.inner, master_key, checked) && outcome == (
        match checked {
            Ok(key) => Ok::<GpgUnlockedKeyring<N>, Error>(keyring.unlocked(key)),
            Err(e) => Err(e),
        })
}

impl<N> GpgLockedKeyring<N> {
    /// The keyring after it was unlocked with a key.
    pub open spec fn unlocked(self, key: Key) -> GpgUnlockedKeyring<N> {
        GpgUnlockedKeyring {
            inner: self.inner,
            path: self.path,
            mtime: self.mtime,
            key: Some(key),
            label: self.label,
            gpg_key_id: self.inner.gpg_config->0.gpg_key_id,
            notifier: self.notifier,
        }
    }

    /// Starts an unlock: notifies that it is starting (e.g., "Touch your Yubikey"), and
    /// returns what GPG is to decrypt.
    pub fn unlock_request(&self) -> (bytes: Result<Vec<u8>, Error>) where N: UnlockNotifier
        ensures
            self.notifier matches Some(n) ==> exists|label: &str, method: &str|
                label@ == self.label@ && method@ == "GPG/Yubikey"@ && #[trigger] call_ensures(
                    N::unlock_starting,
                    (&n, label, method),
                    (),
                ),
            match self.inner.gpg_config {
                Some(config) => bytes matches Ok(b) && b@ == config.encrypted_master_key@,
                None => bytes == Err::<Vec<u8>, Error>(Error::NotGpgEncrypted),
            },
    {
        match &self.notifier {
            Some(notifier) => {
                let label = self.label.as_str();
                let method = "GPG/Yubikey";
                notifier.unlock_starting(label, method);
                assert(call_ensures(N::unlock_starting, (notifier, label, method), ()));
            },
            None => {},
        }
        encrypted_master_key(&self.inner)
    }

    /// Unlock the keyring with what GPG made of the encrypted master key.
    pub fn unlock<C: KeyringCipher>(self, cipher: &C, master_key: Result<SessionKey, Error>) -> (
    outcome: Result<GpgUnlockedKeyring<N>, Error>)
        ensures
            unlocks_with_gpg(self, cipher, master_key, outcome),
    {
        let checked = checked_master_key(cipher, &self.inner, master_key);
        assert(master_key_answer(cipher, &self.inner, master_key, checked));
        match checked {
            Ok(key) => {
                let gpg_key_id = self.inner.gpg_config.as_ref().unwrap().gpg_key_id.clone();
                Ok(
                    GpgUnlockedKeyring {
                        inner: self.inner,
                        path: self.path,
                        mtime: self.mtime,
                        key: Some(key),
                        label: self.label,
                        gpg_key_id,
                        notifier: self.notifier,
                    },
                )
            },
            Err(e) => Err(e),
        }
    }

    /// Begin the unlock process: a GPG keyring unlocks immediately.
    pub fn begin_unlock<C: KeyringCipher>(
        self,
        cipher: &C,
        master_key: Result<SessionKey, Error>,
    ) -> (begun: Result<BeginUnlockResult<GpgUnlockedKeyring<N>>, Error>)
        ensures
            exists|outcome: Result<GpgUnlockedKeyring<N>, Error>| #[trigger]
                unlocks_with_gpg(self, cipher, master_key, outcome) && begun == (match outcome {
                    Ok(unlocked) => Ok::<BeginUnlockResult<GpgUnlockedKeyring<N>>, Error>(
                        BeginUnlockResult::Unlocked(unlocked),
                    ),
                    Err(e) => Err(e),
                }),
    {
        let outcome = self.unlock(cipher, master_key);
        assert(unlocks_with_gpg(self, cipher, master_key, outcome));
        match outcome {
            Ok(unlocked) => Ok(BeginUnlockResult::Unlocked(unlocked)),
            Err(e) => Err(e),
        }
    }

    /// Unlock the keyring, whatever the secret: GPG keyrings don't use password secrets.
    pub fn unlock_with_secret<C: KeyringCipher>(
        self,
        cipher: &C,
        _secret: &Secret,
        master_key: Result<SessionKey, Error>,
    ) -> (outcome: Result<GpgUnlockedKeyring<N>, Error>)
        ensures
            unlocks_with_gpg(self, cipher, master_key, outcome),
    {
        self.unlock(cipher, master_key)
    }

    /// Load a GPG-based keyring, given what came back from its file.
    pub fn load(
        path: std::path::PathBuf,
        label: &str,
        notifier: Option<N>,
        file: KeyringFile,
    ) -> (outcome: Result<GpgLockedKeyring<N>, Error>)
        ensures
            gpg_loaded(path, label@, notifier, file, outcome),
    {
        match file {
            KeyringFile::OpenFailed(e) => Err(Error::Io(e)),
            KeyringFile::Unreadable(e) => Err(e),
            KeyringFile::Loaded { mtime, keyring } => {
                if keyring.gpg_config.is_none() {
                    return Err(Error::NotGpgEncrypted);
                }
                Ok(
                    GpgLockedKeyring {
                        inner: keyring,
                        path: Some(path),
                        mtime,
                        label: label.to_owned(),
                        notifier,
                    },
                )
            },
        }
    }
}

/// The outcome of rotating the master key, given the new one and what GPG made of it.
///
/// Nothing changes unless there is an old key, GPG has encrypted the new one, and all items
/// open with the old one. Where an item cannot be sealed again, those before it are left,
/// under the new key, while the old key and the old configuration stay.
pub open spec fn rotated<C: KeyringCipher, N>(
    before: GpgUnlockedKeyring<N>,
    cipher: &C,
    master_key: Seq<u8>,
    encrypted: Result<Vec<u8>, CryptoError>,
    after: GpgUnlockedKeyring<N>,
    outcome: Result<(), Error>,
) -> bool {
    match (before.key, encrypted) {
        (None, _) => after == before && outcome == Err::<(), Error>(
            Error::Crypto(CryptoError::NoKey),
        ),
        (Some(_), Err(e)) => after == before && outcome == Err::<(), Error>(Error::Crypto(e)),
        (Some(old_key), Ok(encrypted_master_key)) => exists|
            opened: Result<Seq<UnlockedItem>, Error>,
        | #[trigger]
            all_opened(cipher, before.inner.items@, &old_key, opened) && match opened {
                Ok(items) => exists|new_key: Key| #[trigger]
                    all_sealed(cipher, items, &new_key, after.inner.items@, outcome) && new_key@
                        == (KeyView { bytes: master_key, strength: KeyStrength::Adequate })
                        && after == (match outcome {
                        Ok(_) => GpgUnlockedKeyring {
                            inner: Keyring {
                                items: after.inner.items,
                                gpg_config: Some(
                                    GpgConfig {
                                        gpg_key_id: before.gpg_key_id,
                                        encrypted_master_key,
                                    },
                                ),
                                ..before.inner
                            },
                            key: Some(new_key),
                            ..before
                        },
                        Err(_) => GpgUnlockedKeyring {
                            inner: Keyring { items: after.inner.items, ..before.inner },
                            ..before
                        },
                    }),
                Err(e) => after == before && outcome == Err::<(), Error>(e),
            },
    }
}

/// The new master key of a keyring, which GPG is to encrypt to the key `gpg_key_id`.
pub struct SaveRequest {
    pub gpg_key_id: String,
    pub master_key: SessionKey,
}

impl<N> UnlockedKeyring<GpgLockedKeyring<N>> for GpgUnlockedKeyring<N> {
    open spec fn contents(&self) -> Keyring {
        self.inner
    }

    open spec fn file(&self) -> Option<std::path::PathBuf> {
        self.path
    }

    open spec fn key_source(&self) -> KeySource {
        match self.key {
            Some(key) => KeySource::AtHand(key),
            None => KeySource::Missing,
        }
    }

    open spec fn holding(&self, key: Key) -> Self {
        GpgUnlockedKeyring { key: Some(key), ..*self }
    }

    open spec fn storing(&self, contents: Keyring) -> Self {
        GpgUnlockedKeyring { inner: contents, ..*self }
    }

    open spec fn locked(self) -> GpgLockedKeyring<N> {
        GpgLockedKeyring {
            inner: self.inner,
            path: self.path,
            mtime: self.mtime,
            label: self.label,
            notifier: self.notifier,
        }
    }

    open spec fn secret_rule(&self) -> SecretRule {
        SecretRule::Always(false)
    }

    proof fn locking_keeps(self) {
    }

    proof fn holding_keeps(&self, key: Key) {
    }

    proof fn storing_keeps(&self, contents: Keyring) {
    }

    fn items<C: KeyringCipher>(&mut self, cipher: &C) -> Result<
        Vec<Result<Item, InvalidItemError>>,
        Error,
    > {
        assert(key_answer(old(self).key_source(), cipher, &old(self).contents(), self.answer()));
        match &self.key {
            Some(key) => Ok(self.inner.open_items(cipher, key)),
            None => Err(Error::Crypto(CryptoError::NoKey)),
        }
    }

    fn search_items<C: KeyringCipher>(&mut self, cipher: &C, attributes: &Attributes) -> Result<
        Vec<UnlockedItem>,
        Error,
    > {
        assert(key_answer(old(self).key_source(), cipher, &old(self).contents(), self.answer()));
        match &self.key {
            Some(key) => self.inner.search_items(cipher, attributes, key),
            None => Err(Error::Crypto(CryptoError::NoKey)),
        }
    }

    fn create_item<C: KeyringCipher>(
        &mut self,
        cipher: &C,
        label: &str,
        attributes: &Attributes,
        secret: Secret,
        replace: bool,
    ) -> Result<Unsaved<UnlockedItem>, Error> {
        assert(key_answer(old(self).key_source(), cipher, &old(self).contents(), self.answer()));
        match &self.key {
            Some(key) => unsaved(
                self.inner.create_item(cipher, label, attributes, secret, replace, key),
            ),
            None => Err(Error::Crypto(CryptoError::NoKey)),
        }
    }

    fn delete<C: KeyringCipher>(&mut self, cipher: &C, attributes: &Attributes) -> Result<
        Unsaved<()>,
        Error,
    > {
        assert(key_answer(old(self).key_source(), cipher, &old(self).contents(), self.answer()));
        match &self.key {
            Some(key) => unsaved(self.inner.remove_items(cipher, attributes, key)),
            None => Err(Error::Crypto(CryptoError::NoKey)),
        }
    }

    fn path(&self) -> Option<&std::path::PathBuf> {
        self.path.as_ref()
    }

    fn modified_time(&self) -> Timestamp {
        self.inner.modified_time
    }

    fn lock(self) -> GpgLockedKeyring<N> {
        GpgLockedKeyring {
            inner: self.inner,
            path: self.path,
            mtime: self.mtime,
            label: self.label,
            notifier: self.notifier,
        }
    }

    fn key<C: KeyringCipher>(&mut self, cipher: &C) -> Result<Key, CryptoError> {
        assert(key_answer(old(self).key_source(), cipher, &old(self).contents(), self.answer()));
        match &self.key {
            Some(key) => Ok(key.duplicate()),
            None => Err(CryptoError::NoKey),
        }
    }

    /// GPG keyrings don't use password-based secrets: they use the GPG agent for
    /// authentication.
    fn validate_secret<C: KeyringCipher>(&self, _cipher: &C, _secret: &Secret) -> Result<
        bool,
        Error,
    > {
        Ok(false)
    }
}

impl<N> GpgUnlockedKeyring<N> {
    /// The key, where it is at hand.
    pub open spec fn answer(self) -> Result<Key, CryptoError> {
        match self.key {
            Some(key) => Ok(key),
            None => Err(CryptoError::NoKey),
        }
    }

    /// GPG keyrings cannot change password: the GPG key's passphrase is managed by
    /// gpg-agent.
    pub fn change_secret(&mut self, _secret: Secret) -> (outcome: Result<Unsaved<()>, Error>)
        ensures
            *final(self) == *old(self),
            outcome == Err::<Unsaved<()>, Error>(Error::NotPasswordBased),
    {
        Err(Error::NotPasswordBased)
    }

    /// Starts a save: a GPG keyring gets a new master key (16 bytes for AES-128) before it is
    /// written, which GPG is to encrypt. Without a current key there is no save.
    pub fn begin_save(&self) -> (request: Result<SaveRequest, Error>)
        ensures
            match self.key {
                Some(_) => request matches Ok(r) && r.gpg_key_id@ == self.gpg_key_id@
                    && r.master_key@.len() == 16,
                None => request == Err::<SaveRequest, Error>(Error::Crypto(CryptoError::NoKey)),
            },
    {
        if self.key.is_none() {
            return Err(Error::Crypto(CryptoError::NoKey));
        }
        match generate_session_key(16) {
            Ok(master_key) => Ok(SaveRequest { gpg_key_id: self.gpg_key_id.clone(), master_key }),
            Err(e) => Err(Error::Crypto(e)),
        }
    }

    /// Rotate the master key for forward secrecy: decrypts all items with the old key and
    /// re-encrypts them with the new one, in memory.
    pub fn rotate_key<C: KeyringCipher>(
        &mut self,
        cipher: &C,
        master_key: &SessionKey,
        encrypted: Result<Vec<u8>, CryptoError>,
    ) -> (outcome: Result<(), Error>)
        ensures
            rotated(*old(self), cipher, master_key@, encrypted, *final(self), outcome),
    {
        if self.key.is_none() {
            return Err(Error::Crypto(CryptoError::NoKey));
        }
        let encrypted_master_key = match encrypted {
            Ok(bytes) => bytes,
            Err(e) => {
                return Err(Error::Crypto(e));
            },
        };
        let new_key = Key::new_with_strength(master_key.to_vec(), KeyStrength::Adequate);
        let opened = self.inner.open_all(cipher, self.key.as_ref().unwrap());
        let items = match opened {
            Ok(items) => items,
            Err(e) => {
                return Err(e);
            },
        };
        assert(all_opened(cipher, self.inner.items@, &self.key->0, Ok(items@)));
        self.inner.items.clear();
        let sealed = self.inner.seal_all(cipher, &items, &new_key);
        assert(self.inner.items@.skip(0) =~= self.inner.items@);
        assert(all_sealed(cipher, items@, &new_key, self.inner.items@, sealed));
        match sealed {
            Ok(_) => {},
            Err(e) => {
                return Err(e);
            },
        }
        self.inner.gpg_config = Some(
            GpgConfig { gpg_key_id: self.gpg_key_id.clone(), encrypted_master_key },
        );
        self.key = Some(new_key);
        assert(all_sealed(cipher, items@, &new_key, self.inner.items@, Ok(())));
        Ok(())
    }

    /// Write changes to persistent storage, given what GPG made of the new master key: rotates
    /// the key, whether or not the keyring has a file, and returns what is to be dumped, the
    /// contents under the new key.
    pub fn write<C: KeyringCipher>(
        &mut self,
        cipher: &C,
        request: &SaveRequest,
        encrypted: Result<Vec<u8>, CryptoError>,
    ) -> (outcome: Result<Option<DumpRequest<'_>>, Error>)
        ensures
            match outcome {
                Ok(Some(dump)) => {
                    &&& old(self).path == Some(*dump.path)
                    &&& dump.mtime == old(self).mtime
                    &&& rotated(
                        *old(self),
                        cipher,
                        request.master_key@,
                        encrypted,
                        (GpgUnlockedKeyring { inner: *dump.contents, ..*final(self) }),
                        Ok(()),
                    )
                    &&& final(self).inner == *final(dump.contents)
                },
                Ok(None) => {
                    &&& old(self).path is None
                    &&& rotated(
                        *old(self),
                        cipher,
                        request.master_key@,
                        encrypted,
                        *final(self),
                        Ok(()),
                    )
                },
                Err(e) => rotated(
                    *old(self),
                    cipher,
                    request.master_key@,
                    encrypted,
                    *final(self),
                    Err(e),
                ),
            },
    {
        match self.rotate_key(cipher, &request.master_key, encrypted) {
            Ok(done) => {
                assert(done == ());
            },
            Err(e) => {
                return Err(e);
            },
        }
        match &self.path {
            Some(path) => Ok(
                Some(DumpRequest { path, contents: &mut self.inner, mtime: self.mtime }),
            ),
            None => Ok(None),
        }
    }

    /// Goes on with a write once the keyring was dumped, or could not be: takes note of the
    /// time.
    pub fn finish_write(&mut self, written: Written) -> (outcome: Result<(), Error>)
        ensures
            *final(self) == (GpgUnlockedKeyring {
                mtime: mtime_after(old(self).mtime, written),
                ..*old(self)
            }),
            outcome == write_outcome(written),
    {
        match written {
            Written::Failed(e) => Err(e),
            Written::Done { mtime } => {
                if mtime.is_some() {
                    self.mtime = mtime;
                }
                Ok(())
            },
        }
    }
}

} // verus!

//! A keyring that does not know how it will be unlocked: the caller brings the secret, or
//! what GPG made of the master key.
use vstd::prelude::*;

use crate::crypto::gpg::SessionKey;
use crate::file::api::lists_locked;
use crate::file::api::Item;
use crate::file::api::Keyring;
use crate::file::api::KeyringCipher;
use crate::file::error::Error;
use crate::file::error::InvalidItemError;
use crate::file::gpg_keyring::checked_master_key;
use crate::file::gpg_keyring::encrypted_master_key;
use crate::file::gpg_keyring::master_key_answer;
use crate::file::password_keyring::checked_key;
use crate::file::password_keyring::unlock_answer;
use crate::file::storage::contents_or_fresh;
use crate::file::storage::load_or_create;
use crate::file::storage::KeyringFile;
use crate::file::traits::accepts;
use crate::file::traits::SecretRule;
use crate::secret::Key;
use crate::secret::KeyStrength;
use crate::secret::KeyView;
use crate::secret::Secret;
use crate::time::Timestamp;

verus! {

/// A locked keyring that requires a secret to unlock.
#[derive(Debug)]
pub struct LockedKeyring {
    pub keyring: Keyring,
    pub path: Option<std::path::PathBuf>,
    pub mtime: Option<std::time::SystemTime>,
}

/// An unlocked keyring.
pub struct UnlockedKeyring {
    pub keyring: Keyring,
    pub path: Option<std::path::PathBuf>,
    pub mtime: Option<std::time::SystemTime>,
    pub key: Option<Key>,
    pub secret: Secret,
}

/// The outcome of loading a keyring: it takes the contents of its file, or fresh ones.
pub open spec fn loaded(
    path: std::path::PathBuf,
    file: KeyringFile,
    fresh: Keyring,
) -> Result<LockedKeyring, Error> {
    match contents_or_fresh(file, fresh) {
        Ok((mtime, keyring)) => Ok(LockedKeyring { keyring, path: Some(path), mtime }),
        Err(e) => Err(e),
    }
}

impl LockedKeyring {
    /// The keyring after it was unlocked, with a key where one was made.
    pub open spec fn unlocked(self, key: Option<Key>, secret: Secret) -> UnlockedKeyring {
        UnlockedKeyring { keyring: self.keyring, path: self.path, mtime: self.mtime, key, secret }
    }

    /// Validate that a secret can decrypt the items in this keyring.
    ///
    /// For empty keyrings, this always returns `true` since there are no items to validate
    /// against.
    pub fn validate_secret<C: KeyringCipher>(&self, cipher: &C, secret: &Secret) -> (valid: Result<
        bool,
        Error,
    >)
        ensures
            accepts(SecretRule::ByCipher, cipher, &self.keyring, secret, valid),
    {
        self.keyring.validate_secret(cipher, secret)
    }

    /// Return the associated file if any.
    pub fn path(&self) -> (path: Option<&std::path::PathBuf>)
        ensures
            match path {
                Some(p) => self.path == Some(*p),
                None => self.path is None,
            },
    {
        self.path.as_ref()
    }

    /// Get the modification timestamp
    pub fn modified_time(&self) -> (time: Timestamp)
        ensures
            time == self.keyring.modified_time,
    {
        self.keyring.modified_time
    }

    /// Check if this keyring uses GPG encryption.
    ///
    /// Returns `true` if the keyring is encrypted with GPG, `false` if it uses
    /// password-based encryption.
    pub fn is_gpg_encrypted(&self) -> (encrypted: bool)
        ensures
            encrypted == (self.keyring.gpg_config is Some),
    {
        self.keyring.gpg_config.is_some()
    }

    /// Retrieve the list of available items without decrypting them.
    pub fn items(&self) -> (list: Result<Vec<Result<Item, InvalidItemError>>, Error>)
        ensures
            list matches Ok(entries) && lists_locked(self.keyring.items@, entries@),
    {
        Ok(self.keyring.locked_items())
    }

    /// Unlocks a keyring and validates it
    pub fn unlock<C: KeyringCipher>(self, cipher: &C, secret: Secret) -> (outcome: Result<
        UnlockedKeyring,
        Error,
    >)
        ensures
            exists|checked: Result<Key, Error>| #[trigger]
                unlock_answer(cipher, &self.keyring, &secret, checked) && outcome == (
                match checked {
                    Ok(key) => Ok::<UnlockedKeyring, Error>(self.unlocked(Some(key), secret)),
                    Err(e) => Err(e),
                }),
    {
        let checked = checked_key(cipher, &self.keyring, &secret);
        assert(unlock_answer(cipher, &self.keyring, &secret, checked));
        match checked {
            Ok(key) => Ok(self.into_unlocked(Some(key), secret)),
            Err(e) => Err(e),
        }
    }

    /// Unlocks a keyring without validating it: the secret may not decrypt the items.
    pub fn unlock_unchecked(self, secret: Secret) -> (outcome: Result<UnlockedKeyring, Error>)
        ensures
            outcome == Ok::<UnlockedKeyring, Error>(self.unlocked(None, secret)),
    {
        Ok(self.into_unlocked(None, secret))
    }

    /// The encrypted master key, which GPG has to decrypt before `unlock_with_gpg`.
    pub fn unlock_request(&self) -> (bytes: Result<Vec<u8>, Error>)
        ensures
            match self.keyring.gpg_config {
                Some(config) => bytes matches Ok(b) && b@ == config.encrypted_master_key@,
                None => bytes == Err::<Vec<u8>, Error>(Error::NotGpgEncrypted),
            },
    {
        encrypted_master_key(&self.keyring)
    }

    /// Unlocks a GPG-encrypted keyring and validates it, with what GPG made of the master
    /// key. An empty secret takes the place of the password that there is not.
    pub fn unlock_with_gpg<C: KeyringCipher>(
        self,
        cipher: &C,
        master_key: Result<SessionKey, Error>,
    ) -> (outcome: Result<UnlockedKeyring, Error>)
        ensures
            exists|checked: Result<Key, Error>| #[trigger]
                master_key_answer(cipher, &self.keyring, master_key, checked) && match checked {
                    Ok(key) => outcome matches Ok(keyring) && keyring == self.unlocked(
                        Some(key),
                        keyring.secret,
                    ) && keyring.secret@ == Seq::<u8>::empty(),
                    Err(e) => outcome == Err::<UnlockedKeyring, Error>(e),
                },
    {
        let checked = checked_master_key(cipher, &self.keyring, master_key);
        assert(master_key_answer(cipher, &self.keyring, master_key, checked));
        match checked {
            Ok(key) => Ok(self.into_unlocked(Some(key), no_secret())),
            Err(e) => Err(e),
        }
    }

    /// Unlocks a GPG-encrypted keyring without validating it, with what GPG made of the master
    /// key: that key may not decrypt the items.
    pub fn unlock_with_gpg_unchecked(self, master_key: Result<SessionKey, Error>) -> (outcome:
        Result<UnlockedKeyring, Error>)
        ensures
            match (self.keyring.gpg_config, master_key) {
                (None, _) => outcome == Err::<UnlockedKeyring, Error>(Error::NotGpgEncrypted),
                (Some(_), Err(e)) => outcome == Err::<UnlockedKeyring, Error>(e),
                (Some(_), Ok(bytes)) => {
                    &&& outcome matches Ok(keyring)
                    &&& keyring == self.unlocked(keyring.key, keyring.secret)
                    &&& keyring.key matches Some(key) && key@ == (KeyView {
                        bytes: bytes@,
                        strength: KeyStrength::Unstated,
                    })
                    &&& keyring.secret@ == Seq::<u8>::empty()
                },
            },
    {
        if self.keyring.gpg_config.is_none() {
            return Err(Error::NotGpgEncrypted);
        }
        match master_key {
            Ok(bytes) => {
                let key = Key::new(bytes.to_vec());
                Ok(self.into_unlocked(Some(key), no_secret()))
            },
            Err(e) => Err(e),
        }
    }

    fn into_unlocked(self, key: Option<Key>, secret: Secret) -> (keyring: UnlockedKeyring)
        ensures
            keyring == self.unlocked(key, secret),
    {
        UnlockedKeyring { keyring: self.keyring, path: self.path, mtime: self.mtime, key, secret }
    }

    /// Load a keyring, given what came back from its file. Where there is no file, the
    /// keyring starts with the contents of `fresh`.
    pub fn load(path: std::path::PathBuf, file: KeyringFile, fresh: Keyring) -> (outcome: Result<
        LockedKeyring,
        Error,
    >)
        ensures
            outcome == loaded(path, file, fresh),
    {
        match load_or_create(file, fresh) {
            Ok((mtime, keyring)) => Ok(LockedKeyring { keyring, path: Some(path), mtime }),
            Err(e) => Err(e),
        }
    }

    /// Open a named keyring, given where its file is (or why there is none).
    pub fn open(
        path: Result<std::path::PathBuf, Error>,
        file: KeyringFile,
        fresh: Keyring,
    ) -> (outcome: Result<LockedKeyring, Error>)
        ensures
            outcome == (match path {
                Ok(p) => loaded(p, file, fresh),
                Err(e) => Err(e),
            }),
    {
        match path {
            Ok(p) => LockedKeyring::load(p, file, fresh),
            Err(e) => Err(e),
        }
    }
}

fn no_secret() -> (secret: Secret)
    ensures
        secret@ == Seq::<u8>::empty(),
{
    let secret = Secret::text("");
    proof {
        reveal_strlit("");
        assert(""@ =~= Seq::<char>::empty());
        reveal_with_fuel(vstd::utf8::encode_utf8, 1);
        assert(secret@ =~= Seq::<u8>::empty());
    }
    secret
}

} // verus!

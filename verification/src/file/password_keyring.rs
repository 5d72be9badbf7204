//! Password-based keyring implementation.
//!
//! This module provides keyring implementations that use password-based encryption
//! (PBKDF2 key derivation).
use vstd::prelude::*;

use crate::attributes::Attributes;
use crate::crypto::error::Error as CryptoError;
use crate::file::api::all_opened;
use crate::file::api::all_sealed;
use crate::file::api::derives;
use crate::file::api::validates;
use crate::file::api::Item;
use crate::file::api::Keyring;
use crate::file::api::KeyringCipher;
use crate::file::api::UnlockedItem;
use crate::file::error::Error;
use crate::file::error::InvalidItemError;
use crate::file::storage::contents_or_fresh;
use crate::file::storage::in_memory;
use crate::file::storage::is_absent;
use crate::file::storage::load_or_create;
use crate::file::storage::mtime_after;
use crate::file::storage::unsaved;
use crate::file::storage::write_outcome;
use crate::file::storage::DumpRequest;
use crate::file::storage::KeyringFile;
use crate::file::storage::Unsaved;
use crate::file::storage::Written;
use crate::file::traits::key_answer;
use crate::file::traits::BeginUnlockResult;
use crate::file::traits::KeySource;
use crate::file::traits::LockedKeyring;
use crate::file::traits::SecretProvider;
use crate::file::traits::SecretRule;
use crate::file::traits::UnlockedKeyring;
use crate::io_error::IoError;
use crate::io_error::IoErrorKind;
use crate::secret::Key;
use crate::secret::Secret;
use crate::text::capitalize;
use crate::text::capitalized;
use crate::time::Timestamp;

verus! {

/// A password-based locked keyring.
///
/// This keyring uses PBKDF2 key derivation from a user-provided password. `P` is the
/// provider that obtains the password.
pub struct PasswordLockedKeyring<P> {
    pub inner: Keyring,
    pub path: Option<std::path::PathBuf>,
    pub mtime: Option<std::time::SystemTime>,
    pub label: String,
    pub secret_provider: P,
}

/// A password-based unlocked keyring with full access to its items.
pub struct PasswordUnlockedKeyring<P> {
    pub inner: Keyring,
    pub path: Option<std::path::PathBuf>,
    pub mtime: Option<std::time::SystemTime>,
    pub key: Option<Key>,
    pub secret: Secret,
    pub label: String,
    pub secret_provider: P,
}

/// The outcome of an attempt to open a keyring with a secret: the key, where it can be
/// derived and fits.
pub open spec fn unlock_answer<C: KeyringCipher>(
    cipher: &C,
    contents: &Keyring,
    secret: &Secret,
    answer: Result<Key, Error>,
) -> bool {
    exists|derived: Result<Key, CryptoError>| #[trigger]
        derives(cipher, contents, secret, derived) && match derived {
            Ok(key) => exists|valid: Result<(), Error>| #[trigger]
                validates(cipher, contents, &key, valid) && match valid {
                    Ok(_) => answer == Ok::<Key, Error>(key),
                    Err(e) => answer == Err::<Key, Error>(e),
                },
            Err(e) => answer == Err::<Key, Error>(Error::Crypto(e)),
        }
}

/// Derives the key and makes sure that it opens the items.
pub fn checked_key<C: KeyringCipher>(cipher: &C, contents: &Keyring, secret: &Secret) -> (answer:
    Result<Key, Error>)
    ensures
        unlock_answer(cipher, contents, secret, answer),
{
    let derived = cipher.derive_key(contents, secret);
    assert(derives(cipher, contents, secret, derived));
    match derived {
        Ok(key) => {
            let valid = cipher.validate_key(contents, &key);
            assert(validates(cipher, contents, &key, valid));
            match valid {
                Ok(_) => Ok(key),
                Err(e) => Err(e),
            }
        },
        Err(e) => Err(Error::Crypto(e)),
    }
}

/// What came of one answer of the user.
pub enum UnlockStep<P> {
    /// The secret opened the keyring.
    Unlocked(PasswordUnlockedKeyring<P>),
    /// Password was wrong: the provider is to be asked for another, with the same keyring.
    Rejected(PasswordLockedKeyring<P>),
    /// There is no secret to try, or the attempt failed for another reason.
    Failed(Error),
}

/// What comes of an answer of the provider: without a secret the unlocking ends; a secret
/// is tried, and the keyring stays as it was where the secret is wrong.
pub open spec fn answered<C: KeyringCipher, P>(
    keyring: PasswordLockedKeyring<P>,
    cipher: &C,
    answer: Result<Secret, Error>,
    step: UnlockStep<P>,
) -> bool {
    match answer {
        Ok(secret) => exists|checked: Result<Key, Error>| #[trigger]
            unlock_answer(cipher, &keyring.inner, &secret, checked) && match checked {
                Ok(key) => step == UnlockStep::Unlocked(keyring.unlocked(key, secret)),
                Err(Error::IncorrectSecret) => step == UnlockStep::Rejected(keyring),
                Err(e) => step == UnlockStep::<P>::Failed(e),
            },
        Err(e) => step == UnlockStep::<P>::Failed(e),
    }
}

/// The provider was asked for another secret after a rejection, and gave this answer.
pub open spec fn asked_again<P: SecretProvider>(
    keyring: PasswordLockedKeyring<P>,
    answer: Result<Secret, Error>,
) -> bool {
    exists|label: &str|
        label@ == keyring.label@ && #[trigger] call_ensures(
            P::secret_rejected,
            (&keyring.secret_provider, label, &Error::IncorrectSecret),
            answer,
        )
}

/// The outcome of unlocking a keyring with a known secret.
pub open spec fn unlocks_with_secret<C: KeyringCipher, P>(
    keyring: PasswordLockedKeyring<P>,
    cipher: &C,
    secret: &Secret,
    outcome: Result<PasswordUnlockedKeyring<P>, Error>,
) -> bool {
    exists|checked: Result<Key, Error>| #[trigger]
        unlock_answer(cipher, &keyring.inner, secret, checked) && match checked {
            Ok(key) => outcome matches Ok(unlocked) && unlocked == keyring.unlocked(
                key,
                unlocked.secret,
            ) && unlocked.secret@ == secret@,
            Err(e) => outcome == Err::<PasswordUnlockedKeyring<P>, Error>(e),
        }
}

impl<P> LockedKeyring for PasswordLockedKeyring<P> {
    open spec fn contents(&self) -> Keyring {
        self.inner
    }

    open spec fn file(&self) -> Option<std::path::PathBuf> {
        self.path
    }

    open spec fn password_needed(&self) -> bool {
        true
    }

    open spec fn secret_rule(&self) -> SecretRule {
        SecretRule::ByCipher
    }

    fn items(&self) -> Result<Vec<Result<Item, InvalidItemError>>, Error> {
        Ok(self.inner.locked_items())
    }

    fn path(&self) -> Option<&std::path::PathBuf> {
        self.path.as_ref()
    }

    fn modified_time(&self) -> Timestamp {
        self.inner.modified_time
    }

    fn validate_secret<C: KeyringCipher>(&self, cipher: &C, secret: &Secret) -> Result<
        bool,
        Error,
    > {
        self.inner.validate_secret(cipher, secret)
    }

    fn requires_password(&self) -> bool {
        true
    }
}

/// The outcome of loading a password-based keyring: it takes the contents of its file (or
/// fresh ones), unless they are of the GPG kind.
pub open spec fn password_loaded<P>(
    path: std::path::PathBuf,
    label: Seq<char>,
    secret_provider: P,
    file: KeyringFile,
    fresh: Keyring,
    outcome: Result<PasswordLockedKeyring<P>, Error>,
) -> bool {
    match contents_or_fresh(file, fresh) {
        Ok((mtime, contents)) => if contents.gpg_config is Some {
            outcome == Err::<PasswordLockedKeyring<P>, Error>(Error::NotGpgEncrypted)
        } else {
            outcome matches Ok(keyring) && keyring == (PasswordLockedKeyring {
                inner: contents,
                path: Some(path),
                mtime,
                label: keyring.label,
                secret_provider,
            }) && keyring.label@ == label
        },
        Err(e) => outcome == Err::<PasswordLockedKeyring<P>, Error>(e),
    }
}

impl<P> PasswordLockedKeyring<P> {
    /// The keyring after it was unlocked with a secret that gave a key.
    pub open spec fn unlocked(self, key: Key, secret: Secret) -> PasswordUnlockedKeyring<P> {
        PasswordUnlockedKeyring {
            inner: self.inner,
            path: self.path,
            mtime: self.mtime,
            key: Some(key),
            secret,
            label: self.label,
            secret_provider: self.secret_provider,
        }
    }

    fn into_unlocked(self, key: Key, secret: Secret) -> (keyring: PasswordUnlockedKeyring<P>)
        ensures
            keyring == self.unlocked(key, secret),
    {
        PasswordUnlockedKeyring {
            inner: self.inner,
            path: self.path,
            mtime: self.mtime,
            key: Some(key),
            secret,
            label: self.label,
            secret_provider: self.secret_provider,
        }
    }

    /// Tries an answer of the provider.
    ///
    /// A wrong password leaves the keyring as it was, for the next attempt. Any other
    /// error ends the unlocking.
    pub fn try_answer<C: KeyringCipher>(self, cipher: &C, answer: Result<Secret, Error>) -> (step:
        UnlockStep<P>)
        ensures
            answered(self, cipher, answer, step),
    {
        let secret = match answer {
            Ok(secret) => secret,
            Err(e) => {
                return UnlockStep::Failed(e);
            },
        };
        let checked = checked_key(cipher, &self.inner, &secret);
        assert(unlock_answer(cipher, &self.inner, &secret, checked));
        match checked {
            Ok(key) => UnlockStep::Unlocked(self.into_unlocked(key, secret)),
            Err(Error::IncorrectSecret) => UnlockStep::Rejected(self),
            Err(e) => UnlockStep::Failed(e),
        }
    }

    /// Begin the unlock process: creates a prompt that shows the label of the keyring.
    pub fn begin_unlock(&self) -> (begun: Result<
        BeginUnlockResult<PasswordUnlockedKeyring<P>>,
        Error,
    >) where P: SecretProvider
        ensures
            exists|label: &str, prompt: Result<String, Error>|
                label@ == self.label@ && #[trigger] call_ensures(
                    P::create_prompt,
                    (&self.secret_provider, label),
                    prompt,
                ) && begun == (match prompt {
                    Ok(prompt_path) => Ok::<
                        BeginUnlockResult<PasswordUnlockedKeyring<P>>,
                        Error,
                    >(BeginUnlockResult::NeedsInput { prompt_path }),
                    Err(e) => Err(e),
                }),
    {
        let label = self.label.as_str();
        let prompt = self.secret_provider.create_prompt(label);
        assert(call_ensures(P::create_prompt, (&self.secret_provider, label), prompt));
        match prompt {
            Ok(prompt_path) => Ok(BeginUnlockResult::NeedsInput { prompt_path }),
            Err(e) => Err(e),
        }
    }

    /// Goes on after `begin_unlock`: waits for the prompt and tries the answer.
    pub fn complete_prompt<C: KeyringCipher>(self, cipher: &C, prompt_path: &str) -> (step:
        UnlockStep<P>) where P: SecretProvider
        ensures
            exists|answer: Result<Secret, Error>| #[trigger]
                call_ensures(P::await_prompt, (&self.secret_provider, prompt_path), answer)
                    && answered(self, cipher, answer, step),
    {
        let answer = self.secret_provider.await_prompt(prompt_path);
        assert(call_ensures(P::await_prompt, (&self.secret_provider, prompt_path), answer));
        self.try_answer(cipher, answer)
    }

    /// Unlock the keyring: asks the provider for the secret and tries it.
    pub fn unlock<C: KeyringCipher>(self, cipher: &C) -> (step: UnlockStep<P>) where
        P: SecretProvider,

        ensures
            exists|label: &str, answer: Result<Secret, Error>|
                label@ == self.label@ && #[trigger] call_ensures(
                    P::get_secret,
                    (&self.secret_provider, label),
                    answer,
                ) && answered(self, cipher, answer, step),
    {
        let label = self.label.as_str();
        let answer = self.secret_provider.get_secret(label);
        assert(call_ensures(P::get_secret, (&self.secret_provider, label), answer));
        self.try_answer(cipher, answer)
    }

    /// Goes on after a rejection: password was wrong, so the provider is asked for another,
    /// which is tried.
    pub fn unlock_again<C: KeyringCipher>(self, cipher: &C) -> (step: UnlockStep<P>) where
        P: SecretProvider,

        ensures
            exists|answer: Result<Secret, Error>| #[trigger]
                asked_again(self, answer) && answered(self, cipher, answer, step),
    {
        let label = self.label.as_str();
        let answer = self.secret_provider.secret_rejected(label, &Error::IncorrectSecret);
        assert(call_ensures(
            P::secret_rejected,
            (&self.secret_provider, label, &Error::IncorrectSecret),
            answer,
        ));
        assert(asked_again(self, answer));
        self.try_answer(cipher, answer)
    }

    /// Unlock the keyring with a known secret.
    ///
    /// This bypasses the provider and unlocks directly with the given secret. Use this when
    /// the secret is already known (e.g., from PAM authentication).
    pub fn unlock_with_secret<C: KeyringCipher>(self, cipher: &C, secret: &Secret) -> (outcome:
        Result<PasswordUnlockedKeyring<P>, Error>)
        ensures
            unlocks_with_secret(self, cipher, secret, outcome),
    {
        let checked = checked_key(cipher, &self.inner, secret);
        assert(unlock_answer(cipher, &self.inner, secret, checked));
        match checked {
            Ok(key) => Ok(self.into_unlocked(key, secret.duplicate())),
            Err(e) => Err(e),
        }
    }

    /// Load a password-based keyring, given what came back from its file. Where there is no
    /// file, the keyring starts with the contents of `fresh`.
    pub fn load(
        path: std::path::PathBuf,
        label: &str,
        secret_provider: P,
        file: KeyringFile,
        fresh: Keyring,
    ) -> (outcome: Result<PasswordLockedKeyring<P>, Error>)
        ensures
            password_loaded(path, label@, secret_provider, file, fresh, outcome),
    {
        let (mtime, inner) = match load_or_create(file, fresh) {
            Ok(contents) => contents,
            Err(e) => {
                return Err(e);
            },
        };
        if inner.gpg_config.is_some() {
            return Err(Error::NotGpgEncrypted);
        }
        Ok(
            PasswordLockedKeyring {
                inner,
                path: Some(path),
                mtime,
                label: label.to_owned(),
                secret_provider,
            },
        )
    }
}

/// What is left of a keyring whose items were taken out and whose secret was changed, once
/// the items are sealed again: they lie under the key that the new secret gives with a new
/// salt. Where that key cannot be derived, no item is left; where an item cannot be sealed,
/// those before it are left.
pub open spec fn resealed<C: KeyringCipher, P>(
    before: PasswordUnlockedKeyring<P>,
    cipher: &C,
    secret: Secret,
    items: Seq<UnlockedItem>,
    after: PasswordUnlockedKeyring<P>,
    outcome: Result<(), Error>,
) -> bool {
    &&& after == (PasswordUnlockedKeyring {
        inner: after.inner,
        key: after.key,
        secret,
        ..before
    })
    &&& after.inner == (Keyring {
        salt: after.inner.salt,
        items: after.inner.items,
        ..before.inner
    })
    &&& call_ensures(C::fresh_salt, (cipher,), after.inner.salt)
    &&& exists|empty: Keyring, derived: Result<Key, CryptoError>| #[trigger]
        derives(cipher, &empty, &secret, derived) && empty == (Keyring {
            items: empty.items,
            ..after.inner
        }) && empty.items@.len() == 0 && match derived {
            Ok(key) => {
                &&& after.key == Some(key)
                &&& all_sealed(cipher, items, &key, after.inner.items@, outcome)
            },
            Err(e) => {
                &&& after.key is None
                &&& after.inner == empty
                &&& outcome == Err::<(), Error>(Error::Crypto(e))
            },
        }
}

/// The outcome of changing the secret of a keyring. Nothing changes unless all items open
/// with the old key (which is kept at hand from then on).
pub open spec fn secret_changed<C: KeyringCipher, P>(
    before: PasswordUnlockedKeyring<P>,
    cipher: &C,
    secret: Secret,
    after: PasswordUnlockedKeyring<P>,
    outcome: Result<(), Error>,
) -> bool {
    exists|answer: Result<Key, CryptoError>| #[trigger]
        key_answer(before.key_source(), cipher, &before.contents(), answer) && match answer {
            Ok(key) => exists|opened: Result<Seq<UnlockedItem>, Error>| #[trigger]
                all_opened(cipher, before.inner.items@, &key, opened) && match opened {
                    Ok(items) => resealed(before, cipher, secret, items, after, outcome),
                    Err(e) => after == before.holding(key) && outcome == Err::<(), Error>(e),
                },
            Err(e) => after == before && outcome == Err::<(), Error>(Error::Crypto(e)),
        }
}

impl<P> PasswordUnlockedKeyring<P> {
    /// Derives the key and keeps it, unless it is at hand.
    fn derive_key<C: KeyringCipher>(&mut self, cipher: &C) -> (outcome: Result<(), CryptoError>)
        ensures
            exists|answer: Result<Key, CryptoError>| #[trigger]
                key_answer(old(self).key_source(), cipher, &old(self).contents(), answer)
                    && match answer {
                    Ok(key) => *final(self) == old(self).holding(key) && outcome is Ok,
                    Err(e) => *final(self) == *old(self) && outcome == Err::<(), CryptoError>(e),
                },
    {
        if self.key.is_none() {
            let derived = cipher.derive_key(&self.inner, &self.secret);
            assert(key_answer(self.key_source(), cipher, &self.contents(), derived));
            match derived {
                Ok(key) => {
                    self.key = Some(key);
                },
                Err(e) => {
                    return Err(e);
                },
            }
        } else {
            assert(key_answer(self.key_source(), cipher, &self.contents(), Ok(self.key->0)));
        }
        Ok(())
    }
}

impl<P> UnlockedKeyring<PasswordLockedKeyring<P>> for PasswordUnlockedKeyring<P> {
    open spec fn contents(&self) -> Keyring {
        self.inner
    }

    open spec fn file(&self) -> Option<std::path::PathBuf> {
        self.path
    }

    open spec fn key_source(&self) -> KeySource {
        match self.key {
            Some(key) => KeySource::AtHand(key),
            None => KeySource::Derived(self.secret),
        }
    }

    open spec fn holding(&self, key: Key) -> Self {
        PasswordUnlockedKeyring { key: Some(key), ..*self }
    }

    open spec fn storing(&self, contents: Keyring) -> Self {
        PasswordUnlockedKeyring { inner: contents, ..*self }
    }

    open spec fn locked(self) -> PasswordLockedKeyring<P> {
        PasswordLockedKeyring {
            inner: self.inner,
            path: self.path,
            mtime: self.mtime,
            label: self.label,
            secret_provider: self.secret_provider,
        }
    }

    open spec fn secret_rule(&self) -> SecretRule {
        SecretRule::ByCipher
    }

    proof fn locking_keeps(self) {
    }

    proof fn holding_keeps(&self, key: Key) {
    }

    proof fn storing_keeps(&self, contents: Keyring) {
    }

    fn items<C: KeyringCipher>(&mut self, cipher: &C) -> Result<
        Vec<Result<Item, InvalidItemError>>,
        Error,
    > {
        match self.derive_key(cipher) {
            Ok(_) => {},
            Err(e) => {
                return Err(Error::Crypto(e));
            },
        }
        let key = self.key.as_ref().unwrap();
        Ok(self.inner.open_items(cipher, key))
    }

    fn search_items<C: KeyringCipher>(&mut self, cipher: &C, attributes: &Attributes) -> Result<
        Vec<UnlockedItem>,
        Error,
    > {
        match self.derive_key(cipher) {
            Ok(_) => {},
            Err(e) => {
                return Err(Error::Crypto(e));
            },
        }
        let key = self.key.as_ref().unwrap();
        self.inner.search_items(cipher, attributes, key)
    }

    fn create_item<C: KeyringCipher>(
        &mut self,
        cipher: &C,
        label: &str,
        attributes: &Attributes,
        secret: Secret,
        replace: bool,
    ) -> Result<Unsaved<UnlockedItem>, Error> {
        match self.derive_key(cipher) {
            Ok(_) => {},
            Err(e) => {
                return Err(Error::Crypto(e));
            },
        }
        let key = self.key.as_ref().unwrap();
        unsaved(self.inner.create_item(cipher, label, attributes, secret, replace, key))
    }

    fn delete<C: KeyringCipher>(&mut self, cipher: &C, attributes: &Attributes) -> Result<
        Unsaved<()>,
        Error,
    > {
        match self.derive_key(cipher) {
            Ok(_) => {},
            Err(e) => {
                return Err(Error::Crypto(e));
            },
        }
        let key = self.key.as_ref().unwrap();
        unsaved(self.inner.remove_items(cipher, attributes, key))
    }

    fn path(&self) -> Option<&std::path::PathBuf> {
        self.path.as_ref()
    }

    fn modified_time(&self) -> Timestamp {
        self.inner.modified_time
    }

    fn lock(self) -> PasswordLockedKeyring<P> {
        PasswordLockedKeyring {
            inner: self.inner,
            path: self.path,
            mtime: self.mtime,
            label: self.label,
            secret_provider: self.secret_provider,
        }
    }

    fn key<C: KeyringCipher>(&mut self, cipher: &C) -> Result<Key, CryptoError> {
        match self.derive_key(cipher) {
            Ok(_) => {},
            Err(e) => {
                return Err(e);
            },
        }
        Ok(self.key.as_ref().unwrap().duplicate())
    }

    fn validate_secret<C: KeyringCipher>(&self, cipher: &C, secret: &Secret) -> Result<
        bool,
        Error,
    > {
        self.inner.validate_secret(cipher, secret)
    }
}

impl<P> PasswordUnlockedKeyring<P> {
    /// Change the keyring's password: re-encrypts all items, in memory, with the key that
    /// the new password gives. The keyring has to be written after that.
    pub fn change_secret<C: KeyringCipher>(&mut self, cipher: &C, secret: Secret) -> (outcome:
        Result<Unsaved<()>, Error>)
        ensures
            secret_changed(*old(self), cipher, secret, *final(self), in_memory(outcome)),
    {
        match self.derive_key(cipher) {
            Ok(_) => {},
            Err(e) => {
                return Err(Error::Crypto(e));
            },
        }
        let ghost held = *self;
        let opened = self.inner.open_all(cipher, self.key.as_ref().unwrap());
        let items = match opened {
            Ok(items) => items,
            Err(e) => {
                return Err(e);
            },
        };
        assert(all_opened(cipher, held.inner.items@, &held.key->0, Ok(items@)));
        self.secret = secret;
        self.key = None;
        let salt = cipher.fresh_salt();
        self.inner.reset(salt);
        let ghost empty = self.inner;
        match self.derive_key(cipher) {
            Ok(_) => {},
            Err(e) => {
                assert(derives(cipher, &empty, &secret, Err(e)));
                assert(resealed(*old(self), cipher, secret, items@, *self, Err(Error::Crypto(e))));
                return Err(Error::Crypto(e));
            },
        }
        assert(derives(cipher, &empty, &secret, Ok(self.key->0)));
        let outcome = self.inner.seal_all(cipher, &items, self.key.as_ref().unwrap());
        assert(self.inner.items@.skip(0) =~= self.inner.items@);
        assert(resealed(*old(self), cipher, secret, items@, *self, outcome));
        unsaved(outcome)
    }

    /// Write changes to persistent storage: what is to be dumped, where the keyring has a file.
    pub fn write(&mut self) -> (request: Option<DumpRequest<'_>>)
        ensures
            match old(self).path {
                Some(path) => {
                    &&& request matches Some(dump)
                    &&& *dump.path == path
                    &&& *dump.contents == old(self).inner
                    &&& dump.mtime == old(self).mtime
                    &&& *final(self) == (PasswordUnlockedKeyring {
                        inner: *final(dump.contents),
                        ..*old(self)
                    })
                },
                None => request is None && *final(self) == *old(self),
            },
    {
        match &self.path {
            Some(path) => Some(
                DumpRequest { path, contents: &mut self.inner, mtime: self.mtime },
            ),
            None => None,
        }
    }

    /// Goes on with a write once the keyring was dumped, or could not be: takes note of the
    /// time.
    pub fn finish_write(&mut self, written: Written) -> (outcome: Result<(), Error>)
        ensures
            *final(self) == (PasswordUnlockedKeyring {
                mtime: mtime_after(old(self).mtime, written),
                ..*old(self)
            }),
            outcome == write_outcome(written),
    {
        match written {
            Written::Failed(e) => Err(e),
            Written::Done { mtime } => {
                if mtime.is_some() {
                    self.mtime = mtime;
                }
                Ok(())
            },
        }
    }

    /// Create a temporary keyring with a custom secret provider: an in-memory keyring that
    /// is never stored on disk, with the contents of `fresh`.
    pub fn temporary_with_provider(secret: Secret, secret_provider: P, fresh: Keyring) -> (outcome:
        Result<PasswordUnlockedKeyring<P>, Error>)
        ensures
            outcome matches Ok(keyring) && keyring == (PasswordUnlockedKeyring {
                inner: fresh,
                path: None,
                mtime: None,
                key: None,
                secret,
                label: keyring.label,
                secret_provider,
            }) && keyring.label@ == "session"@,
    {
        Ok(
            PasswordUnlockedKeyring {
                inner: fresh,
                path: None,
                mtime: None,
                key: None,
                secret,
                label: "session".to_owned(),
                secret_provider,
            },
        )
    }
}

/// A no-op secret provider for temporary/session keyrings.
///
/// This provider returns an error if called, since temporary keyrings are always unlocked
/// and should never need to prompt for a password.
pub struct NoOpSecretProvider;

/// The error of a prompt on a temporary keyring.
pub open spec fn is_no_prompts(error: Error) -> bool {
    error matches Error::Io(e) && e.kind == IoErrorKind::Unsupported && e.message@
        == "Temporary keyrings do not support prompts"@
}

fn no_prompts() -> (error: Error)
    ensures
        is_no_prompts(error),
{
    Error::Io(
        IoError::new(IoErrorKind::Unsupported, "Temporary keyrings do not support prompts"),
    )
}

impl SecretProvider for NoOpSecretProvider {
    fn create_prompt(&self, _label: &str) -> (path: Result<String, Error>)
        ensures
            path matches Err(e) && is_no_prompts(e),
    {
        Err(no_prompts())
    }

    fn await_prompt(&self, _prompt_path: &str) -> (secret: Result<Secret, Error>)
        ensures
            secret matches Err(e) && is_no_prompts(e),
    {
        Err(no_prompts())
    }

    fn secret_rejected(&self, _label: &str, _error: &Error) -> (secret: Result<Secret, Error>)
        ensures
            secret matches Err(e) && is_no_prompts(e),
    {
        Err(no_prompts())
    }
}

/// The outcome of an attempt to derive the key of a keyring from a secret.
pub open spec fn derivation_answer<C: KeyringCipher>(
    cipher: &C,
    contents: &Keyring,
    secret: &Secret,
    answer: Result<Key, Error>,
) -> bool {
    match answer {
        Ok(key) => derives(cipher, contents, secret, Ok(key)),
        Err(e) => e matches Error::Crypto(c) && derives(cipher, contents, secret, Err(c)),
    }
}

/// The outcome of an attempt to get the key of a named keyring. A new one has nothing to try the
/// key on.
pub open spec fn open_answer<C: KeyringCipher>(
    cipher: &C,
    file: KeyringFile,
    contents: &Keyring,
    secret: &Secret,
    answer: Result<Key, Error>,
) -> bool {
    if is_absent(file) {
        derivation_answer(cipher, contents, secret, answer)
    } else {
        unlock_answer(cipher, contents, secret, answer)
    }
}

/// The outcome of opening a named keyring, given where its file is and what came back from
/// it: the key is derived from the secret. Where there is a file, the key has to open its items.
pub open spec fn opened<C: KeyringCipher>(
    cipher: &C,
    name: Seq<char>,
    secret: Secret,
    path: Result<std::path::PathBuf, Error>,
    file: KeyringFile,
    fresh: Keyring,
    outcome: Result<PasswordUnlockedKeyring<NoOpSecretProvider>, Error>,
) -> bool {
    match (path, contents_or_fresh(file, fresh)) {
        (Err(e), _) => outcome == Err::<PasswordUnlockedKeyring<NoOpSecretProvider>, Error>(e),
        (Ok(_), Err(e)) => outcome == Err::<PasswordUnlockedKeyring<NoOpSecretProvider>, Error>(e),
        (Ok(p), Ok((mtime, contents))) => if contents.gpg_config is Some {
            outcome == Err::<PasswordUnlockedKeyring<NoOpSecretProvider>, Error>(
                Error::NotGpgEncrypted,
            )
        } else {
            exists|answer: Result<Key, Error>| #[trigger]
                open_answer(cipher, file, &contents, &secret, answer) && match answer {
                    Ok(key) => outcome matches Ok(keyring) && keyring == (PasswordUnlockedKeyring {
                        inner: contents,
                        path: Some(p),
                        mtime,
                        key: Some(key),
                        secret,
                        label: keyring.label,
                        secret_provider: NoOpSecretProvider,
                    }) && keyring.label@ == capitalized(name),
                    Err(e) => outcome == Err::<
                        PasswordUnlockedKeyring<NoOpSecretProvider>,
                        Error,
                    >(e),
                }
        },
    }
}

impl PasswordUnlockedKeyring<NoOpSecretProvider> {
    /// Creates a temporary in-memory keyring that is never stored on disk, with the contents
    /// of `fresh`.
    ///
    /// This is useful for session collections that exist only in memory. The keyring will not
    /// persist after the process exits.
    pub fn temporary(secret: Secret, fresh: Keyring) -> (outcome: Result<
        PasswordUnlockedKeyring<NoOpSecretProvider>,
        Error,
    >)
        ensures
            outcome matches Ok(keyring) && keyring == (PasswordUnlockedKeyring {
                inner: fresh,
                path: None,
                mtime: None,
                key: None,
                secret,
                label: keyring.label,
                secret_provider: NoOpSecretProvider,
            }) && keyring.label@ == "session"@,
    {
        PasswordUnlockedKeyring::temporary_with_provider(secret, NoOpSecretProvider, fresh)
    }

    /// Open or create a named keyring with the given secret.
    ///
    /// `path` is where the file of that name is (or why there is none), and `file` what came
    /// back from it. If the keyring file exists, it is loaded and unlocked with the secret. If
    /// it doesn't exist, the keyring starts with the contents of `fresh`, whatever the secret
    /// from which a key can be derived.
    pub fn open<C: KeyringCipher>(
        cipher: &C,
        name: &str,
        secret: Secret,
        path: Result<std::path::PathBuf, Error>,
        file: KeyringFile,
        fresh: Keyring,
    ) -> (outcome: Result<PasswordUnlockedKeyring<NoOpSecretProvider>, Error>)
        ensures
            opened(cipher, name@, secret, path, file, fresh, outcome),
    {
        let path = match path {
            Ok(path) => path,
            Err(e) => {
                return Err(e);
            },
        };
        let absent = match &file {
            KeyringFile::OpenFailed(e) => e.kind == IoErrorKind::NotFound,
            _ => false,
        };
        let (mtime, inner) = match load_or_create(file, fresh) {
            Ok(contents) => contents,
            Err(e) => {
                return Err(e);
            },
        };
        if inner.gpg_config.is_some() {
            return Err(Error::NotGpgEncrypted);
        }
        let answer = if absent {
            match cipher.derive_key(&inner, &secret) {
                Ok(key) => Ok(key),
                Err(e) => Err(Error::Crypto(e)),
            }
        } else {
            checked_key(cipher, &inner, &secret)
        };
        assert(open_answer(cipher, file, &inner, &secret, answer));
        let key = match answer {
            Ok(key) => key,
            Err(e) => {
                return Err(e);
            },
        };
        Ok(
            PasswordUnlockedKeyring {
                inner,
                path: Some(path),
                mtime,
                key: Some(key),
                secret,
                label: capitalize(name),
                secret_provider: NoOpSecretProvider,
            },
        )
    }
}

} // verus!

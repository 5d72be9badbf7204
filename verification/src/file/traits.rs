//! Traits for keyring abstraction.
//!
//! These traits define the interface for locked and unlocked keyrings, allowing
//! different encryption implementations (password-based, GPG, etc.) to be used
//! interchangeably.
use vstd::prelude::*;

use crate::attributes::Attributes;
use crate::crypto::error::Error as CryptoError;
use crate::file::api::all_opened;
use crate::file::api::created;
use crate::file::api::derives;
use crate::file::api::hits_of;
use crate::file::api::lists_locked;
use crate::file::api::lists_opened;
use crate::file::api::removed;
use crate::file::api::secret_validated;
use crate::file::api::selected;
use crate::file::api::Item;
use crate::file::api::Keyring;
use crate::file::api::KeyringCipher;
use crate::file::api::UnlockedItem;
use crate::file::api::UnlockedItemView;
use crate::file::error::Error;
use crate::file::error::InvalidItemError;
use crate::file::storage::in_memory;
use crate::file::storage::Unsaved;
use crate::secret::Key;
use crate::secret::Secret;
use crate::time::Timestamp;

verus! {

/// The path of a file.
#[verifier::external_type_specification]
#[verifier::external_body]
pub struct ExPathBuf(std::path::PathBuf);

/// `PathBuf::clone` makes a copy of the path.
pub assume_specification[ <std::path::PathBuf as Clone>::clone ](
    path: &std::path::PathBuf,
) -> (copy: std::path::PathBuf)
    ensures
        copy == *path,
;

/// A point in time by the clock of the system.
#[verifier::external_type_specification]
#[verifier::external_body]
pub struct ExSystemTime(std::time::SystemTime);

/// What it takes for a secret to be accepted.
pub enum SecretRule {
    /// The items of the keyring have to open with it.
    ByCipher,
    /// The answer is the same for every secret.
    Always(bool),
}

/// A keyring with this rule may answer `valid` when it is asked about a secret.
pub open spec fn accepts<C: KeyringCipher>(
    rule: SecretRule,
    cipher: &C,
    contents: &Keyring,
    secret: &Secret,
    valid: Result<bool, Error>,
) -> bool {
    match rule {
        SecretRule::Always(yes) => valid == Ok::<bool, Error>(yes),
        SecretRule::ByCipher => secret_validated(cipher, contents, secret, valid),
    }
}

/// Where an unlocked keyring has its key from.
pub enum KeySource {
    /// The key is at hand.
    AtHand(Key),
    /// The key is derived from the secret.
    Derived(Secret),
    /// There is no key.
    Missing,
}

/// A keyring whose key comes from this source may have this answer when it is asked for
/// the key.
pub open spec fn key_answer<C: KeyringCipher>(
    source: KeySource,
    cipher: &C,
    contents: &Keyring,
    answer: Result<Key, CryptoError>,
) -> bool {
    match source {
        KeySource::AtHand(key) => answer == Ok::<Key, CryptoError>(key),
        KeySource::Derived(secret) => derives(cipher, contents, &secret, answer),
        KeySource::Missing => answer == Err::<Key, CryptoError>(CryptoError::NoKey),
    }
}

/// Result of beginning an unlock operation.
///
/// This enum allows keyrings to return either an immediately unlocked keyring (for GPG
/// keyrings that use gpg-agent) or indicate that user input is needed (for password-based
/// keyrings that need a D-Bus prompt).
pub enum BeginUnlockResult<U> {
    /// Keyring was unlocked immediately (e.g., GPG keyrings via gpg-agent).
    Unlocked(U),
    /// User input is required to complete the unlock. The keyring has been consumed and
    /// comes back once the user provides input via the prompt.
    NeedsInput {
        /// A prompt identifier/path that the D-Bus layer can use.
        prompt_path: String,
    },
}

/// Trait for locked keyrings.
///
/// A locked keyring can list items (in encrypted form) but cannot access their secrets.
/// The encryption type determines how unlocking is performed.
pub trait LockedKeyring: Sized {
    /// What the keyring holds.
    spec fn contents(&self) -> Keyring;

    /// The file behind the keyring.
    spec fn file(&self) -> Option<std::path::PathBuf>;

    /// Whether the user has to enter a password.
    spec fn password_needed(&self) -> bool;

    /// What it takes for a secret to unlock the keyring.
    spec fn secret_rule(&self) -> SecretRule;

    /// Read-only access to encrypted items.
    fn items(&self) -> (list: Result<Vec<Result<Item, InvalidItemError>>, Error>)
        ensures
            list matches Ok(entries) && lists_locked(self.contents().items@, entries@),
    ;

    /// File path if backed by file.
    fn path(&self) -> (path: Option<&std::path::PathBuf>)
        ensures
            match path {
                Some(p) => self.file() == Some(*p),
                None => self.file() is None,
            },
    ;

    /// Modification time.
    fn modified_time(&self) -> (time: Timestamp)
        ensures
            time == self.contents().modified_time,
    ;

    /// Validate if a secret would work for unlocking.
    fn validate_secret<C: KeyringCipher>(&self, cipher: &C, secret: &Secret) -> (valid: Result<
        bool,
        Error,
    >)
        ensures
            accepts(self.secret_rule(), cipher, &self.contents(), secret, valid),
    ;

    /// Returns true if this keyring requires a password to unlock.
    fn requires_password(&self) -> (required: bool)
        ensures
            required == self.password_needed(),
    ;
}

/// Trait for unlocked keyrings: full access to items, in memory. `L` is what the keyring
/// turns into when it is locked.
pub trait UnlockedKeyring<L: LockedKeyring>: Sized {
    /// What the keyring holds.
    spec fn contents(&self) -> Keyring;

    /// The file behind the keyring.
    spec fn file(&self) -> Option<std::path::PathBuf>;

    /// Where the keyring has its key from.
    spec fn key_source(&self) -> KeySource;

    /// The keyring with this key at hand.
    spec fn holding(&self, key: Key) -> Self;

    /// The keyring with these contents.
    spec fn storing(&self, contents: Keyring) -> Self;

    /// What the keyring turns into when it is locked.
    spec fn locked(self) -> L;

    /// What it takes for a secret to be the password of the keyring.
    spec fn secret_rule(&self) -> SecretRule;

    /// Locking a keyring keeps what it holds, and its file.
    proof fn locking_keeps(self)
        ensures
            self.locked().contents() == self.contents(),
            self.locked().file() == self.file(),
    ;

    /// Having the key at hand changes nothing else, and settles what the key is.
    proof fn holding_keeps(&self, key: Key)
        ensures
            self.holding(key).contents() == self.contents(),
            self.holding(key).file() == self.file(),
            self.holding(key).locked() == self.locked(),
            self.holding(key).key_source() == KeySource::AtHand(key),
            self.holding(key).holding(key) == self.holding(key),
    ;

    /// Having other contents changes nothing else.
    proof fn storing_keeps(&self, contents: Keyring)
        ensures
            self.storing(contents).contents() == contents,
            self.storing(contents).file() == self.file(),
            self.storing(contents).key_source() == self.key_source(),
    ;

    /// Retrieve all items in decrypted form.
    fn items<C: KeyringCipher>(&mut self, cipher: &C) -> (list: Result<
        Vec<Result<Item, InvalidItemError>>,
        Error,
    >)
        ensures
            exists|answer: Result<Key, CryptoError>| #[trigger]
                key_answer(old(self).key_source(), cipher, &old(self).contents(), answer)
                    && match answer {
                    Ok(key) => {
                        &&& *final(self) == old(self).holding(key)
                        &&& list matches Ok(entries) && lists_opened(
                            cipher,
                            old(self).contents().items@,
                            &key,
                            entries@,
                        )
                    },
                    Err(e) => {
                        &&& *final(self) == *old(self)
                        &&& list == Err::<Vec<Result<Item, InvalidItemError>>, Error>(
                            Error::Crypto(e),
                        )
                    },
                },
    ;

    /// Search items matching the given attributes.
    fn search_items<C: KeyringCipher>(&mut self, cipher: &C, attributes: &Attributes) -> (found:
        Result<Vec<UnlockedItem>, Error>)
        ensures
            exists|answer: Result<Key, CryptoError>| #[trigger]
                key_answer(old(self).key_source(), cipher, &old(self).contents(), answer)
                    && match answer {
                    Ok(key) => {
                        &&& *final(self) == old(self).holding(key)
                        &&& searched(
                            cipher,
                            old(self).contents(),
                            attributes,
                            &key,
                            found,
                        )
                    },
                    Err(e) => {
                        &&& *final(self) == *old(self)
                        &&& found == Err::<Vec<UnlockedItem>, Error>(Error::Crypto(e))
                    },
                },
    ;

    /// Create a new item in the keyring, in memory. If `replace` is true, it takes the
    /// place of existing items with matching attributes. The keyring has to be written before
    /// the item can be handed out.
    fn create_item<C: KeyringCipher>(
        &mut self,
        cipher: &C,
        label: &str,
        attributes: &Attributes,
        secret: Secret,
        replace: bool,
    ) -> (outcome: Result<Unsaved<UnlockedItem>, Error>)
        ensures
            exists|answer: Result<Key, CryptoError>| #[trigger]
                key_answer(old(self).key_source(), cipher, &old(self).contents(), answer)
                    && match answer {
                    Ok(key) => {
                        &&& *final(self) == old(self).holding(key).storing(
                            final(self).contents(),
                        )
                        &&& final(self).contents() == (Keyring {
                            items: final(self).contents().items,
                            ..old(self).contents()
                        })
                        &&& created(
                            cipher,
                            old(self).contents().items@,
                            (UnlockedItemView {
                                label: label@,
                                attributes: attributes@,
                                secret: secret@,
                            }),
                            attributes,
                            &key,
                            replace,
                            final(self).contents().items@,
                            in_memory(outcome),
                        )
                    },
                    Err(e) => {
                        &&& *final(self) == *old(self)
                        &&& outcome == Err::<Unsaved<UnlockedItem>, Error>(Error::Crypto(e))
                    },
                },
    ;

    /// Delete items matching the given attributes, in memory. The keyring has to be written
    /// after that.
    fn delete<C: KeyringCipher>(&mut self, cipher: &C, attributes: &Attributes) -> (outcome:
        Result<Unsaved<()>, Error>)
        ensures
            exists|answer: Result<Key, CryptoError>| #[trigger]
                key_answer(old(self).key_source(), cipher, &old(self).contents(), answer)
                    && match answer {
                    Ok(key) => {
                        &&& *final(self) == old(self).holding(key).storing(
                            final(self).contents(),
                        )
                        &&& final(self).contents() == (Keyring {
                            items: final(self).contents().items,
                            ..old(self).contents()
                        })
                        &&& removed(
                            cipher,
                            old(self).contents().items@,
                            attributes,
                            &key,
                            final(self).contents().items@,
                            in_memory(outcome),
                        )
                    },
                    Err(e) => {
                        &&& *final(self) == *old(self)
                        &&& outcome == Err::<Unsaved<()>, Error>(Error::Crypto(e))
                    },
                },
    ;

    /// File path if backed by file.
    fn path(&self) -> (path: Option<&std::path::PathBuf>)
        ensures
            match path {
                Some(p) => self.file() == Some(*p),
                None => self.file() is None,
            },
    ;

    /// Modification time.
    fn modified_time(&self) -> (time: Timestamp)
        ensures
            time == self.contents().modified_time,
    ;

    /// Lock the keyring, returning to the locked state.
    fn lock(self) -> (locked: L)
        ensures
            locked == self.locked(),
            locked.contents() == self.contents(),
            locked.file() == self.file(),
    ;

    /// Get the encryption key for operations that need it. This is needed for attribute
    /// matching on locked items.
    fn key<C: KeyringCipher>(&mut self, cipher: &C) -> (key: Result<Key, CryptoError>)
        ensures
            exists|answer: Result<Key, CryptoError>| #[trigger]
                key_answer(old(self).key_source(), cipher, &old(self).contents(), answer)
                    && match answer {
                    Ok(held) => {
                        &&& *final(self) == old(self).holding(held)
                        &&& key matches Ok(k) && k@ == held@
                    },
                    Err(e) => {
                        &&& *final(self) == *old(self)
                        &&& key == Err::<Key, CryptoError>(e)
                    },
                },
    ;

    /// Validate if a secret matches the keyring's password.
    fn validate_secret<C: KeyringCipher>(&self, cipher: &C, secret: &Secret) -> (valid: Result<
        bool,
        Error,
    >)
        ensures
            accepts(self.secret_rule(), cipher, &self.contents(), secret, valid),
    ;
}

/// The outcome of a search: the matching items in the clear, or the error of the first of
/// them that does not open.
pub open spec fn searched<C: KeyringCipher>(
    cipher: &C,
    contents: Keyring,
    attributes: &Attributes,
    key: &Key,
    found: Result<Vec<UnlockedItem>, Error>,
) -> bool {
    exists|hits: Seq<bool>| #[trigger]
        hits_of(cipher, contents.items@, attributes, key, hits) && match found {
            Ok(opened) => all_opened(
                cipher,
                selected(contents.items@, hits, true),
                key,
                Ok(opened@),
            ),
            Err(e) => all_opened(cipher, selected(contents.items@, hits, true), key, Err(e)),
        }
}

/// Provider for obtaining secrets from the user.
///
/// Password-based keyrings are unlocked with what it returns. The trait has two modes of
/// operation: `get_secret` creates a prompt and blocks until it is complete;
/// `create_prompt` returns the path of a prompt immediately, and `await_prompt` waits for
/// the user's response later.
pub trait SecretProvider {
    /// Create a prompt that shows the keyring label, and return its path without blocking.
    fn create_prompt(&self, label: &str) -> Result<String, Error>;

    /// Wait for a prompt to be completed and return the secret.
    fn await_prompt(&self, prompt_path: &str) -> Result<Secret, Error>;

    /// Get a secret for the given keyring label (blocking convenience method). This is
    /// equivalent to calling `create_prompt` then `await_prompt`.
    fn get_secret(&self, label: &str) -> (secret: Result<Secret, Error>)
        default_ensures
            exists|path: Result<String, Error>| #[trigger]
                call_ensures(Self::create_prompt, (self, label), path) && match path {
                    Ok(p) => exists|text: &str| text@ == p@ && #[trigger]
                        call_ensures(Self::await_prompt, (self, text), secret),
                    Err(e) => secret == Err::<Secret, Error>(e),
                },
    {
        match self.create_prompt(label) {
            Ok(path) => self.await_prompt(path.as_str()),
            Err(e) => Err(e),
        }
    }

    /// Called when a provided secret was rejected (wrong password). The implementation may
    /// prompt again, or return an error to abort the unlock attempt.
    fn secret_rejected(&self, label: &str, error: &Error) -> Result<Secret, Error>;
}

/// Optional callback for unlock notifications.
///
/// This can be used to show UI feedback during unlock operations, for example "Touch your
/// Yubikey" notifications for GPG keyrings.
pub trait UnlockNotifier {
    /// Called when an unlock operation is starting, with the keyring label being unlocked
    /// and a description of the unlock method (e.g., "Yubikey GPG").
    fn unlock_starting(&self, label: &str, method: &str);
}

} // verus!

use std::cell::{Cell, RefCell};
use std::path::PathBuf;
use std::time::SystemTime;

use oo7_keyring::attributes::Attributes;
use oo7_keyring::crypto::error::{Error as CryptoError, GpgError};
use oo7_keyring::crypto::gpg::SessionKey;
use oo7_keyring::file::api::{
    EncryptedItem, GpgConfig, Item, Keyring, KeyringCipher, UnlockedItem,
};
use oo7_keyring::file::error::Error;
use oo7_keyring::file::gpg_keyring::{GpgLockedKeyring, GpgUnlockedKeyring};
use oo7_keyring::file::loader::{
    is_gpg_encrypted, load_keyring, AnyLockedKeyring, AnyUnlockedKeyring,
};
use oo7_keyring::file::locked_keyring::LockedKeyring as PlainLockedKeyring;
use oo7_keyring::file::password_keyring::{
    NoOpSecretProvider, PasswordLockedKeyring, PasswordUnlockedKeyring, UnlockStep,
};
use oo7_keyring::file::storage::{KeyringFile, Written};
use oo7_keyring::file::traits::{
    BeginUnlockResult, LockedKeyring, SecretProvider, UnlockNotifier, UnlockedKeyring,
};
use oo7_keyring::io_error::{IoError, IoErrorKind};
use oo7_keyring::secret::{Key, KeyStrength, Secret};
use oo7_keyring::time::Timestamp;

/// A cipher that keeps the items and hands out their numbers.
struct Vault {
    items: RefCell<Vec<(Vec<u8>, UnlockedItem)>>,
    derived: Cell<usize>,
    refuses_to_seal: RefCell<Option<String>>,
    refuses_to_derive: Cell<bool>,
    refuses_to_validate: Cell<bool>,
}

fn vault() -> Vault {
    Vault {
        items: RefCell::new(Vec::new()),
        derived: Cell::new(0),
        refuses_to_seal: RefCell::new(None),
        refuses_to_derive: Cell::new(false),
        refuses_to_validate: Cell::new(false),
    }
}

impl KeyringCipher for Vault {
    fn derive_key(&self, keyring: &Keyring, secret: &Secret) -> Result<Key, CryptoError> {
        if self.refuses_to_derive.get() {
            return Err(CryptoError::GpgIo(IoError::new(IoErrorKind::Other, "no key today")));
        }
        self.derived.set(self.derived.get() + 1);
        let mut bytes = keyring.salt.clone();
        bytes.extend_from_slice(&secret.bytes);
        Ok(Key::new(bytes))
    }

    fn validate_key(&self, keyring: &Keyring, key: &Key) -> Result<(), Error> {
        if self.refuses_to_validate.get() {
            return Err(Error::IncorrectSecret);
        }
        for item in &keyring.items {
            self.decrypt(item, key)?;
        }
        Ok(())
    }

    fn validate_secret(&self, keyring: &Keyring, secret: &Secret) -> Result<bool, CryptoError> {
        let key = self.derive_key(keyring, secret)?;
        Ok(self.validate_key(keyring, &key).is_ok())
    }

    fn matches(&self, item: &EncryptedItem, attributes: &Attributes, key: &Key) -> bool {
        let items = self.items.borrow();
        let (sealed_with, plain) = &items[item.blob[0] as usize];
        *sealed_with == key.bytes && attributes.within(&plain.attributes)
    }

    fn decrypt(&self, item: &EncryptedItem, key: &Key) -> Result<UnlockedItem, Error> {
        let items = self.items.borrow();
        let (sealed_with, plain) = &items[item.blob[0] as usize];
        if *sealed_with == key.bytes {
            Ok(plain.duplicate())
        } else {
            Err(Error::IncorrectSecret)
        }
    }

    fn encrypt(&self, item: &UnlockedItem, key: &Key) -> Result<EncryptedItem, Error> {
        if *self.refuses_to_seal.borrow() == Some(item.label.clone()) {
            return Err(Error::Malformed("cannot seal".to_string()));
        }
        let mut items = self.items.borrow_mut();
        items.push((key.bytes.clone(), item.duplicate()));
        let mut hashed_attributes = Vec::new();
        for (name, value) in item.attributes.entries() {
            hashed_attributes.push((name, vec![value.len() as u8]));
        }
        Ok(EncryptedItem { hashed_attributes, blob: vec![(items.len() - 1) as u8] })
    }

    fn fresh_salt(&self) -> Vec<u8> {
        vec![9, 9]
    }
}

fn attributes(pairs: &[(&str, &str)]) -> Attributes {
    let mut attributes = Attributes::new();
    for (name, value) in pairs {
        attributes = attributes.with(name.to_string(), value.to_string());
    }
    attributes
}

fn fresh() -> Keyring {
    Keyring::new(vec![1, 2, 3], Timestamp { secs: 100, nanos: 0 })
}

fn session(secret: &str) -> PasswordUnlockedKeyring<NoOpSecretProvider> {
    let Ok(keyring) = PasswordUnlockedKeyring::temporary(Secret::text(secret), fresh()) else {
        panic!("a temporary keyring is always made")
    };
    keyring
}

fn with_two_items(cipher: &Vault) -> PasswordUnlockedKeyring<NoOpSecretProvider> {
    let mut keyring = session("old");
    let first = attributes(&[("app", "one"), ("kind", "password")]);
    let second = attributes(&[("app", "two"), ("kind", "password")]);
    assert!(keyring.create_item(cipher, "First", &first, Secret::text("s1"), false).is_ok());
    assert!(keyring.create_item(cipher, "Second", &second, Secret::text("s2"), false).is_ok());
    keyring
}

fn labels(list: &[Result<Item, oo7_keyring::file::error::InvalidItemError>]) -> Vec<String> {
    list.iter()
        .map(|entry| match entry {
            Ok(Item::Unlocked(item)) => item.label.clone(),
            Ok(Item::Locked(_)) => "(locked)".to_string(),
            Err(_) => "(invalid)".to_string(),
        })
        .collect()
}

fn unlocked_labels<L: LockedKeyring, U: UnlockedKeyring<L>>(
    keyring: &mut U,
    cipher: &Vault,
) -> Vec<String> {
    let Ok(list) = keyring.items(cipher) else { panic!("the key is there") };
    labels(&list)
}

#[test]
fn temporary_keyrings() {
    let keyring = session("secret");
    assert_eq!(keyring.label, "session");
    assert!(keyring.path().is_none());
    assert!(keyring.mtime.is_none());
    assert!(keyring.key.is_none());
    assert_eq!(keyring.secret.bytes, b"secret");
    assert_eq!(keyring.modified_time().secs, 100);
}

#[test]
fn the_no_op_provider_never_prompts() {
    let provider = NoOpSecretProvider;
    let refused = |error: Error| match error {
        Error::Io(e) => {
            assert_eq!(e.kind, IoErrorKind::Unsupported);
            assert_eq!(e.message, "Temporary keyrings do not support prompts");
        }
        _ => panic!("another error was expected"),
    };
    let Err(e) = provider.create_prompt("label") else { panic!() };
    refused(e);
    let Err(e) = provider.await_prompt("/prompt") else { panic!() };
    refused(e);
    let Err(e) = provider.get_secret("label") else { panic!() };
    refused(e);
    let Err(e) = provider.secret_rejected("label", &Error::IncorrectSecret) else { panic!() };
    refused(e);
}

#[test]
fn the_key_is_derived_once() {
    let cipher = vault();
    let mut keyring = session("secret");
    let Ok(first) = keyring.key(&cipher) else { panic!() };
    let Ok(second) = keyring.key(&cipher) else { panic!() };
    assert_eq!(first.bytes, second.bytes);
    assert_eq!(first.bytes, [&[1u8, 2, 3][..], b"secret"].concat());
    assert_eq!(cipher.derived.get(), 1);
}

#[test]
fn items_can_be_searched_and_deleted() {
    let cipher = vault();
    let mut keyring = with_two_items(&cipher);
    assert_eq!(unlocked_labels(&mut keyring, &cipher), vec!["First", "Second"]);

    let Ok(found) = keyring.search_items(&cipher, &attributes(&[("kind", "password")])) else {
        panic!()
    };
    assert_eq!(found.len(), 2);
    let Ok(found) = keyring.search_items(&cipher, &attributes(&[("app", "two")])) else { panic!() };
    assert_eq!(found[0].label, "Second");
    assert_eq!(found[0].secret.bytes, b"s2");

    assert!(keyring.delete(&cipher, &attributes(&[("app", "one")])).is_ok());
    assert_eq!(unlocked_labels(&mut keyring, &cipher), vec!["Second"]);
    assert!(keyring.delete(&cipher, &attributes(&[("app", "none")])).is_ok());
    assert_eq!(keyring.inner.items.len(), 1);
}

#[test]
fn a_new_item_replaces_those_with_its_attributes() {
    let cipher = vault();
    let mut keyring = with_two_items(&cipher);
    let same = attributes(&[("kind", "password")]);
    let created = keyring.create_item(&cipher, "Third", &same, Secret::text("s3"), true);
    let Ok(Ok(item)) = created.map(|change| change.saved(Ok(()))) else { panic!() };
    assert_eq!(item.label, "Third");
    assert_eq!(unlocked_labels(&mut keyring, &cipher), vec!["Third"]);
    let Ok(found) = keyring.search_items(&cipher, &same) else { panic!() };
    assert_eq!(found.len(), 1);
    assert_eq!(found[0].label, "Third");

    let again = keyring.create_item(&cipher, "Fourth", &same, Secret::text("s4"), false);
    assert!(again.is_ok());
    assert_eq!(unlocked_labels(&mut keyring, &cipher), vec!["Third", "Fourth"]);

    // What was deleted is not found, and cannot be deleted again.
    assert!(keyring.delete(&cipher, &same).is_ok());
    let Ok(found) = keyring.search_items(&cipher, &same) else { panic!() };
    assert!(found.is_empty());
    assert!(keyring.delete(&cipher, &same).is_ok());
    assert!(keyring.inner.items.is_empty());
}

#[test]
fn a_change_that_is_not_written_fails() {
    let cipher = vault();
    let mut keyring = session("old");
    let one = attributes(&[("app", "one")]);
    let created = keyring.create_item(&cipher, "First", &one, Secret::text("s1"), false);
    let full = || Err(Error::Malformed("disk full".to_string()));
    let Ok(change) = created else { panic!() };
    assert!(matches!(change.saved(full()), Err(Error::Malformed(_))));
    let Ok(change) = keyring.delete(&cipher, &one) else { panic!() };
    assert!(matches!(change.saved(full()), Err(Error::Malformed(_))));
    let Ok(change) = keyring.change_secret(&cipher, Secret::text("new")) else { panic!() };
    assert!(matches!(change.saved(Ok(())), Ok(())));
}

#[test]
fn an_item_that_cannot_be_sealed_is_not_stored() {
    let cipher = vault();
    let mut keyring = with_two_items(&cipher);
    *cipher.refuses_to_seal.borrow_mut() = Some("Third".to_string());
    let none = attributes(&[("app", "three")]);
    let created = keyring.create_item(&cipher, "Third", &none, Secret::text("s3"), true);
    match created {
        Err(Error::Malformed(reason)) => assert_eq!(reason, "cannot seal"),
        _ => panic!("the item cannot be sealed"),
    }
    assert_eq!(keyring.inner.items.len(), 2);
}

#[test]
fn items_that_do_not_open_are_listed_with_their_names() {
    let cipher = vault();
    let mut keyring = with_two_items(&cipher);
    cipher.items.borrow_mut()[0].0 = vec![0];
    let Ok(list) = keyring.items(&cipher) else { panic!() };
    assert_eq!(labels(&list), vec!["(invalid)", "Second"]);
    let Err(invalid) = &list[0] else { panic!() };
    assert!(matches!(invalid.error, Error::IncorrectSecret));
    assert_eq!(invalid.attribute_names, vec!["app", "kind"]);
}

#[test]
fn locking_hides_the_items() {
    let cipher = vault();
    let keyring = with_two_items(&cipher);
    let locked = keyring.lock();
    assert!(locked.requires_password());
    let Ok(list) = locked.items() else { panic!() };
    assert_eq!(labels(&list), vec!["(locked)", "(locked)"]);

    let Ok(valid) = locked.validate_secret(&cipher, &Secret::text("old")) else { panic!() };
    assert!(valid);
    let Ok(valid) = locked.validate_secret(&cipher, &Secret::text("wrong")) else { panic!() };
    assert!(!valid);

    let Ok(mut unlocked) = locked.unlock_with_secret(&cipher, &Secret::text("old")) else {
        panic!()
    };
    assert_eq!(unlocked_labels(&mut unlocked, &cipher), vec!["First", "Second"]);
    assert_eq!(unlocked.secret.bytes, b"old");
}

#[test]
fn empty_keyrings_accept_any_secret() {
    let cipher = vault();
    cipher.refuses_to_derive.set(true);
    let locked = session("old").lock();
    let Ok(valid) = locked.validate_secret(&cipher, &Secret::text("whatever")) else { panic!() };
    assert!(valid);
}

#[test]
fn changing_the_secret_reseals_the_items() {
    let cipher = vault();
    let mut keyring = with_two_items(&cipher);
    assert!(keyring.change_secret(&cipher, Secret::text("new")).is_ok());
    assert_eq!(keyring.inner.salt, vec![9, 9]);
    assert_eq!(unlocked_labels(&mut keyring, &cipher), vec!["First", "Second"]);

    let locked = keyring.lock();
    let Ok(valid) = locked.validate_secret(&cipher, &Secret::text("new")) else { panic!() };
    assert!(valid);
    let Ok(valid) = locked.validate_secret(&cipher, &Secret::text("old")) else { panic!() };
    assert!(!valid);
    let Ok(mut unlocked) = locked.unlock_with_secret(&cipher, &Secret::text("new")) else {
        panic!()
    };
    assert_eq!(unlocked_labels(&mut unlocked, &cipher), vec!["First", "Second"]);
}

#[test]
fn a_secret_is_not_changed_while_an_item_does_not_open() {
    let cipher = vault();
    let mut keyring = with_two_items(&cipher);
    cipher.items.borrow_mut()[1].0 = vec![0];
    assert!(matches!(
        keyring.change_secret(&cipher, Secret::text("new")),
        Err(Error::IncorrectSecret)
    ));
    assert_eq!(keyring.secret.bytes, b"old");
    assert_eq!(keyring.inner.salt, vec![1, 2, 3]);
    assert_eq!(keyring.inner.items.len(), 2);
}

#[test]
fn a_change_that_cannot_seal_an_item_keeps_those_before_it() {
    let cipher = vault();
    let mut keyring = with_two_items(&cipher);
    *cipher.refuses_to_seal.borrow_mut() = Some("Second".to_string());
    assert!(keyring.change_secret(&cipher, Secret::text("new")).is_err());
    assert_eq!(keyring.secret.bytes, b"new");
    assert_eq!(unlocked_labels(&mut keyring, &cipher), vec!["First"]);
}

/// A provider that answers from a list.
struct Answers {
    list: RefCell<Vec<&'static str>>,
    asked: RefCell<Vec<String>>,
}

impl Answers {
    fn next(&self) -> Result<Secret, Error> {
        match self.list.borrow_mut().pop() {
            Some(text) => Ok(Secret::text(text)),
            None => Err(Error::PromptDismissed),
        }
    }
}

impl SecretProvider for Answers {
    fn create_prompt(&self, label: &str) -> Result<String, Error> {
        self.asked.borrow_mut().push(format!("create {label}"));
        Ok("/prompt".to_string())
    }

    fn await_prompt(&self, prompt_path: &str) -> Result<Secret, Error> {
        self.asked.borrow_mut().push(format!("await {prompt_path}"));
        self.next()
    }

    fn secret_rejected(&self, label: &str, _error: &Error) -> Result<Secret, Error> {
        self.asked.borrow_mut().push(format!("rejected {label}"));
        self.next()
    }
}

fn asking(cipher: &Vault, answers: Vec<&'static str>) -> PasswordLockedKeyring<Answers> {
    let keyring = with_two_items(cipher);
    PasswordLockedKeyring {
        inner: keyring.inner,
        path: None,
        mtime: None,
        label: "Login".to_string(),
        secret_provider: Answers { list: RefCell::new(answers), asked: RefCell::new(Vec::new()) },
    }
}

#[test]
fn unlocking_asks_until_the_secret_is_right() {
    let cipher = vault();
    let keyring = asking(&cipher, vec!["old", "wrong-password2", "wrong-password"]);
    let UnlockStep::Rejected(keyring) = keyring.unlock(&cipher) else { panic!("wrong") };
    let UnlockStep::Rejected(keyring) = keyring.unlock_again(&cipher) else { panic!("wrong") };
    let UnlockStep::Unlocked(mut keyring) = keyring.unlock_again(&cipher) else { panic!("right") };
    assert_eq!(unlocked_labels(&mut keyring, &cipher), vec!["First", "Second"]);
    assert_eq!(keyring.secret.bytes, b"old");
    assert_eq!(
        *keyring.secret_provider.asked.borrow(),
        vec!["create Login", "await /prompt", "rejected Login", "rejected Login"]
    );
}

#[test]
fn unlocking_ends_without_an_answer() {
    let cipher = vault();
    let keyring = asking(&cipher, vec!["wrong"]);
    match keyring.begin_unlock() {
        Ok(BeginUnlockResult::NeedsInput { prompt_path }) => assert_eq!(prompt_path, "/prompt"),
        _ => panic!("a password is needed"),
    }
    let UnlockStep::Rejected(keyring) = keyring.complete_prompt(&cipher, "/prompt") else {
        panic!("wrong")
    };
    let UnlockStep::Failed(Error::PromptDismissed) = keyring.unlock_again(&cipher) else {
        panic!("there is no answer")
    };
}

#[test]
fn unlocking_ends_with_an_error_of_the_cipher() {
    let cipher = vault();
    let keyring = asking(&cipher, vec!["old"]);
    cipher.refuses_to_derive.set(true);
    match keyring.unlock(&cipher) {
        UnlockStep::Failed(Error::Crypto(CryptoError::GpgIo(e))) => {
            assert_eq!(e.message, "no key today")
        }
        _ => panic!("no key can be derived"),
    }
}

fn not_found() -> KeyringFile {
    KeyringFile::OpenFailed(IoError::new(IoErrorKind::NotFound, "not there"))
}

fn gpg_contents() -> Keyring {
    let mut keyring = fresh();
    keyring.gpg_config = Some(GpgConfig {
        gpg_key_id: "0xABCD".to_string(),
        encrypted_master_key: vec![4, 5, 6],
    });
    keyring
}

fn gpg_file() -> KeyringFile {
    KeyringFile::Loaded { mtime: Some(SystemTime::UNIX_EPOCH), keyring: gpg_contents() }
}

fn password_file() -> KeyringFile {
    KeyringFile::Loaded { mtime: Some(SystemTime::UNIX_EPOCH), keyring: fresh() }
}

#[test]
fn password_keyrings_are_loaded_or_made() {
    let path = PathBuf::from("/tmp/login.keyring");
    let made =
        PasswordLockedKeyring::load(path.clone(), "Login", NoOpSecretProvider, not_found(), fresh());
    let Ok(made) = made else { panic!() };
    assert_eq!(made.path, Some(path.clone()));
    assert!(made.mtime.is_none());
    assert_eq!(made.label, "Login");

    let loaded = PasswordLockedKeyring::load(
        path.clone(),
        "Login",
        NoOpSecretProvider,
        password_file(),
        fresh(),
    );
    let Ok(loaded) = loaded else { panic!() };
    assert_eq!(loaded.mtime, Some(SystemTime::UNIX_EPOCH));

    let wrong =
        PasswordLockedKeyring::load(path.clone(), "Login", NoOpSecretProvider, gpg_file(), fresh());
    assert!(matches!(wrong, Err(Error::NotGpgEncrypted)));

    let denied = KeyringFile::OpenFailed(IoError::new(IoErrorKind::Other, "denied"));
    match PasswordLockedKeyring::load(path, "Login", NoOpSecretProvider, denied, fresh()) {
        Err(Error::Io(e)) => assert_eq!(e.message, "denied"),
        _ => panic!("the file cannot be opened"),
    }
}

#[test]
fn named_keyrings_are_opened() {
    let cipher = vault();
    let path = PathBuf::from("/tmp/login.keyring");
    let opened = PasswordUnlockedKeyring::open(
        &cipher,
        "login",
        Secret::text("secret"),
        Ok(path.clone()),
        not_found(),
        fresh(),
    );
    let Ok(opened) = opened else { panic!() };
    assert_eq!(opened.label, "Login");
    assert_eq!(opened.path, Some(path.clone()));
    assert!(opened.key.is_some());

    let empty = PasswordUnlockedKeyring::open(
        &cipher,
        "",
        Secret::text("secret"),
        Ok(path.clone()),
        not_found(),
        fresh(),
    );
    let Ok(empty) = empty else { panic!() };
    assert_eq!(empty.label, "");

    let sharp = PasswordUnlockedKeyring::open(
        &cipher,
        "ßeta",
        Secret::text("secret"),
        Ok(path.clone()),
        not_found(),
        fresh(),
    );
    let Ok(sharp) = sharp else { panic!() };
    assert_eq!(sharp.label, "SSeta");

    let wrong = PasswordUnlockedKeyring::open(
        &cipher,
        "login",
        Secret::text("secret"),
        Ok(path),
        gpg_file(),
        fresh(),
    );
    assert!(matches!(wrong, Err(Error::NotGpgEncrypted)));

    let nowhere = PasswordUnlockedKeyring::open(
        &cipher,
        "login",
        Secret::text("secret"),
        Err(Error::Malformed("no data directory".to_string())),
        password_file(),
        fresh(),
    );
    assert!(matches!(nowhere, Err(Error::Malformed(_))));

    // A new keyring needs a key, and nothing to try it on.
    cipher.refuses_to_validate.set(true);
    let open_new = || {
        PasswordUnlockedKeyring::open(
            &cipher,
            "login",
            Secret::text("secret"),
            Ok(PathBuf::from("/tmp/login.keyring")),
            not_found(),
            fresh(),
        )
    };
    let Ok(mut new) = open_new() else { panic!() };
    assert!(unlocked_labels(&mut new, &cipher).is_empty());
    cipher.refuses_to_validate.set(false);
    cipher.refuses_to_derive.set(true);
    assert!(matches!(open_new(), Err(Error::Crypto(CryptoError::GpgIo(_)))));
    cipher.refuses_to_derive.set(false);

    // A file is unlocked with the secret, which has to open its items.
    let open = |secret: &str| {
        let keyring = with_two_items(&cipher).inner;
        PasswordUnlockedKeyring::open(
            &cipher,
            "login",
            Secret::text(secret),
            Ok(PathBuf::from("/tmp/login.keyring")),
            KeyringFile::Loaded { mtime: None, keyring },
            fresh(),
        )
    };
    let Ok(mut right) = open("old") else { panic!() };
    assert_eq!(unlocked_labels(&mut right, &cipher), vec!["First", "Second"]);
    assert!(matches!(open("wrong"), Err(Error::IncorrectSecret)));
}

#[test]
fn writes_are_remembered() {
    let mut keyring = session("secret");
    assert!(keyring.write().is_none());
    let path = PathBuf::from("/tmp/session.keyring");
    keyring.path = Some(path.clone());
    let Some(dump) = keyring.write() else { panic!() };
    assert_eq!(*dump.path, path);
    assert!(dump.mtime.is_none());
    assert_eq!(dump.contents.salt, vec![1, 2, 3]);
    // A dump brings the contents up to date.
    dump.contents.modified_time = Timestamp { secs: 200, nanos: 0 };
    assert_eq!(keyring.modified_time().secs, 200);
    assert!(keyring.finish_write(Written::Done { mtime: None }).is_ok());
    assert!(keyring.mtime.is_none());
    let time = SystemTime::UNIX_EPOCH;
    assert!(keyring.finish_write(Written::Done { mtime: Some(time) }).is_ok());
    assert_eq!(keyring.mtime, Some(time));
    assert!(keyring.finish_write(Written::Done { mtime: None }).is_ok());
    assert_eq!(keyring.mtime, Some(time));
    assert_eq!(keyring.write().unwrap().mtime, Some(time));
    let failed = Written::Failed(Error::Malformed("disk full".to_string()));
    assert!(matches!(keyring.finish_write(failed), Err(Error::Malformed(_))));
}

/// A notifier that remembers what it was told.
struct Notices {
    list: RefCell<Vec<String>>,
}

impl UnlockNotifier for Notices {
    fn unlock_starting(&self, label: &str, method: &str) {
        self.list.borrow_mut().push(format!("{label}: {method}"));
    }
}

fn gpg_locked() -> GpgLockedKeyring<Notices> {
    let notifier = Notices { list: RefCell::new(Vec::new()) };
    let path = PathBuf::from("/tmp/gpg.keyring");
    let Ok(keyring) = GpgLockedKeyring::load(path, "Login", Some(notifier), gpg_file()) else {
        panic!()
    };
    keyring
}

fn gpg_unlocked(cipher: &Vault) -> GpgUnlockedKeyring<Notices> {
    let Ok(keyring) = gpg_locked().unlock(cipher, Ok(SessionKey::new(vec![8; 16]))) else {
        panic!()
    };
    keyring
}

#[test]
fn gpg_keyrings_are_unlocked_by_the_agent() {
    let cipher = vault();
    let keyring = gpg_locked();
    assert!(!keyring.requires_password());
    let Ok(valid) = keyring.validate_secret(&cipher, &Secret::text("anything")) else { panic!() };
    assert!(valid);
    let Ok(bytes) = keyring.unlock_request() else { panic!() };
    assert_eq!(bytes, vec![4, 5, 6]);
    assert_eq!(
        *keyring.notifier.as_ref().unwrap().list.borrow(),
        vec!["Login: GPG/Yubikey"]
    );

    let begun = keyring.begin_unlock(&cipher, Ok(SessionKey::new(vec![8; 16])));
    let Ok(BeginUnlockResult::Unlocked(mut unlocked)) = begun else { panic!() };
    assert_eq!(unlocked.gpg_key_id, "0xABCD");
    let Ok(key) = unlocked.key(&cipher) else { panic!() };
    assert_eq!(key.bytes, vec![8; 16]);
    assert_eq!(key.strength, KeyStrength::Unstated);
    let Ok(valid) = unlocked.validate_secret(&cipher, &Secret::text("anything")) else { panic!() };
    assert!(!valid);
    assert!(matches!(
        unlocked.change_secret(Secret::text("new")),
        Err(Error::NotPasswordBased)
    ));
    assert_eq!(cipher.derived.get(), 0);
}

#[test]
fn gpg_keyrings_that_do_not_unlock() {
    let cipher = vault();
    let failed = gpg_locked().unlock(
        &cipher,
        Err(Error::Crypto(CryptoError::Gpg(GpgError { code: 11, description: "bad".into() }))),
    );
    assert!(matches!(failed, Err(Error::Crypto(CryptoError::Gpg(_)))));

    let mut keyring = gpg_locked();
    keyring.inner.gpg_config = None;
    assert!(matches!(keyring.unlock_request(), Err(Error::NotGpgEncrypted)));
    let failed = keyring.unlock_with_secret(
        &cipher,
        &Secret::text("ignored"),
        Ok(SessionKey::new(vec![8; 16])),
    );
    assert!(matches!(failed, Err(Error::NotGpgEncrypted)));

    let mut unlocked = gpg_unlocked(&cipher);
    let one = attributes(&[("app", "one")]);
    assert!(unlocked.create_item(&cipher, "First", &one, Secret::text("s1"), false).is_ok());
    let locked = unlocked.lock();
    let failed = locked.unlock(&cipher, Ok(SessionKey::new(vec![7; 16])));
    assert!(matches!(failed, Err(Error::IncorrectSecret)));
}

#[test]
fn gpg_files_have_to_be_there() {
    let path = PathBuf::from("/tmp/gpg.keyring");
    let missing = GpgLockedKeyring::<Notices>::load(path.clone(), "Login", None, not_found());
    match missing {
        Err(Error::Io(e)) => assert_eq!(e.kind, IoErrorKind::NotFound),
        _ => panic!("the file is missing"),
    }
    let wrong = GpgLockedKeyring::<Notices>::load(path, "Login", None, password_file());
    assert!(matches!(wrong, Err(Error::NotGpgEncrypted)));
}

#[test]
fn rotating_the_key_reseals_the_items() {
    let cipher = vault();
    let mut keyring = gpg_unlocked(&cipher);
    let one = attributes(&[("app", "one")]);
    let two = attributes(&[("app", "two")]);
    assert!(keyring.create_item(&cipher, "First", &one, Secret::text("s1"), false).is_ok());
    assert!(keyring.create_item(&cipher, "Second", &two, Secret::text("s2"), false).is_ok());

    let Ok(request) = keyring.begin_save() else { panic!() };
    assert_eq!(request.gpg_key_id, "0xABCD");
    let master_key = &request.master_key;
    assert_eq!(master_key.to_vec().len(), 16);
    let Ok(Some(dump)) = keyring.write(&cipher, &request, Ok(vec![1, 1, 2])) else { panic!() };
    assert_eq!(*dump.path, PathBuf::from("/tmp/gpg.keyring"));
    assert_eq!(dump.mtime, Some(SystemTime::UNIX_EPOCH));
    assert_eq!(dump.contents.items.len(), 2);
    assert_eq!(dump.contents.gpg_config.as_ref().unwrap().encrypted_master_key, vec![1, 1, 2]);
    let later = SystemTime::UNIX_EPOCH + std::time::Duration::from_secs(1);
    assert!(keyring.finish_write(Written::Done { mtime: Some(later) }).is_ok());
    assert_eq!(keyring.mtime, Some(later));
    let Ok(key) = keyring.key(&cipher) else { panic!() };
    assert_eq!(key.bytes, master_key.to_vec());
    assert_eq!(key.strength, KeyStrength::Adequate);
    let config = keyring.inner.gpg_config.as_ref().unwrap();
    assert_eq!(config.gpg_key_id, "0xABCD");
    assert_eq!(config.encrypted_master_key, vec![1, 1, 2]);
    assert_eq!(unlocked_labels(&mut keyring, &cipher), vec!["First", "Second"]);

    let locked = keyring.lock();
    let Ok(again) = locked.unlock(&cipher, Ok(SessionKey::new(master_key.to_vec()))) else {
        panic!()
    };
    assert_eq!(again.inner.items.len(), 2);
}

#[test]
fn the_key_is_rotated_without_a_file() {
    let cipher = vault();
    let mut keyring = gpg_unlocked(&cipher);
    keyring.path = None;
    let Ok(request) = keyring.begin_save() else { panic!() };
    let written = keyring.write(&cipher, &request, Ok(vec![7]));
    assert!(matches!(written, Ok(None)));
    let Ok(key) = keyring.key(&cipher) else { panic!() };
    assert_eq!(key.bytes, request.master_key.to_vec());
    let refused = Err(CryptoError::Gpg(GpgError::no_pubkey()));
    assert!(matches!(
        keyring.write(&cipher, &request, refused),
        Err(Error::Crypto(CryptoError::Gpg(_)))
    ));
    assert_eq!(keyring.inner.gpg_config.as_ref().unwrap().encrypted_master_key, vec![7]);
}

#[test]
fn gpg_keyrings_ignore_the_secret() {
    let cipher = vault();
    let master_key = || Ok(SessionKey::new(vec![8; 16]));
    let Ok(one) = gpg_locked().unlock(&cipher, master_key()) else { panic!() };
    let Ok(two) = gpg_locked().unlock_with_secret(&cipher, &Secret::text("any"), master_key())
    else {
        panic!()
    };
    assert_eq!(one.key.unwrap().bytes, two.key.unwrap().bytes);
    assert_eq!(one.path, two.path);
}

#[test]
fn rotations_that_fail() {
    let cipher = vault();
    let mut keyring = gpg_unlocked(&cipher);
    let one = attributes(&[("app", "one")]);
    assert!(keyring.create_item(&cipher, "First", &one, Secret::text("s1"), false).is_ok());
    let master_key = SessionKey::new(vec![3; 16]);

    let refused = Err(CryptoError::Gpg(GpgError::no_pubkey()));
    assert!(matches!(
        keyring.rotate_key(&cipher, &master_key, refused),
        Err(Error::Crypto(CryptoError::Gpg(_)))
    ));
    let Ok(key) = keyring.key(&cipher) else { panic!() };
    assert_eq!(key.bytes, vec![8; 16]);

    *cipher.refuses_to_seal.borrow_mut() = Some("First".to_string());
    assert!(keyring.rotate_key(&cipher, &master_key, Ok(vec![1])).is_err());
    assert!(keyring.inner.items.is_empty());
    assert_eq!(keyring.inner.gpg_config.as_ref().unwrap().encrypted_master_key, vec![4, 5, 6]);

    keyring.key = None;
    assert!(matches!(keyring.begin_save(), Err(Error::Crypto(CryptoError::NoKey))));
    assert!(matches!(
        keyring.rotate_key(&cipher, &master_key, Ok(vec![1])),
        Err(Error::Crypto(CryptoError::NoKey))
    ));
    assert!(matches!(keyring.items(&cipher), Err(Error::Crypto(CryptoError::NoKey))));
    assert!(matches!(keyring.key(&cipher), Err(CryptoError::NoKey)));
    assert!(matches!(
        keyring.delete(&cipher, &one),
        Err(Error::Crypto(CryptoError::NoKey))
    ));
}

#[test]
fn random_keys_differ() {
    let cipher = vault();
    let keyring = gpg_unlocked(&cipher);
    let Ok(first) = keyring.begin_save() else { panic!() };
    let Ok(second) = keyring.begin_save() else { panic!() };
    assert_ne!(first.master_key.to_vec(), second.master_key.to_vec());
    assert_ne!(first.master_key.to_vec(), vec![0; 16]);
}

fn any(probe: KeyringFile, file: KeyringFile) -> Result<AnyLockedKeyring<(), ()>, Error> {
    load_keyring(PathBuf::from("/tmp/any.keyring"), "Any", (), Some(()), probe, file, fresh())
}

#[test]
fn the_loader_goes_by_the_kind_of_encryption() {
    let Ok(gpg) = any(gpg_file(), gpg_file()) else { panic!() };
    assert!(matches!(gpg, AnyLockedKeyring::Gpg(_)));
    assert!(!gpg.requires_password());
    let Ok(password) = any(password_file(), password_file()) else { panic!() };
    assert!(matches!(password, AnyLockedKeyring::Password(_)));
    assert!(password.requires_password());
    let Ok(new) = any(not_found(), not_found()) else { panic!() };
    assert!(matches!(new, AnyLockedKeyring::Password(_)));
    assert_eq!(new.path(), Some(&PathBuf::from("/tmp/any.keyring")));

    let denied = || KeyringFile::OpenFailed(IoError::new(IoErrorKind::Other, "denied"));
    assert!(matches!(any(denied(), password_file()), Err(Error::Io(_))));
    let malformed = KeyringFile::Unreadable(Error::Malformed("no header".to_string()));
    assert!(matches!(any(malformed, password_file()), Err(Error::Malformed(_))));
    assert!(matches!(any(gpg_file(), not_found()), Err(Error::Io(_))));
    assert!(matches!(any(not_found(), gpg_file()), Err(Error::NotGpgEncrypted)));
}

#[test]
fn the_kind_of_a_file_can_be_asked_for() {
    assert!(matches!(is_gpg_encrypted(gpg_file()), Ok(true)));
    assert!(matches!(is_gpg_encrypted(password_file()), Ok(false)));
    match is_gpg_encrypted(not_found()) {
        Err(Error::Io(e)) => assert_eq!(e.kind, IoErrorKind::NotFound),
        _ => panic!("the file is missing"),
    }
}

#[test]
fn keyrings_of_either_kind_work_alike() {
    let cipher = vault();
    let one = attributes(&[("app", "one")]);
    let mut keyrings: Vec<AnyUnlockedKeyring<NoOpSecretProvider, Notices>> = vec![
        AnyUnlockedKeyring::Password(session("secret")),
        AnyUnlockedKeyring::Gpg(gpg_unlocked(&cipher)),
    ];
    for keyring in keyrings.iter_mut() {
        assert!(keyring.create_item(&cipher, "First", &one, Secret::text("s1"), false).is_ok());
        assert_eq!(unlocked_labels(keyring, &cipher), vec!["First"]);
        let Ok(found) = keyring.search_items(&cipher, &one) else { panic!() };
        assert_eq!(found.len(), 1);
        assert!(keyring.delete(&cipher, &one).is_ok());
        assert!(unlocked_labels(keyring, &cipher).is_empty());
        assert_eq!(keyring.modified_time().secs, 100);
    }
    for keyring in keyrings.iter_mut() {
        let changed = keyring.change_secret(&cipher, Secret::text("new"));
        match keyring {
            AnyUnlockedKeyring::Password(k) => {
                assert!(changed.is_ok());
                assert_eq!(k.secret.bytes, b"new");
            }
            AnyUnlockedKeyring::Gpg(_) => {
                assert!(matches!(changed, Err(Error::NotPasswordBased)))
            }
        }
    }
    for keyring in keyrings {
        let password = matches!(keyring, AnyUnlockedKeyring::Password(_));
        assert_eq!(keyring.lock().requires_password(), password);
    }
}

#[test]
fn plain_keyrings_are_unlocked_with_a_secret() {
    let cipher = vault();
    let keyring = with_two_items(&cipher);
    let locked = || PlainLockedKeyring {
        keyring: Keyring {
            salt: keyring.inner.salt.clone(),
            modified_time: keyring.inner.modified_time,
            items: keyring.inner.items.iter().map(|item| item.duplicate()).collect(),
            gpg_config: None,
        },
        path: None,
        mtime: None,
    };
    assert!(!locked().is_gpg_encrypted());
    assert!(locked().path().is_none());
    assert_eq!(locked().modified_time().secs, 100);
    let Ok(list) = locked().items() else { panic!() };
    assert_eq!(labels(&list), vec!["(locked)", "(locked)"]);
    let Ok(valid) = locked().validate_secret(&cipher, &Secret::text("wrong")) else { panic!() };
    assert!(!valid);

    let Ok(unlocked) = locked().unlock(&cipher, Secret::text("old")) else { panic!() };
    assert!(unlocked.key.is_some());
    assert!(matches!(
        locked().unlock(&cipher, Secret::text("wrong")),
        Err(Error::IncorrectSecret)
    ));
    let Ok(unchecked) = locked().unlock_unchecked(Secret::text("wrong")) else { panic!() };
    assert!(unchecked.key.is_none());
    assert_eq!(unchecked.secret.bytes, b"wrong");
    assert!(matches!(
        locked().unlock_with_gpg(&cipher, Ok(SessionKey::new(vec![1]))),
        Err(Error::NotGpgEncrypted)
    ));
    assert!(matches!(locked().unlock_request(), Err(Error::NotGpgEncrypted)));
}

#[test]
fn plain_keyrings_are_unlocked_with_gpg() {
    let cipher = vault();
    let path = PathBuf::from("/tmp/plain.keyring");
    let load = || {
        let Ok(keyring) = PlainLockedKeyring::load(path.clone(), gpg_file(), fresh()) else {
            panic!()
        };
        keyring
    };
    assert!(load().is_gpg_encrypted());
    assert_eq!(load().path(), Some(&path));
    let Ok(bytes) = load().unlock_request() else { panic!() };
    assert_eq!(bytes, vec![4, 5, 6]);
    let Ok(unlocked) = load().unlock_with_gpg(&cipher, Ok(SessionKey::new(vec![8; 16]))) else {
        panic!()
    };
    assert_eq!(unlocked.key.unwrap().bytes, vec![8; 16]);
    assert!(unlocked.secret.bytes.is_empty());
    // Only the check of the key against the items is left out.
    let wrong = || Ok(SessionKey::new(vec![1; 16]));
    let holding = || {
        let mut keyring = load();
        let mut gpg = gpg_unlocked(&cipher);
        let one = attributes(&[("app", "one")]);
        assert!(gpg.create_item(&cipher, "First", &one, Secret::text("s1"), false).is_ok());
        keyring.keyring = gpg.inner;
        keyring
    };
    assert!(holding().unlock_with_gpg(&cipher, wrong()).is_err());
    let Ok(unchecked) = holding().unlock_with_gpg_unchecked(wrong()) else { panic!() };
    assert_eq!(unchecked.key.unwrap().bytes, vec![1; 16]);
    assert!(unchecked.secret.bytes.is_empty());
    assert!(matches!(
        load().unlock_with_gpg_unchecked(Err(Error::IncorrectSecret)),
        Err(Error::IncorrectSecret)
    ));
    let Ok(plain) = PlainLockedKeyring::load(path.clone(), not_found(), fresh()) else { panic!() };
    assert!(matches!(plain.unlock_with_gpg_unchecked(wrong()), Err(Error::NotGpgEncrypted)));

    let Ok(opened) = PlainLockedKeyring::open(Ok(path.clone()), not_found(), fresh()) else {
        panic!()
    };
    assert!(opened.keyring.items.is_empty());
    assert!(PlainLockedKeyring::open(Err(Error::IncorrectSecret), not_found(), fresh()).is_err());
}

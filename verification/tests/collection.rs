use std::cell::RefCell;
use std::path::PathBuf;
use std::rc::Rc;

use oo7_keyring::attributes::Attributes;
use oo7_keyring::crypto::error::Error as CryptoError;
use oo7_keyring::crypto::gpg::SessionKey;
use oo7_keyring::file::api::{
    EncryptedItem, Item as FileItem, Keyring, KeyringCipher, UnlockedItem,
};
use oo7_keyring::file::error::Error as FileError;
use oo7_keyring::file::password_keyring::{
    PasswordLockedKeyring, PasswordUnlockedKeyring, UnlockStep,
};
use oo7_keyring::file::traits::{BeginUnlockResult, SecretProvider};
use oo7_keyring::secret::{Key, Secret};
use oo7_keyring::server::collection::{finish_item_deletion, Collection, KeyringState};
use oo7_keyring::server::creation::{
    create_item_unlocked, created_reply, prompt_reply, secret_decrypted, NewItem, SecretStep,
    Session,
};
use oo7_keyring::server::error::{BusError, Error, ServiceError};
use oo7_keyring::server::script::{
    label_request_failed, request_failed, Action, Request, Signal, Step,
};
use oo7_keyring::server::unlocking::{Admission, Begun, Locking};
use oo7_keyring::time::Timestamp;

/// A cipher that keeps the items and hands out their numbers.
struct Vault {
    items: RefCell<Vec<(Vec<u8>, UnlockedItem)>>,
}

impl Vault {
    fn number(item: &EncryptedItem) -> usize {
        item.blob[0] as usize
    }
}

impl KeyringCipher for Vault {
    fn derive_key(&self, keyring: &Keyring, secret: &Secret) -> Result<Key, CryptoError> {
        let mut bytes = keyring.salt.clone();
        bytes.extend_from_slice(&secret.bytes);
        Ok(Key::new(bytes))
    }

    fn validate_key(&self, keyring: &Keyring, key: &Key) -> Result<(), FileError> {
        for item in &keyring.items {
            self.decrypt(item, key)?;
        }
        Ok(())
    }

    fn validate_secret(&self, keyring: &Keyring, secret: &Secret) -> Result<bool, CryptoError> {
        let key = self.derive_key(keyring, secret)?;
        Ok(self.validate_key(keyring, &key).is_ok())
    }

    fn matches(&self, item: &EncryptedItem, attributes: &Attributes, key: &Key) -> bool {
        let items = self.items.borrow();
        let (sealed_with, plain) = &items[Vault::number(item)];
        *sealed_with == key.bytes && attributes.within(&plain.attributes)
    }

    fn decrypt(&self, item: &EncryptedItem, key: &Key) -> Result<UnlockedItem, FileError> {
        let items = self.items.borrow();
        let (sealed_with, plain) = &items[Vault::number(item)];
        if *sealed_with == key.bytes {
            Ok(plain.duplicate())
        } else {
            Err(FileError::IncorrectSecret)
        }
    }

    fn encrypt(&self, item: &UnlockedItem, key: &Key) -> Result<EncryptedItem, FileError> {
        let mut items = self.items.borrow_mut();
        items.push((key.bytes.clone(), item.duplicate()));
        Ok(EncryptedItem { hashed_attributes: Vec::new(), blob: vec![(items.len() - 1) as u8] })
    }

    fn fresh_salt(&self) -> Vec<u8> {
        vec![9, 9]
    }
}

/// A prompter that answers with what it was told to.
#[derive(Clone)]
struct Prompter {
    answers: Rc<RefCell<Vec<Result<&'static str, ()>>>>,
}

impl Prompter {
    fn answer(&self) -> Result<Secret, FileError> {
        let mut answers = self.answers.borrow_mut();
        if answers.is_empty() {
            return Err(FileError::PromptDismissed);
        }
        match answers.remove(0) {
            Ok(text) => Ok(Secret::text(text)),
            Err(()) => Err(FileError::PromptDismissed),
        }
    }
}

impl SecretProvider for Prompter {
    fn create_prompt(&self, label: &str) -> Result<String, FileError> {
        assert_eq!(label, "session");
        Ok("/org/freedesktop/secrets/prompt/p0".to_string())
    }

    fn await_prompt(&self, prompt_path: &str) -> Result<Secret, FileError> {
        assert_eq!(prompt_path, "/org/freedesktop/secrets/prompt/p0");
        self.answer()
    }

    fn secret_rejected(&self, label: &str, error: &FileError) -> Result<Secret, FileError> {
        assert_eq!(label, "session");
        assert!(matches!(error, FileError::IncorrectSecret));
        self.answer()
    }
}

type Locked = PasswordLockedKeyring<Prompter>;
type Unlocked = PasswordUnlockedKeyring<Prompter>;

const PASSWORD: &str = "test-password-long-enough";
const SESSION: &str = "/org/freedesktop/secrets/session/s0";

/// A service with one collection, and a record of what went over the bus.
struct Setup {
    collection: Collection<Locked, Unlocked>,
    cipher: Vault,
    prompter: Prompter,
    session: Session,
    clock: u64,
    requests: usize,
    signals: Vec<Signal>,
    objects: Vec<String>,
    removed_files: Vec<PathBuf>,
    collections: Vec<String>,
    broken: Option<usize>,
}

fn text(s: &str) -> String {
    s.to_string()
}

fn attributes(pairs: &[(&str, &str)]) -> Attributes {
    let mut attributes = Attributes::new();
    for (name, value) in pairs {
        attributes = attributes.with(name.to_string(), value.to_string());
    }
    attributes
}

fn xor(bytes: &[u8], key: &[u8]) -> Vec<u8> {
    bytes.iter().enumerate().map(|(i, b)| b ^ key[i % key.len()]).collect()
}

impl Setup {
    fn new(session: Session) -> Setup {
        let prompter = Prompter { answers: Rc::new(RefCell::new(Vec::new())) };
        let fresh = Keyring::new(vec![1, 2, 3], Timestamp { secs: 100, nanos: 0 });
        let keyring = PasswordUnlockedKeyring::temporary_with_provider(
            Secret::text(PASSWORD),
            prompter.clone(),
            fresh,
        );
        let Ok(keyring) = keyring else { panic!("a temporary keyring is always made") };
        let collection =
            Collection::new("Login", "default", KeyringState::Unlocked(keyring), None);
        let path = collection.path().clone();
        Setup {
            collection,
            cipher: Vault { items: RefCell::new(Vec::new()) },
            prompter,
            session,
            clock: 100,
            requests: 0,
            signals: Vec::new(),
            objects: vec![path.clone()],
            removed_files: Vec::new(),
            collections: vec![path],
            broken: None,
        }
    }

    fn plain_session() -> Setup {
        Setup::new(Session { aes_key: None })
    }

    fn encrypted_session() -> Setup {
        Setup::new(Session { aes_key: Some(Key::new(vec![7, 11, 13])) })
    }

    fn now(&self) -> Timestamp {
        Timestamp { secs: self.clock, nanos: 0 }
    }

    fn perform(&mut self, request: Request) -> Result<(), (Request, BusError)> {
        if self.broken == Some(self.requests) {
            return Err((request, BusError { message: text("the bus is broken") }));
        }
        self.requests += 1;
        match request {
            Request::ExposeItem(path) => self.objects.push(path),
            Request::RemoveObject(path) => self.objects.retain(|p| *p != path),
            Request::Unregister(path) => self.collections.retain(|p| *p != path),
            Request::Emit(signal) => self.signals.push(signal),
            Request::RemoveFile(path) => self.removed_files.push(path),
            Request::OpenEmitter(_) => {}
        }
        Ok(())
    }

    fn run(&mut self, script: Vec<Action>) -> Result<(), Result<(Request, BusError), Error>> {
        let mut rest = script;
        loop {
            let now = self.now();
            match self.collection.advance(rest, now) {
                Step::Ask(request, left) => {
                    self.perform(request).map_err(Ok)?;
                    rest = left;
                }
                Step::Done => return Ok(()),
                Step::Failed(error) => return Err(Err(error)),
            }
        }
    }

    fn finish(&mut self, script: Vec<Action>) -> Result<(), ServiceError> {
        match self.run(script) {
            Ok(()) => Ok(()),
            Err(Ok((request, error))) => Err(request_failed(&request, error)),
            Err(Err(Error::Service(error))) => Err(error),
            Err(Err(_)) => panic!("not an error of the service"),
        }
    }

    fn new_item(&self, label: &str, pairs: &[(&str, &str)], secret: &str, replace: bool) -> NewItem {
        let bytes = match &self.session.aes_key {
            Some(key) => xor(secret.as_bytes(), &key.bytes),
            None => secret.as_bytes().to_vec(),
        };
        NewItem {
            label: text(label),
            attributes: attributes(pairs),
            session_path: text(SESSION),
            iv: Vec::new(),
            secret: bytes,
            content_type: text("text/plain"),
            replace,
        }
    }

    fn find_session(&self, path: &str) -> Option<Session> {
        if path != SESSION {
            return None;
        }
        Some(Session { aes_key: self.session.aes_key.as_ref().map(|key| key.duplicate()) })
    }

    fn create_unlocked(&mut self, new: NewItem) -> Result<String, ServiceError> {
        let session = self.find_session(&new.session_path);
        let request = match create_item_unlocked(new, session)? {
            SecretStep::Store(request) => request,
            SecretStep::Decrypt { key, iv: _, bytes, then } => {
                let plain = SessionKey::new(xor(&bytes, &key.bytes));
                secret_decrypted(then, Ok(plain))?
            }
        };
        let stored = self.collection.store_item(&self.cipher, request);
        let (path, script) = self.collection.item_stored(&self.cipher, stored, Ok(()))?;
        self.finish(script)?;
        Ok(path)
    }

    /// Runs the unlock loop as a prompt would.
    fn unlock(&self, keyring: Locked, prompt: &str) -> Option<Result<Unlocked, FileError>> {
        let mut step = keyring.complete_prompt(&self.cipher, prompt);
        loop {
            match step {
                UnlockStep::Unlocked(keyring) => return Some(Ok(keyring)),
                UnlockStep::Failed(FileError::PromptDismissed) => return None,
                UnlockStep::Failed(error) => return Some(Err(error)),
                UnlockStep::Rejected(keyring) => step = keyring.unlock_again(&self.cipher),
            }
        }
    }

    fn create(&mut self, new: NewItem) -> Result<(String, String), ServiceError> {
        match self.collection.create_item(new)? {
            Admission::Proceed(new) => Ok(created_reply(self.create_unlocked(new)?)),
            Admission::Unlock { keyring, then } => {
                let begun = keyring.begin_unlock();
                match self.collection.unlock_begun(&self.cipher, begun, then)? {
                    Begun::Ready(new) => Ok(created_reply(self.create_unlocked(new)?)),
                    Begun::Prompt { path, then } => {
                        let completion = self.unlock(keyring, &path);
                        let proceed =
                            self.collection.unlock_completed(&self.cipher, completion, then);
                        if let Some(new) = proceed {
                            self.create_unlocked(new)?;
                        }
                        Ok(prompt_reply(path))
                    }
                }
            }
        }
    }

    fn create_item(
        &mut self,
        label: &str,
        pairs: &[(&str, &str)],
        secret: &str,
        replace: bool,
    ) -> Result<String, ServiceError> {
        let new = self.new_item(label, pairs, secret, replace);
        Ok(self.create(new)?.0)
    }

    fn delete(&mut self) -> Result<(), ServiceError> {
        match self.collection.delete()? {
            Admission::Proceed(()) => {
                let script = self.collection.delete_unlocked();
                self.finish(script)
            }
            Admission::Unlock { keyring, then } => {
                let begun = keyring.begin_unlock();
                match self.collection.unlock_begun(&self.cipher, begun, then)? {
                    Begun::Ready(()) => {}
                    Begun::Prompt { path, then } => {
                        let completion = self.unlock(keyring, &path);
                        let proceed =
                            self.collection.unlock_completed(&self.cipher, completion, then);
                        if proceed.is_none() {
                            return Ok(());
                        }
                    }
                }
                let script = self.collection.delete_unlocked();
                self.finish(script)
            }
        }
    }

    fn delete_item(&mut self, path: &str) -> Result<(), ServiceError> {
        let path = text(path);
        let attributes = self.collection.delete_item(&path)?;
        let deleted = self.collection.delete_stored(&self.cipher, &attributes);
        let script = finish_item_deletion(&path, deleted, Ok(()))?;
        self.finish(script)
    }

    fn set_label(&mut self, label: &str) -> Result<(), ServiceError> {
        let script = self.collection.set_label(label)?;
        match self.run(script) {
            Ok(()) => Ok(()),
            Err(Ok((request, error))) => Err(label_request_failed(&request, error)),
            Err(Err(_)) => panic!("the script has no failure of its own"),
        }
    }

    fn set_locked(&mut self, locked: bool, secret: Option<Secret>) -> Result<(), ServiceError> {
        let signals = match self.collection.set_locked(&self.cipher, locked, secret)? {
            Locking::Done(signals) => signals,
            Locking::UnlockWithSecret { keyring, secret } => {
                let unlocked = keyring.unlock_with_secret(&self.cipher, &secret);
                self.collection.unlocked_with_secret(&self.cipher, unlocked)?
            }
            Locking::BeginUnlock(_) => panic!("a password is needed"),
        };
        self.signals.extend(signals);
        Ok(())
    }

    fn search(&mut self, pairs: &[(&str, &str)]) -> Vec<String> {
        let found = self.collection.search_items(&self.cipher, &attributes(pairs));
        let Ok(found) = found else { panic!("the key can be derived") };
        found
    }

    fn item(&self, path: &str) -> &UnlockedItem {
        let Some(item) = self.collection.item_from_path(&text(path)) else {
            panic!("there is an item at the path")
        };
        match &item.inner {
            FileItem::Unlocked(item) => item,
            FileItem::Locked(_) => panic!("the item is locked"),
        }
    }
}

#[test]
fn create_item_plain() {
    let mut setup = Setup::plain_session();
    let initial_modified = setup.collection.modified_at();
    setup.clock += 1;

    let item = setup
        .create_item(
            "Test Item",
            &[("application", "test-app"), ("type", "password")],
            "my-secret-password",
            false,
        )
        .unwrap();

    let items = setup.collection.items();
    assert_eq!(items.len(), 1, "Collection should have one item");
    assert_eq!(items[0], item);
    assert_eq!(setup.item(&item).label, "Test Item");
    assert_eq!(setup.item(&item).secret.bytes, b"my-secret-password");
    assert!(
        setup.collection.modified_at() > initial_modified,
        "Modified timestamp should be updated after creating item"
    );
}

#[test]
fn create_item_encrypted() {
    let mut setup = Setup::encrypted_session();
    let item = setup
        .create_item(
            "Test Encrypted Item",
            &[("application", "test-app"), ("type", "encrypted-password")],
            "my-encrypted-secret",
            false,
        )
        .unwrap();

    let items = setup.collection.items();
    assert_eq!(items.len(), 1, "Collection should have one item");
    assert_eq!(items[0], item);
    assert_eq!(setup.item(&item).secret.bytes, b"my-encrypted-secret");
}

#[test]
fn search_items_after_creation() {
    let mut setup = Setup::plain_session();
    setup
        .create_item(
            "Firefox Password",
            &[("application", "firefox"), ("username", "user1")],
            "password1",
            false,
        )
        .unwrap();
    setup
        .create_item(
            "Chrome Password",
            &[("application", "chrome"), ("username", "user2")],
            "password2",
            false,
        )
        .unwrap();

    let firefox_items = setup.search(&[("application", "firefox")]);
    assert_eq!(firefox_items.len(), 1, "Should find one firefox item");
    assert_eq!(setup.item(&firefox_items[0]).label, "Firefox Password");

    let chrome_items = setup.search(&[("application", "chrome")]);
    assert_eq!(chrome_items.len(), 1, "Should find one chrome item");
    assert_eq!(setup.item(&chrome_items[0]).label, "Chrome Password");

    let nonexistent_items = setup.search(&[("application", "nonexistent")]);
    assert_eq!(nonexistent_items.len(), 0, "Should find no nonexistent items");
}

#[test]
fn search_items_subset_matching() {
    let mut setup = Setup::plain_session();
    setup
        .create_item(
            "Zed Login",
            &[("url", "https://zed.dev"), ("username", "alice")],
            "my-password",
            false,
        )
        .unwrap();

    let results = setup.search(&[("url", "https://zed.dev")]);
    assert_eq!(
        results.len(),
        1,
        "Should find item when searching with subset of its attributes"
    );

    let results = setup.search(&[("username", "alice")]);
    assert_eq!(
        results.len(),
        1,
        "Should find item when searching with different subset of its attributes"
    );

    let results = setup.search(&[("url", "https://zed.dev"), ("username", "alice")]);
    assert_eq!(
        results.len(),
        1,
        "Should find item when searching with all its attributes"
    );

    let results = setup.search(&[
        ("url", "https://zed.dev"),
        ("username", "alice"),
        ("extra", "attribute"),
    ]);
    assert_eq!(
        results.len(),
        0,
        "Should not find item when searching with superset of its attributes"
    );
}

#[test]
fn create_item_with_replace() {
    let mut setup = Setup::plain_session();
    let pairs = [("application", "myapp"), ("username", "user")];
    let item1 = setup.create_item("Test Item", &pairs, "original-password", false).unwrap();

    assert_eq!(setup.collection.items().len(), 1, "Should have one item");
    assert_eq!(setup.item(&item1).secret.bytes, b"original-password");

    let item2 = setup.create_item("Test Item", &pairs, "replaced-password", true).unwrap();

    let items = setup.collection.items();
    assert_eq!(items.len(), 1, "Should still have one item after replace");
    assert_eq!(setup.item(&item2).secret.bytes, b"replaced-password");
    assert_eq!(items[0], item2);
    assert_ne!(item1, item2);
}

#[test]
fn label_property() {
    let mut setup = Setup::plain_session();
    assert_eq!(setup.collection.alias(), "default", "Default collection should exist");
    assert_eq!(setup.collection.label(), "Login");

    let initial_modified = setup.collection.modified_at();
    setup.clock += 1;

    setup.set_label("My Custom Collection").unwrap();
    assert_eq!(setup.collection.label(), "My Custom Collection");
    assert!(
        setup.collection.modified_at() > initial_modified,
        "Modified timestamp should be updated after label change"
    );
}

#[test]
fn timestamps() {
    let setup = Setup::plain_session();
    let created = setup.collection.created_at();
    assert!(created > 0, "Created timestamp should be set");

    let modified = setup.collection.modified_at();
    assert!(modified > 0, "Modified timestamp should be set");

    let diff = if created > modified { created - modified } else { modified - created };
    assert!(diff <= 1, "Created and modified should be within 1 second");
}

#[test]
fn create_item_invalid_session() {
    let mut setup = Setup::plain_session();
    let mut new = setup.new_item(
        "Test Item",
        &[("application", "test-app"), ("type", "password")],
        "my-secret-password",
        false,
    );
    new.session_path = text("/invalid/session/path");
    let result = setup.create(new);
    assert!(matches!(result, Err(ServiceError::NoSession(_))), "Should be NoSession error");
    match result {
        Err(ServiceError::NoSession(message)) => {
            assert_eq!(message, "The session `/invalid/session/path` does not exist.")
        }
        _ => unreachable!(),
    }
    assert!(setup.collection.items().is_empty());
}

#[test]
fn item_created_signal() {
    let mut setup = Setup::plain_session();
    let item = setup.create_item("Test Item", &[("app", "test")], "test-secret", false).unwrap();

    let signal = setup.signals.iter().find_map(|signal| match signal {
        Signal::ItemCreated(path) => Some(path.clone()),
        _ => None,
    });
    assert!(signal.is_some(), "Should receive ItemCreated signal");
    assert_eq!(signal.unwrap(), item, "Signal should contain the created item path");
}

#[test]
fn a_replaced_item_is_told_of() {
    let mut setup = Setup::plain_session();
    let item = setup.create_item("Test Item", &[("app", "test")], "test-secret", false).unwrap();
    let other = setup.create_item("Test Item", &[("app", "test")], "test-secret", true).unwrap();

    let signal = setup.signals.iter().find_map(|signal| match signal {
        Signal::ItemDeleted(path) => Some(path.clone()),
        _ => None,
    });
    assert!(signal.is_some(), "Should receive ItemDeleted signal");
    assert_eq!(signal.unwrap(), item, "Signal should contain the deleted item path");
    assert_ne!(item, other);
}

#[test]
fn collection_changed_signal() {
    let mut setup = Setup::plain_session();
    setup.set_label("Updated Collection Label").unwrap();

    let signal = setup.signals.iter().find_map(|signal| match signal {
        Signal::CollectionChanged(path) => Some(path.clone()),
        _ => None,
    });
    assert!(
        signal.is_some(),
        "Should receive CollectionChanged signal after label change"
    );
    assert_eq!(
        signal.unwrap(),
        *setup.collection.path(),
        "Signal should contain the changed collection path"
    );
}

#[test]
fn delete_collection() {
    let mut setup = Setup::plain_session();
    setup.create_item("Item 1", &[("app", "test")], "password1", false).unwrap();
    setup.create_item("Item 2", &[("app", "test")], "password2", false).unwrap();

    let items = setup.collection.items();
    assert_eq!(items.len(), 2, "Should have 2 items before deletion");
    let collection_path = setup.collection.path().clone();
    let initial_count = setup.collections.len();

    setup.delete().unwrap();

    assert_eq!(
        setup.collections.len(),
        initial_count - 1,
        "Service should have one less collection after deletion"
    );
    assert!(
        !setup.collections.contains(&collection_path),
        "Deleted collection should not be in service collections list"
    );
    assert!(setup.objects.is_empty());
}

#[test]
fn collection_deleted_signal() {
    let mut setup = Setup::plain_session();
    let collection_path = setup.collection.path().clone();
    setup.delete().unwrap();

    let signal = setup.signals.iter().find_map(|signal| match signal {
        Signal::CollectionDeleted(path) => Some(path.clone()),
        _ => None,
    });
    assert!(signal.is_some(), "Should receive CollectionDeleted signal");
    assert_eq!(
        signal.unwrap(),
        collection_path,
        "Signal should contain the deleted collection path"
    );
}

#[test]
fn create_item_in_locked_collection() {
    let mut setup = Setup::plain_session();
    setup.set_locked(true, Some(Secret::text(PASSWORD))).unwrap();
    assert!(setup.collection.is_locked(), "Collection should be locked");

    setup.prompter.answers.borrow_mut().push(Ok(PASSWORD));
    let new =
        setup.new_item("Test Item", &[("app", "test"), ("type", "password")], "test-password", false);
    let (item, prompt) = setup.create(new).unwrap();
    assert_eq!(item, "/");
    assert_eq!(prompt, "/org/freedesktop/secrets/prompt/p0");
    assert!(!setup.collection.is_locked(), "Collection should be unlocked after prompt");

    let items = setup.collection.items();
    assert_eq!(items.len(), 1, "Collection should have one item");
    let item = setup.item(&items[0]);
    assert_eq!(item.label, "Test Item", "Item should have correct label");
    assert_eq!(item.attributes.get(&text("app")), Some(&text("test")));
    assert_eq!(item.attributes.get(&text("type")), Some(&text("password")));
    assert_eq!(item.attributes.get(&text("xdg:content-type")), Some(&text("text/plain")));
    assert_eq!(item.secret.bytes, b"test-password");
}

#[test]
fn delete_locked_collection_with_prompt() {
    let mut setup = Setup::plain_session();
    setup.set_locked(true, Some(Secret::text(PASSWORD))).unwrap();
    assert!(setup.collection.is_locked(), "Collection should be locked");
    let collection_path = setup.collection.path().clone();
    let initial_count = setup.collections.len();

    setup.prompter.answers.borrow_mut().push(Ok(PASSWORD));
    setup.delete().unwrap();

    assert_eq!(
        setup.collections.len(),
        initial_count - 1,
        "Collection should be deleted after prompt"
    );
    assert!(
        !setup.collections.contains(&collection_path),
        "Deleted collection should not be in service collections list"
    );
}

#[test]
fn unlock_retry() {
    let mut setup = Setup::plain_session();
    setup.create_item("Test Item", &[("app", "test")], "test-secret-data", false).unwrap();
    setup.set_locked(true, Some(Secret::text(PASSWORD))).unwrap();
    assert!(setup.collection.is_locked(), "Collection should be locked");

    setup.prompter.answers.borrow_mut().extend([
        Ok("wrong-password"),
        Ok("wrong-password2"),
        Ok("test-password-long-enough"),
    ]);
    let Ok(Admission::Unlock { keyring, then }) = setup.collection.request_access(()) else {
        panic!("the collection is locked")
    };
    let Ok(BeginUnlockResult::NeedsInput { prompt_path }) = keyring.begin_unlock() else {
        panic!("a password is needed")
    };
    let completion = setup.unlock(keyring, &prompt_path);
    assert!(setup.collection.unlock_completed(&setup.cipher, completion, then).is_some());
    let unlocked: Vec<&String> = [&setup.collection]
        .into_iter()
        .filter(|collection| !collection.is_locked())
        .map(|collection| collection.path())
        .collect();
    assert_eq!(unlocked.len(), 1, "Should have unlocked 1 collection");
    assert_eq!(
        unlocked[0], "/org/freedesktop/secrets/collection/Login",
        "Should return the collection path"
    );
    assert!(
        !setup.collection.is_locked(),
        "Collection should be unlocked after retry with correct password"
    );
    assert!(setup.prompter.answers.borrow().is_empty());
    let items = setup.collection.items();
    assert_eq!(setup.item(&items[0]).secret.bytes, b"test-secret-data");
}

#[test]
fn locked_collection_operations() {
    let mut setup = Setup::plain_session();
    assert!(!setup.collection.is_locked(), "Collection should start unlocked");

    setup.set_locked(true, Some(Secret::text(PASSWORD))).unwrap();
    assert!(setup.collection.is_locked(), "Collection should be locked");

    match setup.set_label("New Label") {
        Err(ServiceError::Failed(message)) => assert_eq!(
            message,
            "Cannot set label of a locked collection `/org/freedesktop/secrets/collection/Login`."
        ),
        result => panic!("set_label should fail with IsLocked error, got: {:?}", result),
    }

    assert_eq!(
        setup.collection.label(),
        "Login",
        "Should be able to read label of locked collection"
    );
    assert!(
        setup.collection.items().is_empty(),
        "Should be able to read items (empty) from locked collection"
    );
}

#[test]
fn a_locked_collection_finds_no_items() {
    let mut setup = Setup::plain_session();
    setup.create_item("Test Item", &[("app", "test")], "secret", false).unwrap();
    assert_eq!(setup.search(&[("app", "test")]).len(), 1);
    setup.set_locked(true, None).unwrap();
    assert!(setup.search(&[("app", "test")]).is_empty());
    assert_eq!(setup.collection.items().len(), 1);
}

#[test]
fn locking_and_unlocking_keeps_the_items() {
    let mut setup = Setup::plain_session();
    let path = setup.create_item("Test Item", &[("app", "test")], "secret", false).unwrap();
    setup.signals.clear();
    setup.set_locked(true, None).unwrap();
    assert!(setup.collection.items[0].is_locked());
    assert!(matches!(setup.signals[0], Signal::LockedChanged));
    assert!(matches!(&setup.signals[1], Signal::CollectionChanged(p) if p == setup.collection.path()));

    setup.set_locked(false, Some(Secret::text(PASSWORD))).unwrap();
    assert!(!setup.collection.is_locked());
    assert_eq!(setup.item(&path).secret.bytes, b"secret");
    assert_eq!(setup.search(&[("app", "test")]), vec![path]);
}

#[test]
fn an_invalid_secret_leaves_the_collection_locked() {
    let mut setup = Setup::plain_session();
    setup.create_item("Test Item", &[("app", "test")], "secret", false).unwrap();
    setup.set_locked(true, None).unwrap();

    match setup.set_locked(false, Some(Secret::text("wrong"))) {
        Err(ServiceError::Failed(message)) => assert_eq!(message, "Invalid secret"),
        _ => panic!("the secret is wrong"),
    }
    match setup.set_locked(false, None) {
        Err(ServiceError::Failed(message)) => assert_eq!(
            message,
            "Password keyring requires prompt; use D-Bus unlock method"
        ),
        _ => panic!("a password is needed"),
    }
    assert!(setup.collection.is_locked());
    setup.set_locked(false, Some(Secret::text(PASSWORD))).unwrap();
    assert!(!setup.collection.is_locked());
}

#[test]
fn a_dismissed_prompt_leaves_no_keyring() {
    let mut setup = Setup::plain_session();
    setup.set_locked(true, None).unwrap();
    setup.prompter.answers.borrow_mut().push(Err(()));
    let (item, prompt) = {
        let new = setup.new_item("Test Item", &[("app", "test")], "secret", false);
        setup.create(new).unwrap()
    };
    assert_eq!(item, "/");
    assert_eq!(prompt, "/org/freedesktop/secrets/prompt/p0");
    assert!(setup.collection.is_locked());
    assert!(setup.collection.items().is_empty());

    match setup.create_item("Test Item", &[("app", "test")], "secret", false) {
        Err(ServiceError::Failed(message)) => assert_eq!(message, "Keyring not available"),
        _ => panic!("there is no keyring"),
    }
    match setup.delete() {
        Err(ServiceError::Failed(message)) => assert_eq!(message, "Keyring not available"),
        _ => panic!("there is no keyring"),
    }
}

#[test]
fn failures_of_an_unlock_are_told() {
    let mut setup = Setup::plain_session();
    let begun: Result<BeginUnlockResult<Unlocked>, FileError> =
        Err(FileError::Malformed(text("out of order")));
    match setup.collection.unlock_begun(&setup.cipher, begun, ()) {
        Err(ServiceError::Failed(message)) => {
            assert_eq!(message, "Failed to begin unlock: out of order")
        }
        _ => panic!("the unlock failed"),
    }
    match setup.collection.unlocked_with_secret(&setup.cipher, Err(FileError::IncorrectSecret)) {
        Err(ServiceError::Failed(message)) => {
            assert_eq!(message, "Failed to unlock with secret: The secret is incorrect")
        }
        _ => panic!("the unlock failed"),
    }
    let needs: Result<BeginUnlockResult<Unlocked>, FileError> =
        Ok(BeginUnlockResult::NeedsInput { prompt_path: text("/p") });
    match setup.collection.unlocked_without_secret(&setup.cipher, needs) {
        Err(ServiceError::Failed(message)) => {
            assert_eq!(message, "Unexpected: GPG keyring returned NeedsInput")
        }
        _ => panic!("a GPG keyring needs no input"),
    }
    match setup.collection.unlocked_without_secret(&setup.cipher, Err(FileError::NotGpgEncrypted)) {
        Err(ServiceError::Failed(message)) => assert_eq!(
            message,
            "Failed to unlock GPG keyring: The keyring uses another kind of encryption"
        ),
        _ => panic!("the unlock failed"),
    }
}

#[test]
fn a_prompt_without_a_valid_path_is_told_as_the_root() {
    let mut setup = Setup::plain_session();
    let needs: Result<BeginUnlockResult<Unlocked>, FileError> =
        Ok(BeginUnlockResult::NeedsInput { prompt_path: text("not a path") });
    match setup.collection.unlock_begun(&setup.cipher, needs, ()) {
        Ok(Begun::Prompt { path, then: () }) => assert_eq!(path, "/"),
        _ => panic!("there is a prompt"),
    }
}

#[test]
fn deleting_an_item_leaves_the_others() {
    let mut setup = Setup::plain_session();
    let first = setup.create_item("First", &[("app", "one")], "secret1", false).unwrap();
    let second = setup.create_item("Second", &[("app", "two")], "secret2", false).unwrap();
    setup.clock += 5;
    setup.delete_item(&first).unwrap();
    assert_eq!(setup.collection.items(), vec![second.clone()]);
    assert_eq!(setup.collection.modified_at(), setup.clock);
    assert!(matches!(setup.signals.last(), Some(Signal::ItemsChanged)));
    assert_eq!(setup.search(&[("app", "two")]), vec![second]);
    assert!(setup.search(&[("app", "one")]).is_empty());
}

#[test]
fn items_that_cannot_be_deleted() {
    let mut setup = Setup::plain_session();
    let path = setup.create_item("First", &[("app", "one")], "secret1", false).unwrap();
    match setup.delete_item("/nowhere") {
        Err(ServiceError::NoSuchObject(message)) => {
            assert_eq!(message, "Item `/nowhere` does not exist.")
        }
        _ => panic!("there is no such item"),
    }
    let keyring = setup.collection.keyring.take();
    match setup.delete_item(&path) {
        Err(ServiceError::IsLocked(message)) => assert_eq!(
            message,
            "Cannot delete an item `/org/freedesktop/secrets/collection/Login/0`  in a locked collection "
        ),
        _ => panic!("the collection is locked"),
    }
    setup.collection.keyring = keyring;
    setup.set_locked(true, None).unwrap();
    match setup.delete_item(&path) {
        Err(ServiceError::IsLocked(message)) => assert_eq!(
            message,
            "Cannot delete a locked item `/org/freedesktop/secrets/collection/Login/0`"
        ),
        _ => panic!("the item is locked"),
    }
    match finish_item_deletion(&path, Err(FileError::IncorrectSecret), Ok(())) {
        Err(ServiceError::Failed(message)) => {
            assert_eq!(message, "Failed to deleted item The secret is incorrect.")
        }
        _ => panic!("the keyring failed"),
    }
}

#[test]
fn item_paths_are_never_given_out_twice() {
    let mut setup = Setup::plain_session();
    let first = setup.create_item("First", &[("app", "one")], "secret1", false).unwrap();
    let second = setup.create_item("Second", &[("app", "two")], "secret2", false).unwrap();
    assert_eq!(first, "/org/freedesktop/secrets/collection/Login/0");
    assert_eq!(second, "/org/freedesktop/secrets/collection/Login/1");
    setup.delete_item(&second).unwrap();
    let third = setup.create_item("Third", &[("app", "three")], "secret3", false).unwrap();
    assert_eq!(third, "/org/freedesktop/secrets/collection/Login/2");
    for n in 3..12 {
        let path = setup.create_item("More", &[("app", "more")], "secret", false).unwrap();
        assert_eq!(path, format!("/org/freedesktop/secrets/collection/Login/{n}"));
    }
}

#[test]
fn dispatched_items_are_numbered_from_one() {
    let mut setup = Setup::plain_session();
    setup.create_item("First", &[("app", "one")], "secret1", false).unwrap();
    setup.create_item("Second", &[("app", "two")], "secret2", false).unwrap();
    setup.collection.items.clear();

    let Ok(script) = setup.collection.dispatch_items(&setup.cipher) else {
        panic!("the items can be listed")
    };
    setup.finish(script).unwrap();
    assert_eq!(
        setup.collection.items(),
        vec![
            text("/org/freedesktop/secrets/collection/Login/1"),
            text("/org/freedesktop/secrets/collection/Login/2"),
        ]
    );
    assert_eq!(setup.collection.item_index, 3);
    assert_eq!(setup.item("/org/freedesktop/secrets/collection/Login/2").label, "Second");
}

#[test]
fn an_item_that_does_not_open_ends_the_dispatch() {
    let mut setup = Setup::plain_session();
    setup.create_item("First", &[("app", "one")], "secret1", false).unwrap();
    setup.create_item("Second", &[("app", "two")], "secret2", false).unwrap();
    setup.collection.items.clear();
    setup.collection.item_index = 0;
    setup.cipher.items.borrow_mut()[1].0 = vec![0];

    let Ok(script) = setup.collection.dispatch_items(&setup.cipher) else {
        panic!("the items can be listed")
    };
    match setup.run(script) {
        Err(Err(Error::InvalidItem(invalid))) => {
            assert!(matches!(invalid.error, FileError::IncorrectSecret))
        }
        _ => panic!("the second item does not open"),
    }
    assert_eq!(
        setup.collection.items(),
        vec![text("/org/freedesktop/secrets/collection/Login/1")]
    );
    assert_eq!(setup.collection.item_index, 0);
}

#[test]
fn a_broken_bus_ends_a_creation_where_it_stands() {
    let mut setup = Setup::plain_session();
    setup.broken = Some(1);
    setup.clock += 1;
    let before = setup.collection.modified_at();
    match setup.create_item("First", &[("app", "one")], "secret1", false) {
        Err(ServiceError::Bus(error)) => assert_eq!(error.message, "the bus is broken"),
        _ => panic!("the bus is broken"),
    }
    // The item is in the list, but the time of the last change is not set yet.
    assert_eq!(setup.collection.items().len(), 1);
    assert_eq!(setup.collection.modified_at(), before);
}

#[test]
fn deleting_a_collection_deletes_its_file() {
    let mut setup = Setup::plain_session();
    setup.delete().unwrap();
    assert!(setup.removed_files.is_empty());

    let mut setup = Setup::plain_session();
    let file = PathBuf::from("/tmp/login.keyring");
    match &mut setup.collection.keyring {
        Some(KeyringState::Unlocked(keyring)) => keyring.path = Some(file.clone()),
        _ => panic!("the collection is unlocked"),
    }
    setup.delete().unwrap();
    assert_eq!(setup.removed_files, vec![file]);
}

#[test]
fn failed_requests_are_told() {
    let error = || BusError { message: text("no") };
    match request_failed(&Request::RemoveFile(PathBuf::from("/tmp/a")), error()) {
        ServiceError::Failed(message) => {
            assert_eq!(message, "Failed to delete keyring file: no")
        }
        _ => panic!("a file has words of its own"),
    }
    assert!(matches!(
        request_failed(&Request::RemoveObject(text("/a")), error()),
        ServiceError::Bus(_)
    ));
    assert!(matches!(
        label_request_failed(&Request::Emit(Signal::LabelChanged), error()),
        ServiceError::Bus(_)
    ));
    match label_request_failed(&Request::Emit(Signal::ModifiedChanged), error()) {
        ServiceError::Failed(message) => assert_eq!(message, "no"),
        _ => panic!("the rest fails in words"),
    }
}

#[test]
fn a_secret_that_does_not_decrypt_is_told() {
    let setup = Setup::encrypted_session();
    let new = setup.new_item("First", &[("app", "one")], "secret1", false);
    let session = setup.find_session(SESSION);
    let Ok(SecretStep::Decrypt { then, key, bytes, .. }) = create_item_unlocked(new, session) else {
        panic!("the session has a key")
    };
    assert_eq!(key.bytes, vec![7, 11, 13]);
    assert_eq!(xor(&bytes, &key.bytes), b"secret1");
    match secret_decrypted(then, Err(CryptoError::NoKey)) {
        Err(ServiceError::Failed(message)) => assert_eq!(
            message,
            "Failed to decrypt secret No decryption key available."
        ),
        _ => panic!("the secret does not decrypt"),
    }
}

#[test]
fn a_content_type_of_the_client_is_kept() {
    let setup = Setup::plain_session();
    let new =
        setup.new_item("First", &[("xdg:content-type", "image/png")], "secret1", false);
    let session = setup.find_session(SESSION);
    let Ok(SecretStep::Store(request)) = create_item_unlocked(new, session) else {
        panic!("the session has no key")
    };
    assert_eq!(
        request.attributes.get(&text("xdg:content-type")),
        Some(&text("image/png"))
    );
    assert_eq!(request.attributes.entries().len(), 1);
}

#[test]
fn an_item_that_cannot_be_written_is_not_created() {
    let mut setup = Setup::plain_session();
    let new = setup.new_item("First", &[("app", "one")], "secret1", false);
    let session = setup.find_session(SESSION);
    let Ok(SecretStep::Store(request)) = create_item_unlocked(new, session) else {
        panic!("the session has no key")
    };
    let stored = setup.collection.store_item(&setup.cipher, request);
    let written = Err(FileError::Malformed(text("disk full")));
    match setup.collection.item_stored(&setup.cipher, stored, written) {
        Err(ServiceError::Failed(message)) => {
            assert_eq!(message, "Failed to create a new item disk full.")
        }
        _ => panic!("the item was not written"),
    }
    assert!(setup.collection.items().is_empty());
    assert_eq!(setup.collection.item_index, 0);
}

#[test]
fn an_item_whose_deletion_cannot_be_written_is_not_deleted() {
    let mut setup = Setup::plain_session();
    let path = setup.create_item("First", &[("app", "one")], "secret1", false).unwrap();
    let Ok(found) = setup.collection.delete_item(&path) else { panic!("the item is there") };
    let deleted = setup.collection.delete_stored(&setup.cipher, &found);
    assert!(deleted.is_ok());
    let written = Err(FileError::Malformed(text("disk full")));
    match finish_item_deletion(&path, deleted, written) {
        Err(ServiceError::Failed(message)) => {
            assert_eq!(message, "Failed to deleted item disk full.")
        }
        _ => panic!("the keyring was not written"),
    }
    assert_eq!(setup.collection.items(), vec![path]);
}

#[test]
fn relocking_keeps_the_order_of_the_items() {
    let mut setup = Setup::plain_session();
    setup.create_item("First", &[("app", "one")], "secret1", false).unwrap();
    setup.create_item("Second", &[("app", "two")], "secret2", false).unwrap();
    let items = setup.collection.items();
    setup.set_locked(true, None).unwrap();
    assert!(setup.collection.is_locked());
    setup.set_locked(false, Some(Secret::text(PASSWORD))).unwrap();
    assert!(!setup.collection.is_locked());
    assert_eq!(setup.collection.items(), items);
    assert_eq!(setup.item(&items[0]).secret.bytes, b"secret1");
    assert_eq!(setup.item(&items[1]).label, "Second");
}

#[test]
fn a_path_is_never_given_again() {
    let mut setup = Setup::plain_session();
    let first = setup.create_item("First", &[("app", "one")], "secret1", false).unwrap();
    setup.delete_item(&first).unwrap();
    let second = setup.create_item("First", &[("app", "one")], "secret1", false).unwrap();
    let third = setup.create_item("First", &[("app", "one")], "secret1", true).unwrap();
    assert_eq!(first, "/org/freedesktop/secrets/collection/Login/0");
    assert_eq!(second, "/org/freedesktop/secrets/collection/Login/1");
    assert_eq!(third, "/org/freedesktop/secrets/collection/Login/2");
    assert_eq!(setup.collection.items(), vec![third]);
}

#[test]
fn more_attributes_find_no_more_items() {
    let mut setup = Setup::plain_session();
    let one = setup.create_item("One", &[("app", "x"), ("user", "a")], "s", false).unwrap();
    let two = setup.create_item("Two", &[("app", "y"), ("user", "a")], "s", false).unwrap();
    let three = setup.create_item("Three", &[("app", "x"), ("user", "b")], "s", false).unwrap();
    let mut find = |pairs: &[(&str, &str)]| {
        setup.collection.search_items(&setup.cipher, &attributes(pairs)).ok()
    };
    assert_eq!(find(&[]), Some(vec![one.clone(), two.clone(), three.clone()]));
    assert_eq!(find(&[("app", "x")]), Some(vec![one.clone(), three]));
    assert_eq!(find(&[("app", "x"), ("user", "a")]), Some(vec![one]));
    assert_eq!(find(&[("app", "x"), ("user", "c")]), Some(vec![]));
}

#[test]
fn labels_give_paths() {
    let keyring = || {
        let fresh = Keyring::new(Vec::new(), Timestamp { secs: 5, nanos: 6 });
        let prompter = Prompter { answers: Rc::new(RefCell::new(Vec::new())) };
        let made = PasswordUnlockedKeyring::temporary_with_provider(
            Secret::text(PASSWORD),
            prompter,
            fresh,
        );
        let Ok(keyring) = made else { panic!("a temporary keyring is always made") };
        KeyringState::<Locked, Unlocked>::Unlocked(keyring)
    };
    let collection = Collection::new("My Keys (2)", "", keyring(), None);
    assert_eq!(collection.path(), "/org/freedesktop/secrets/collection/My_Keys__2_");
    assert_eq!(collection.label(), "My Keys (2)");
    // Letters outside ASCII do not stand in a path.
    let collection = Collection::new("Café", "", keyring(), None);
    assert_eq!(collection.path(), "/org/freedesktop/secrets/collection/Caf_");
    assert_eq!(collection.label(), "Café");
    // Without a file behind the keyring, the time of its creation is that of its last change.
    let stamp = Some(Timestamp { secs: 1, nanos: 0 });
    let collection = Collection::new("a", "b", keyring(), stamp);
    assert_eq!(collection.created_at(), 5);
    assert_eq!(collection.alias(), "b");
    assert_eq!(keyring().debug_text(), "KeyringState::Unlocked");
}

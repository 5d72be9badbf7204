//! Creating an item in a collection.
use vstd::prelude::*;

use crate::attributes::Attributes;
use crate::crypto::error::Error as CryptoError;
use crate::crypto::gpg::SessionKey;
use crate::file::api::created;
use crate::file::api::removed;
use crate::file::api::selected;
use crate::file::api::Item as FileItem;
use crate::file::api::Keyring;
use crate::file::api::KeyringCipher;
use crate::file::api::UnlockedItem;
use crate::file::api::UnlockedItemView;
use crate::file::error::Error as FileError;
use crate::file::storage::in_memory;
use crate::file::storage::Unsaved;
use crate::file::traits::key_answer;
use crate::file::traits::LockedKeyring;
use crate::file::traits::UnlockedKeyring;
use crate::object_path::child;
use crate::object_path::child_path;
use crate::object_path::root;
use crate::object_path::root_path;
use crate::secret::Key;
use crate::secret::Secret;
use crate::server::collection::paths;
use crate::server::collection::searches;
use crate::server::collection::Collection;
use crate::server::collection::CollectionView;
use crate::server::collection::KeyringState;
use crate::server::error::file_failure;
use crate::server::error::is_failure;
use crate::server::error::is_file_failure;
use crate::server::error::Error;
use crate::server::error::ServiceError;
use crate::server::item::Item;
use crate::server::script::Action;
use crate::server::script::Place;
use crate::server::script::Request;
use crate::server::script::Signal;
use crate::server::unlocking::without_keyring;
use crate::server::unlocking::Admission;
use crate::text::sentence;

verus! {

/// The attribute that tells what kind of data the secret of an item is.
pub open spec fn content_type_attribute() -> Seq<char> {
    "xdg:content-type"@
}

/// What a client sends to create an item. The secret comes through a session, which may have
/// encrypted it.
pub struct NewItem {
    pub label: String,
    pub attributes: Attributes,
    pub session_path: String,
    pub iv: Vec<u8>,
    pub secret: Vec<u8>,
    pub content_type: String,
    pub replace: bool,
}

/// A session with a client. Secrets are encrypted with its key, where it has one.
pub struct Session {
    pub aes_key: Option<Key>,
}

/// What is known of a new item while its secret is being decrypted.
pub struct PendingItem {
    pub label: String,
    pub attributes: Attributes,
    pub content_type: String,
    pub replace: bool,
}

/// What the keyring is asked to store.
pub struct StoreRequest {
    pub label: String,
    pub attributes: Attributes,
    pub secret: Secret,
    pub replace: bool,
}

/// What the keyring made of a request to store an item.
pub struct Stored {
    pub attributes: Attributes,
    pub replace: bool,
    pub item: Result<Unsaved<UnlockedItem>, FileError>,
}

/// What has to be done with the secret of a new item.
pub enum SecretStep {
    /// Nothing: the item can be stored.
    Store(StoreRequest),
    /// The bytes have to be decrypted.
    Decrypt { key: Key, iv: Vec<u8>, bytes: Vec<u8>, then: PendingItem },
}

/// The attributes that are stored with an item: its own, and the content type unless it is
/// among them.
pub open spec fn stored_attributes(
    attributes: Map<Seq<char>, Seq<char>>,
    content_type: Seq<char>,
) -> Map<Seq<char>, Seq<char>> {
    if attributes.contains_key(content_type_attribute()) {
        attributes
    } else {
        attributes.insert(content_type_attribute(), content_type)
    }
}

/// The request to store an item.
pub open spec fn is_store_request(
    request: StoreRequest,
    label: Seq<char>,
    attributes: Map<Seq<char>, Seq<char>>,
    secret: Seq<u8>,
    content_type: Seq<char>,
    replace: bool,
) -> bool {
    &&& request.label@ == label
    &&& request.attributes@ == stored_attributes(attributes, content_type)
    &&& request.secret@ == secret
    &&& request.replace == replace
}

fn store_request(pending: PendingItem, secret: SessionKey) -> (request: StoreRequest)
    ensures
        is_store_request(
            request,
            pending.label@,
            pending.attributes@,
            secret@,
            pending.content_type@,
            pending.replace,
        ),
{
    let name = "xdg:content-type".to_owned();
    let attributes = if pending.attributes.contains_key(&name) {
        pending.attributes
    } else {
        pending.attributes.with(name, pending.content_type)
    };
    StoreRequest {
        label: pending.label,
        attributes,
        secret: Secret::blob(secret.to_vec()),
        replace: pending.replace,
    }
}

/// Starts the creation of an item in an unlocked collection, given the session that was found
/// at the path that the client named.
pub fn create_item_unlocked(new: NewItem, session: Option<Session>) -> (outcome: Result<
    SecretStep,
    ServiceError,
>)
    ensures
        match session {
            None => outcome matches Err(ServiceError::NoSession(text)) && text@
                == "The session `"@ + new.session_path@ + "` does not exist."@,
            Some(Session { aes_key: None }) => outcome matches Ok(SecretStep::Store(request))
                && is_store_request(
                request,
                new.label@,
                new.attributes@,
                new.secret@,
                new.content_type@,
                new.replace,
            ),
            Some(Session { aes_key: Some(key) }) => outcome == Ok::<SecretStep, ServiceError>(
                SecretStep::Decrypt {
                    key,
                    iv: new.iv,
                    bytes: new.secret,
                    then: PendingItem {
                        label: new.label,
                        attributes: new.attributes,
                        content_type: new.content_type,
                        replace: new.replace,
                    },
                },
            ),
        },
{
    let session = match session {
        Some(session) => session,
        None => {
            let text = sentence("The session `", new.session_path.as_str(), "` does not exist.");
            return Err(ServiceError::NoSession(text));
        },
    };
    let pending = PendingItem {
        label: new.label,
        attributes: new.attributes,
        content_type: new.content_type,
        replace: new.replace,
    };
    match session.aes_key {
        Some(key) => Ok(
            SecretStep::Decrypt { key, iv: new.iv, bytes: new.secret, then: pending },
        ),
        None => Ok(SecretStep::Store(store_request(pending, SessionKey::new(new.secret)))),
    }
}

/// Goes on with the creation of an item once its secret was decrypted, or could not be.
pub fn secret_decrypted(pending: PendingItem, secret: Result<SessionKey, CryptoError>) -> (outcome:
    Result<StoreRequest, ServiceError>)
    ensures
        match secret {
            Ok(bytes) => outcome matches Ok(request) && is_store_request(
                request,
                pending.label@,
                pending.attributes@,
                bytes@,
                pending.content_type@,
                pending.replace,
            ),
            Err(e) => outcome matches Err(error) && exists|shown: Seq<char>| #[trigger]
                e.shown(shown) && is_failure(error, "Failed to decrypt secret "@ + shown + "."@),
        },
{
    match secret {
        Ok(bytes) => Ok(store_request(pending, bytes)),
        Err(e) => {
            let shown = e.display();
            let text = sentence("Failed to decrypt secret ", shown.as_str(), ".");
            Err(ServiceError::Failed(text))
        },
    }
}

/// An item leaves the collection and the bus, because another takes its place.
pub open spec fn replacement(path: String) -> Seq<Action> {
    seq![
        Action::Forget(path),
        Action::Ask(Request::RemoveObject(path)),
        Action::Ask(Request::Emit(Signal::ItemDeleted(path))),
    ]
}

/// Items leave the collection and the bus one after the other, because another takes their
/// place.
pub open spec fn replacements(list: Seq<String>) -> Seq<Action>
    decreases list.len(),
{
    if list.len() == 0 {
        seq![]
    } else {
        replacements(list.drop_last()) + replacement(list.last())
    }
}

/// An item joins the collection and goes on the bus.
pub open spec fn publication(item: Item) -> Seq<Action> {
    seq![
        Action::Publish(item),
        Action::Ask(Request::ExposeItem(item.path)),
        Action::Touch,
        Action::Ask(Request::OpenEmitter(Place::Collection)),
        Action::Ask(Request::Emit(Signal::ModifiedChanged)),
        Action::Ask(Request::Emit(Signal::ItemCreated(item.path))),
        Action::Ask(Request::Emit(Signal::ItemsChanged)),
    ]
}

/// What it takes to bring a stored item into the collection, in place of others.
pub open spec fn creation(replaced: Seq<String>, item: Item) -> Seq<Action> {
    seq![Action::Ask(Request::OpenEmitter(Place::Collection))] + replacements(replaced)
        + publication(item)
}

/// What is done where the items to replace cannot be searched for.
pub open spec fn failed_creation(e: ServiceError) -> Seq<Action> {
    seq![
        Action::Ask(Request::OpenEmitter(Place::Collection)),
        Action::Fail(Error::Service(e)),
    ]
}

/// The outcome of storing an item in an unlocked keyring, which turns into `told` by that.
pub open spec fn keyring_stores<C: KeyringCipher, L: LockedKeyring, U: UnlockedKeyring<L>>(
    keyring: U,
    cipher: &C,
    request: StoreRequest,
    told: U,
    outcome: Result<UnlockedItem, FileError>,
) -> bool {
    exists|answer: Result<Key, CryptoError>| #[trigger]
        key_answer(keyring.key_source(), cipher, &keyring.contents(), answer) && match answer {
            Ok(key) => {
                &&& told == keyring.holding(key).storing(told.contents())
                &&& told.contents() == (Keyring {
                    items: told.contents().items,
                    ..keyring.contents()
                })
                &&& created(
                    cipher,
                    keyring.contents().items@,
                    (UnlockedItemView {
                        label: request.label@,
                        attributes: request.attributes@,
                        secret: request.secret@,
                    }),
                    &request.attributes,
                    &key,
                    request.replace,
                    told.contents().items@,
                    outcome,
                )
            },
            Err(e) => {
                &&& told == keyring
                &&& outcome == Err::<UnlockedItem, FileError>(FileError::Crypto(e))
            },
        }
}

/// The outcome of deleting items from an unlocked keyring, which turns into `told` by that.
pub open spec fn keyring_deletes<C: KeyringCipher, L: LockedKeyring, U: UnlockedKeyring<L>>(
    keyring: U,
    cipher: &C,
    attributes: &Attributes,
    told: U,
    outcome: Result<(), FileError>,
) -> bool {
    exists|answer: Result<Key, CryptoError>| #[trigger]
        key_answer(keyring.key_source(), cipher, &keyring.contents(), answer) && match answer {
            Ok(key) => {
                &&& told == keyring.holding(key).storing(told.contents())
                &&& told.contents() == (Keyring {
                    items: told.contents().items,
                    ..keyring.contents()
                })
                &&& removed(
                    cipher,
                    keyring.contents().items@,
                    attributes,
                    &key,
                    told.contents().items@,
                    outcome,
                )
            },
            Err(e) => {
                &&& told == keyring
                &&& outcome == Err::<(), FileError>(FileError::Crypto(e))
            },
        }
}

/// What came of an item that was stored in memory and then written.
pub open spec fn written_item(
    item: Result<Unsaved<UnlockedItem>, FileError>,
    written: Result<(), FileError>,
) -> Result<FileItem, FileError> {
    match (item, written) {
        (Ok(change), Ok(_)) => Ok(FileItem::Unlocked(change@)),
        (Ok(_), Err(e)) => Err(e),
        (Err(e), _) => Err(e),
    }
}

/// The item that a collection makes of what its keyring has stored.
pub open spec fn is_new_item<L, U>(c: CollectionView<L, U>, inner: FileItem, item: Item) -> bool {
    &&& item.inner == inner
    &&& item.collection_path@ == c.path
    &&& item.path@ == child(c.path, c.item_index as nat)
}

/// The outcome of the creation of an item that the keyring has stored: the item gets the next
/// number, and the script brings it into the collection, in place of those that have its
/// attributes where that is wanted.
pub open spec fn creates<C: KeyringCipher, L: LockedKeyring, U: UnlockedKeyring<L>>(
    before: CollectionView<L, U>,
    cipher: &C,
    inner: FileItem,
    attributes: &Attributes,
    replace: bool,
    after: CollectionView<L, U>,
    path: String,
    script: Seq<Action>,
) -> bool {
    let numbered = CollectionView { item_index: (before.item_index + 1) as u32, ..before };
    exists|item: Item| #[trigger]
        is_new_item(before, inner, item) && path@ == item.path@ && if replace {
            exists|outcome: Result<Seq<bool>, ServiceError>| #[trigger]
                searches(numbered, cipher, attributes, after, outcome) && match outcome {
                    Ok(hits) => script == creation(
                        paths(selected(before.items, hits, true)),
                        item,
                    ),
                    Err(e) => script == failed_creation(e),
                }
        } else {
            after == numbered && script == creation(seq![], item)
        }
}

impl<L: LockedKeyring, U: UnlockedKeyring<L>> Collection<L, U> {
    /// Starts the creation of an item. A locked collection has to be unlocked first.
    pub fn create_item(&mut self, new: NewItem) -> (outcome: Result<
        Admission<L, NewItem>,
        ServiceError,
    >)
        ensures
            match old(self)@.keyring {
                Some(KeyringState::Unlocked(_)) => {
                    &&& final(self)@ == old(self)@
                    &&& outcome == Ok::<Admission<L, NewItem>, ServiceError>(
                        Admission::Proceed(new),
                    )
                },
                Some(KeyringState::Locked(keyring)) => {
                    &&& final(self)@ == without_keyring(old(self)@)
                    &&& outcome == Ok::<Admission<L, NewItem>, ServiceError>(
                        Admission::Unlock { keyring, then: new },
                    )
                },
                None => {
                    &&& final(self)@ == old(self)@
                    &&& outcome matches Err(e) && is_failure(e, "Keyring not available"@)
                },
            },
    {
        self.request_access(new)
    }

    /// Goes on with the creation of an item: has the keyring store it, in memory. The keyring
    /// has to be written after that.
    pub fn store_item<C: KeyringCipher>(&mut self, cipher: &C, request: StoreRequest) -> (stored:
        Stored)
        requires
            !old(self)@.is_locked(),
        ensures
            stored.attributes == request.attributes,
            stored.replace == request.replace,
            exists|told: U| #[trigger]
                keyring_stores(
                    old(self)@.keyring->0->Unlocked_0,
                    cipher,
                    request,
                    told,
                    in_memory(stored.item),
                ) && final(self)@ == (CollectionView {
                    keyring: Some(KeyringState::Unlocked(told)),
                    ..old(self)@
                }),
    {
        match &mut self.keyring {
            Some(KeyringState::Unlocked(k)) => {
                let ghost before = (*k, k.key_source(), k.contents());
                let outcome = k.create_item(
                    cipher,
                    request.label.as_str(),
                    &request.attributes,
                    request.secret,
                    request.replace,
                );
                assert(keyring_stores(before.0, cipher, request, *k, in_memory(outcome)));
                Stored { attributes: request.attributes, replace: request.replace, item: outcome }
            },
            _ => {
                assert(false);
                vstd::pervasive::unreached()
            },
        }
    }

    /// Goes on with the deletion of an item: has the keyring delete what has its attributes, in
    /// memory. The keyring has to be written after that.
    pub fn delete_stored<C: KeyringCipher>(&mut self, cipher: &C, attributes: &Attributes) -> (
    outcome: Result<Unsaved<()>, FileError>)
        requires
            !old(self)@.is_locked(),
        ensures
            exists|told: U| #[trigger]
                keyring_deletes(
                    old(self)@.keyring->0->Unlocked_0,
                    cipher,
                    attributes,
                    told,
                    in_memory(outcome),
                ) && final(self)@ == (CollectionView {
                    keyring: Some(KeyringState::Unlocked(told)),
                    ..old(self)@
                }),
    {
        match &mut self.keyring {
            Some(KeyringState::Unlocked(k)) => {
                let ghost before = (*k, k.key_source(), k.contents());
                let outcome = k.delete(cipher, attributes);
                assert(keyring_deletes(before.0, cipher, attributes, *k, in_memory(outcome)));
                outcome
            },
            _ => {
                assert(false);
                vstd::pervasive::unreached()
            },
        }
    }

    /// Goes on with the creation of an item once the keyring was written, or could not be: gives
    /// the item a path, and returns what is left to do.
    pub fn item_stored<C: KeyringCipher>(
        &mut self,
        cipher: &C,
        stored: Stored,
        written: Result<(), FileError>,
    ) -> (outcome: Result<(String, Vec<Action>), ServiceError>)
        requires
            old(self)@.wf(),
            old(self)@.item_index < u32::MAX,
        ensures
            final(self)@.wf(),
            match written_item(stored.item, written) {
                Ok(inner) => outcome matches Ok((path, script)) && creates(
                    old(self)@,
                    cipher,
                    inner,
                    &stored.attributes,
                    stored.replace,
                    final(self)@,
                    path,
                    script@,
                ),
                Err(e) => {
                    &&& final(self)@ == old(self)@
                    &&& outcome matches Err(error) && is_file_failure(
                        error,
                        "Failed to create a new item "@,
                        e,
                        "."@,
                    )
                },
            },
    {
        let attributes = &stored.attributes;
        let replace = stored.replace;
        let saved = match stored.item {
            Ok(change) => change.saved(written),
            Err(e) => Err(e),
        };
        let inner = match saved {
            Ok(item) => FileItem::Unlocked(item),
            Err(e) => {
                return Err(file_failure("Failed to create a new item ", &e, "."));
            },
        };
        let ghost before = self@;
        let path = child_path(self.path.as_str(), self.item_index);
        let item = Item::new(inner, self.path.clone(), path.clone());
        assert(is_new_item(before, inner, item));
        self.item_index = self.item_index + 1;
        let ghost numbered = self@;
        let mut script: Vec<Action> = Vec::new();
        script.push(Action::Ask(Request::OpenEmitter(Place::Collection)));
        let ghost mut replaced: Seq<String> = seq![];
        assert(script@ =~= seq![Action::Ask(Request::OpenEmitter(Place::Collection))]
            + replacements(replaced));
        if replace {
            match self.matching(cipher, attributes) {
                Ok(hits) => {
                    assert(searches(numbered, cipher, attributes, self@, Ok(hits@)));
                    let list = self.flagged_paths(&hits);
                    push_replacements(&mut script, &list);
                    proof {
                        replaced = list@;
                    }
                },
                Err(e) => {
                    assert(searches(numbered, cipher, attributes, self@, Err(e)));
                    script.push(Action::Fail(Error::Service(e)));
                    assert(script@ =~= failed_creation(e));
                    return Ok((path, script));
                },
            }
        }
        let item_path = item.path.clone();
        script.push(Action::Publish(item));
        script.push(Action::Ask(Request::ExposeItem(item_path.clone())));
        script.push(Action::Touch);
        script.push(Action::Ask(Request::OpenEmitter(Place::Collection)));
        script.push(Action::Ask(Request::Emit(Signal::ModifiedChanged)));
        script.push(Action::Ask(Request::Emit(Signal::ItemCreated(item_path))));
        script.push(Action::Ask(Request::Emit(Signal::ItemsChanged)));
        assert(script@ =~= creation(replaced, item));
        Ok((path, script))
    }
}

fn push_replacements(script: &mut Vec<Action>, list: &Vec<String>)
    ensures
        final(script)@ == old(script)@ + replacements(list@),
{
    let mut i: usize = 0;
    assert(script@ =~= old(script)@ + replacements(list@.take(0)));
    while i < list.len()
        invariant
            i <= list@.len(),
            script@ == old(script)@ + replacements(list@.take(i as int)),
        decreases list@.len() - i,
    {
        proof {
            let now = list@.take(i + 1);
            assert(now.drop_last() =~= list@.take(i as int));
            assert(now.last() == list@[i as int]);
        }
        script.push(Action::Forget(list[i].clone()));
        script.push(Action::Ask(Request::RemoveObject(list[i].clone())));
        script.push(Action::Ask(Request::Emit(Signal::ItemDeleted(list[i].clone()))));
        i = i + 1;
        assert(script@ =~= old(script)@ + replacements(list@.take(i as int)));
    }
    assert(list@.take(i as int) =~= list@);
}

/// What a client is told of an item that was created: its path, and that there is no prompt.
pub fn created_reply(path: String) -> (reply: (String, String))
    ensures
        reply.0 == path,
        reply.1@ == root(),
{
    (path, root_path())
}

/// What a client is told of an item that waits for a prompt: that there is no item, and the
/// path of the prompt.
pub fn prompt_reply(prompt: String) -> (reply: (String, String))
    ensures
        reply.0@ == root(),
        reply.1 == prompt,
{
    (root_path(), prompt)
}

} // verus!

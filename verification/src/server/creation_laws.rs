//! What it takes to create an item, and what the collection has of it then.
use vstd::prelude::*;

use crate::attributes::Attributes;
use crate::crypto::error::Error as CryptoError;
use crate::crypto::gpg::SessionKey;
use crate::file::api::selected;
use crate::file::api::Item as FileItem;
use crate::file::api::KeyringCipher;
use crate::file::api::UnlockedItem;
use crate::file::api::UnlockedItemView;
use crate::file::cipher::faithful;
use crate::file::cipher::having;
use crate::file::cipher::indexing;
use crate::file::content_laws::selecting_none_or_all;
use crate::file::error::Error as FileError;
use crate::file::keyring_laws::any_keyring_holds;
use crate::file::keyring_laws::lemma_any_creation;
use crate::file::keyring_laws::lemma_any_deletion;
use crate::file::keyring_laws::same_any_keyring;
use crate::file::laws::a_selection_picks;
use crate::file::laws::picked;
use crate::file::laws::selection_is_exact;
use crate::file::loader::AnyLockedKeyring;
use crate::file::loader::AnyUnlockedKeyring;
use crate::file::storage::in_memory;
use crate::file::storage::Unsaved;
use crate::file::traits::LockedKeyring;
use crate::file::traits::UnlockedKeyring;
use crate::secret::Key;
use crate::server::collection::applied;
use crate::server::collection::paths;
use crate::server::collection::searches;
use crate::server::collection::without;
use crate::server::collection::Collection;
use crate::server::collection::CollectionView;
use crate::server::collection::KeyringState;
use crate::server::collection_laws::lemma_hits;
use crate::server::collection_laws::matching_items;
use crate::server::collection_laws::tells_failure;
use crate::server::creation::create_item_unlocked;
use crate::server::creation::created_reply;
use crate::server::creation::creates;
use crate::server::creation::creation;
use crate::server::creation::failed_creation;
use crate::server::creation::is_new_item;
use crate::server::creation::keyring_deletes;
use crate::server::creation::keyring_stores;
use crate::server::creation::prompt_reply;
use crate::server::creation::publication;
use crate::server::creation::replacement;
use crate::server::creation::replacements;
use crate::server::creation::secret_decrypted;
use crate::server::creation::NewItem;
use crate::server::creation::PendingItem;
use crate::server::creation::SecretStep;
use crate::server::creation::Session;
use crate::server::creation::StoreRequest;
use crate::server::creation::Stored;
use crate::server::error::ServiceError;
use crate::server::item::Item;
use crate::server::laws::all_unlocked;
use crate::server::laws::creation_does_what_it_says;
use crate::server::laws::distinct_item_paths;
use crate::server::laws::without_all;
use crate::server::script::Action;
use crate::server::script::Place;
use crate::server::script::Request;
use crate::server::script::Signal;
use crate::server::script_laws::a_request_is_an_action;
use crate::server::script_laws::requests;
use crate::text::decimal;
use crate::text_laws::a_number_reads_as_it_was_written;
use crate::text_laws::writes;
use crate::time::Timestamp;

verus! {

/// The keyring is asked to store what the client sent: the label, the secret, whether to replace,
/// and under each name the value that the client gave. Where the client named no content type
/// among the attributes, the one that came with the secret stands there under its name.
pub open spec fn asks_to_store(
    request: StoreRequest,
    label: Seq<char>,
    attributes: Map<Seq<char>, Seq<char>>,
    secret: Seq<u8>,
    content_type: Seq<char>,
    replace: bool,
) -> bool {
    &&& request.label@ == label && request.secret@ == secret && request.replace == replace
    &&& forall|name: Seq<char>|
        name != "xdg:content-type"@ || attributes.contains_key(name) ==> (
        #[trigger] request.attributes@.contains_key(name) <==> attributes.contains_key(name)) && (
        attributes.contains_key(name) ==> request.attributes@[name] == attributes[name])
    &&& request.attributes@.contains_key("xdg:content-type"@)
    &&& !attributes.contains_key("xdg:content-type"@)
        ==> request.attributes@["xdg:content-type"@] == content_type
}

/// What a client sends is stored as it was sent, once its secret is in the clear. Without a session
/// there is no item. A session with a key has the secret decrypted with that key first.
pub proof fn an_item_is_stored_as_it_was_sent(
    new: NewItem,
    session: Option<Session>,
    outcome: Result<SecretStep, ServiceError>,
)
    requires
        call_ensures(create_item_unlocked, (new, session), outcome),
    ensures
        match (session, outcome) {
            (None, Err(ServiceError::NoSession(text))) => text@ == "The session `"@
                + new.session_path@ + "` does not exist."@,
            (Some(s), Ok(SecretStep::Store(request))) => s.aes_key is None && asks_to_store(
                request,
                new.label@,
                new.attributes@,
                new.secret@,
                new.content_type@,
                new.replace,
            ),
            (Some(s), Ok(SecretStep::Decrypt { key, iv, bytes, then })) => {
                &&& s.aes_key == Some(key)
                &&& iv@ == new.iv@ && bytes@ == new.secret@
                &&& then.label@ == new.label@ && then.attributes@ == new.attributes@
                &&& then.content_type@ == new.content_type@ && then.replace == new.replace
            },
            _ => false,
        },
{
}

/// A secret that was decrypted is stored with what the client sent with it. One that was not ends
/// the creation, with the reason.
pub proof fn a_decrypted_secret_is_stored(
    pending: PendingItem,
    secret: Result<SessionKey, CryptoError>,
    outcome: Result<StoreRequest, ServiceError>,
)
    requires
        call_ensures(secret_decrypted, (pending, secret), outcome),
    ensures
        match (secret, outcome) {
            (Ok(bytes), Ok(request)) => asks_to_store(
                request,
                pending.label@,
                pending.attributes@,
                bytes@,
                pending.content_type@,
                pending.replace,
            ),
            (Err(e), Err(ServiceError::Failed(text))) => exists|shown: Seq<char>| #[trigger]
                e.shown(shown) && text@ == "Failed to decrypt secret "@ + shown + "."@,
            _ => false,
        },
{
}

/// A client is told the path of an item that was created, and of a prompt that has to come first.
/// The root stands for the one that there is not.
pub proof fn a_client_is_told_the_item_or_the_prompt(path: String, reply: (String, String))
    ensures
        call_ensures(created_reply, (path,), reply) ==> reply.0@ == path@ && reply.1@ == "/"@,
        call_ensures(prompt_reply, (path,), reply) ==> reply.0@ == "/"@ && reply.1@ == path@,
{
    reveal_strlit("/");
    assert("/"@ =~= seq!['/']);
}

/// The collections differ in nothing but what the keyring holds and has at hand.
pub open spec fn same_but_keyring<L, U>(
    a: CollectionView<L, U>,
    b: CollectionView<L, U>,
) -> bool {
    &&& a.items == b.items && a.label == b.label && a.created == b.created
    &&& a.modified == b.modified && a.alias == b.alias && a.item_index == b.item_index
    &&& a.path == b.path
}

/// An item that a collection has stored lies in its keyring, behind the others, with the label, the
/// attributes and the secret that were asked for. The others stay as they are, but for those with
/// its attributes where it replaces them. The rest of the collection waits for the write.
pub proof fn a_stored_item_lies_in_the_keyring<C: KeyringCipher, P, N>(
    collection: &mut Collection<AnyLockedKeyring<P, N>, AnyUnlockedKeyring<P, N>>,
    cipher: &C,
    keyring: AnyUnlockedKeyring<P, N>,
    key: Key,
    contents: Seq<UnlockedItemView>,
    request: StoreRequest,
    stored: Stored,
)
    requires
        faithful(cipher),
        indexing(cipher),
        old(collection)@.keyring == Some(
            KeyringState::<AnyLockedKeyring<P, N>, AnyUnlockedKeyring<P, N>>::Unlocked(keyring),
        ),
        any_keyring_holds(cipher, keyring, key, contents),
        call_ensures(
            Collection::<AnyLockedKeyring<P, N>, AnyUnlockedKeyring<P, N>>::store_item::<C>,
            (collection, cipher, request),
            stored,
        ),
    ensures
        stored.attributes@ == request.attributes@,
        stored.replace == request.replace,
        same_but_keyring(old(collection)@, final(collection)@),
        stored.item matches Ok(change) ==> {
            &&& change@.label@ == request.label@ && change@.attributes@ == request.attributes@
            &&& change@.secret@ == request.secret@
            &&& final(collection)@.keyring matches Some(KeyringState::Unlocked(told))
            &&& same_any_keyring(keyring, told)
            &&& exists|kept: Seq<UnlockedItemView>| #[trigger]
                any_keyring_holds(cipher, told, key, kept.push(change@@)) && (
                if request.replace {
                    picked(contents, having(contents, request.attributes@), false, kept)
                } else {
                    kept == contents
                })
        },
{
    let told = choose|told: AnyUnlockedKeyring<P, N>| #[trigger]
        keyring_stores(keyring, cipher, request, told, in_memory(stored.item))
            && final(collection)@ == (CollectionView {
            keyring: Some(
                KeyringState::<AnyLockedKeyring<P, N>, AnyUnlockedKeyring<P, N>>::Unlocked(told),
            ),
            ..old(collection)@
        });
    if let Ok(change) = stored.item {
        lemma_any_creation(
            keyring,
            cipher,
            key,
            contents,
            (UnlockedItemView {
                label: request.label@,
                attributes: request.attributes@,
                secret: request.secret@,
            }),
            &request.attributes,
            request.replace,
            told,
            change@,
        );
    }
}

/// What a collection has deleted is gone from its keyring, and nothing else. The rest of the
/// collection waits for the write.
pub proof fn a_deleted_item_is_gone_from_the_keyring<C: KeyringCipher, P, N>(
    collection: &mut Collection<AnyLockedKeyring<P, N>, AnyUnlockedKeyring<P, N>>,
    cipher: &C,
    keyring: AnyUnlockedKeyring<P, N>,
    key: Key,
    contents: Seq<UnlockedItemView>,
    attributes: &Attributes,
    outcome: Result<Unsaved<()>, FileError>,
)
    requires
        faithful(cipher),
        indexing(cipher),
        old(collection)@.keyring == Some(
            KeyringState::<AnyLockedKeyring<P, N>, AnyUnlockedKeyring<P, N>>::Unlocked(keyring),
        ),
        any_keyring_holds(cipher, keyring, key, contents),
        call_ensures(
            Collection::<AnyLockedKeyring<P, N>, AnyUnlockedKeyring<P, N>>::delete_stored::<C>,
            (collection, cipher, attributes),
            outcome,
        ),
    ensures
        outcome is Ok,
        same_but_keyring(old(collection)@, final(collection)@),
        final(collection)@.keyring matches Some(KeyringState::Unlocked(told)) && same_any_keyring(
            keyring,
            told,
        ) && exists|kept: Seq<UnlockedItemView>| #[trigger]
            any_keyring_holds(cipher, told, key, kept) && picked(
                contents,
                having(contents, attributes@),
                false,
                kept,
            ),
{
    let told = choose|told: AnyUnlockedKeyring<P, N>| #[trigger]
        keyring_deletes(keyring, cipher, attributes, told, in_memory(outcome))
            && final(collection)@ == (CollectionView {
            keyring: Some(
                KeyringState::<AnyLockedKeyring<P, N>, AnyUnlockedKeyring<P, N>>::Unlocked(told),
            ),
            ..old(collection)@
        });
    lemma_any_deletion(keyring, cipher, key, contents, attributes, told, in_memory(outcome));
}

proof fn lemma_without_selected(items: Seq<Item>, few: Seq<bool>, path: Seq<char>, fewer: Seq<bool>)
    requires
        forall|i: int|
            0 <= i < items.len() ==> #[trigger] fewer[i] == (few[i] && items[i].path@ != path),
    ensures
        without(selected(items, few, true), path) == selected(items, fewer, true),
    decreases items.len(),
{
    reveal(Seq::filter);
    if items.len() > 0 {
        let rest = items.drop_last();
        let last = items.len() - 1;
        assert forall|i: int| 0 <= i < rest.len() implies #[trigger] fewer[i] == (few[i]
            && rest[i].path@ != path) by {
            assert(rest[i] == items[i]);
        }
        lemma_without_selected(rest, few, path, fewer);
        assert(fewer[last] == (few[last] && items[last].path@ != path));
        let before = selected(rest, few, true);
        let now = selected(items, few, true);
        if few[last] {
            assert(now.drop_last() =~= before);
            assert(now.last() == items[last]);
        }
    } else {
        assert(without(selected(items, few, true), path) =~= selected(items, fewer, true));
    }
}

/// Tells of each item whether it is at none of the paths.
spec fn at_none(items: Seq<Item>, list: Seq<String>) -> Seq<bool> {
    Seq::new(
        items.len(),
        |i: int| forall|j: int| 0 <= j < list.len() ==> items[i].path@ != (#[trigger] list[j])@,
    )
}

proof fn lemma_without_all_selected(items: Seq<Item>, list: Seq<String>)
    ensures
        without_all(items, list) == selected(items, at_none(items, list), true),
    decreases list.len(),
{
    if list.len() == 0 {
        let flags = at_none(items, list);
        selecting_none_or_all(items, flags, true);
    } else {
        let rest = list.drop_last();
        lemma_without_all_selected(items, rest);
        let few = at_none(items, rest);
        let fewer = at_none(items, list);
        assert forall|i: int| 0 <= i < items.len() implies #[trigger] fewer[i] == (few[i]
            && items[i].path@ != list.last()@) by {
            if fewer[i] {
                assert forall|j: int| 0 <= j < rest.len() implies items[i].path@ != (
                #[trigger] rest[j])@ by {
                    assert(rest[j] == list[j]);
                }
                assert(list[list.len() - 1] == list.last());
            }
            if few[i] && items[i].path@ != list.last()@ {
                assert forall|j: int| 0 <= j < list.len() implies items[i].path@ != (
                #[trigger] list[j])@ by {
                    if j < rest.len() {
                        assert(rest[j] == list[j]);
                    }
                }
            }
        }
        lemma_without_selected(items, few, list.last()@, fewer);
    }
}

proof fn lemma_flags_alike<T>(s: Seq<T>, a: Seq<bool>, x: bool, b: Seq<bool>, y: bool)
    requires
        forall|i: int| 0 <= i < s.len() ==> (#[trigger] a[i] == x <==> b[i] == y),
    ensures
        selected(s, a, x) == selected(s, b, y),
    decreases s.len(),
{
    if s.len() > 0 {
        lemma_flags_alike(s.drop_last(), a, x, b, y);
        assert(a[s.len() - 1] == x <==> b[s.len() - 1] == y);
    }
}

/// Dropping the items that match drops those and no other, where each has a path of its own.
proof fn lemma_replaced(items: Seq<Item>, flags: Seq<bool>)
    requires
        distinct_item_paths(items),
    ensures
        picked(
            items,
            flags,
            false,
            without_all(items, paths(selected(items, flags, true))),
        ),
{
    let gone = selected(items, flags, true);
    let list = paths(gone);
    lemma_without_all_selected(items, list);
    selection_is_exact(items, flags, true);
    let left = at_none(items, list);
    assert forall|i: int| 0 <= i < items.len() implies (#[trigger] left[i] == true <==> flags[i]
        == false) by {
        if flags[i] {
            assert(gone.contains(items[i]));
            let g = choose|g: int| 0 <= g < gone.len() && gone[g] == items[i];
            assert(list[g] == gone[g].path);
            assert(items[i].path@ == list[g]@);
        } else {
            assert forall|j: int| 0 <= j < list.len() implies items[i].path@ != (
            #[trigger] list[j])@ by {
                assert(list[j] == gone[j].path);
                let k = choose|k: int|
                    0 <= k < items.len() && flags[k] == true && #[trigger] items[k] == gone[j];
                if items[i].path@ == list[j]@ {
                    assert(items[i].path@ == items[k].path@);
                }
            }
        }
    }
    lemma_flags_alike(items, left, true, flags, false);
    a_selection_picks(items, flags, false);
}

proof fn lemma_in_replacements(list: Seq<String>, action: Action)
    ensures
        replacements(list).contains(action) <==> exists|i: int|
            0 <= i < list.len() && replacement(#[trigger] list[i]).contains(action),
    decreases list.len(),
{
    if list.len() > 0 {
        let rest = list.drop_last();
        let last = list.len() - 1;
        lemma_in_replacements(rest, action);
        let before = replacements(rest);
        let one = replacement(list.last());
        let now = replacements(list);
        assert(now == before + one);
        if now.contains(action) {
            let k = choose|k: int| 0 <= k < now.len() && now[k] == action;
            if k < before.len() {
                assert(before[k] == action);
                let i = choose|i: int|
                    0 <= i < rest.len() && replacement(#[trigger] rest[i]).contains(action);
                assert(list[i] == rest[i]);
            } else {
                assert(one[k - before.len()] == action);
                assert(replacement(list[last]).contains(action));
            }
        }
        if exists|i: int| 0 <= i < list.len() && replacement(#[trigger] list[i]).contains(action) {
            let i = choose|i: int|
                0 <= i < list.len() && replacement(#[trigger] list[i]).contains(action);
            if i < last {
                assert(rest[i] == list[i]);
                let k = choose|k: int| 0 <= k < before.len() && before[k] == action;
                assert(now[k] == action);
            } else {
                let k = choose|k: int| 0 <= k < one.len() && one[k] == action;
                assert(now[before.len() + k] == action);
            }
        }
    }
}

/// What a creation asks for: the new item goes on the bus at its path, and each item that it
/// replaces goes off the bus. Signals tell of all of them, of the items and of the time of the
/// change, and nothing else is asked for.
pub open spec fn asks_for_the_exchange(
    asked: Seq<Request>,
    gone: Seq<Item>,
    path: Seq<char>,
) -> bool {
    &&& forall|p: String| asked.contains(#[trigger] exposing(p)) ==> p@ == path
    &&& exists|p: String| asked.contains(#[trigger] exposing(p)) && p@ == path
    &&& forall|p: String|
        asked.contains(#[trigger] removing(p)) <==> exists|i: int|
            0 <= i < gone.len() && #[trigger] gone[i].path == p
    &&& forall|p: String|
        asked.contains(#[trigger] telling_deleted(p)) <==> exists|i: int|
            0 <= i < gone.len() && #[trigger] gone[i].path == p
    &&& forall|p: String| asked.contains(#[trigger] telling_created(p)) ==> p@ == path
    &&& exists|p: String| asked.contains(#[trigger] telling_created(p)) && p@ == path
    &&& asked.contains(Request::Emit(Signal::ItemsChanged))
    &&& asked.contains(Request::Emit(Signal::ModifiedChanged))
    &&& forall|i: int|
        0 <= i < asked.len() ==> !((#[trigger] asked[i]) is RemoveFile) && !(
        asked[i] is Unregister)
}

/// The request to put an item on the bus.
pub open spec fn exposing(path: String) -> Request {
    Request::ExposeItem(path)
}

/// The request to take an object off the bus.
pub open spec fn removing(path: String) -> Request {
    Request::RemoveObject(path)
}

/// The signal that an item was deleted.
pub open spec fn telling_deleted(path: String) -> Request {
    Request::Emit(Signal::ItemDeleted(path))
}

/// The signal that an item was created.
pub open spec fn telling_created(path: String) -> Request {
    Request::Emit(Signal::ItemCreated(path))
}

proof fn lemma_in_creation(list: Seq<String>, item: Item, action: Action)
    ensures
        creation(list, item).contains(action) <==> (action == Action::Ask(
            Request::OpenEmitter(Place::Collection),
        ) || replacements(list).contains(action) || publication(item).contains(action)),
{
    let open = seq![
        Action::Ask(Request::OpenEmitter(Place::Collection)),
    ];
    let middle = replacements(list);
    let end = publication(item);
    let all = creation(list, item);
    assert(all == open + middle + end);
    if action == open[0] {
        assert(all[0] == action);
    }
    if middle.contains(action) {
        let k = choose|k: int| 0 <= k < middle.len() && middle[k] == action;
        assert(all[1 + k] == action);
    }
    if end.contains(action) {
        let k = choose|k: int| 0 <= k < end.len() && end[k] == action;
        assert(all[1 + middle.len() + k] == action);
    }
    if all.contains(action) {
        let k = choose|k: int| 0 <= k < all.len() && all[k] == action;
        if k == 0 {
        } else if k < 1 + middle.len() {
            assert(middle[k - 1] == action);
        } else {
            assert(end[k - 1 - middle.len()] == action);
        }
    }
}

proof fn lemma_exchange(gone: Seq<Item>, item: Item)
    ensures
        asks_for_the_exchange(requests(creation(paths(gone), item)), gone, item.path@),
{
    let list = paths(gone);
    let script = creation(list, item);
    let asked = requests(script);
    let end = publication(item);
    assert forall|request: Request| #[trigger] asked.contains(request) <==> script.contains(
        Action::Ask(request),
    ) by {
        a_request_is_an_action(script, request);
    }
    assert forall|action: Action| #[trigger] script.contains(action) <==> (action == Action::Ask(
        Request::OpenEmitter(Place::Collection),
    ) || replacements(list).contains(action) || end.contains(action)) by {
        lemma_in_creation(list, item, action);
    }
    assert forall|action: Action| #[trigger] replacements(list).contains(action) <==> exists|i: int|
        0 <= i < list.len() && replacement(#[trigger] list[i]).contains(action) by {
        lemma_in_replacements(list, action);
    }
    assert forall|i: int, action: Action|
        0 <= i < list.len() && #[trigger] replacement(#[trigger] list[i]).contains(action) implies (
    action == Action::Forget(list[i]) || action == Action::Ask(removing(list[i])) || action
        == Action::Ask(telling_deleted(list[i]))) by {
        let r = replacement(list[i]);
        let k = choose|k: int| 0 <= k < r.len() && r[k] == action;
        assert(r[k] == r[0] || r[k] == r[1] || r[k] == r[2]);
    }
    assert forall|action: Action| #[trigger] end.contains(action) implies (action
        == Action::Publish(item) || action == Action::Ask(exposing(item.path)) || action
        == Action::Touch || action == Action::Ask(
        Request::OpenEmitter(Place::Collection),
    ) || action == Action::Ask(Request::Emit(Signal::ModifiedChanged)) || action == Action::Ask(
        telling_created(item.path),
    ) || action == Action::Ask(Request::Emit(Signal::ItemsChanged))) by {
        let k = choose|k: int| 0 <= k < end.len() && end[k] == action;
        assert(end[k] == end[0] || end[k] == end[1] || end[k] == end[2] || end[k] == end[3]
            || end[k] == end[4] || end[k] == end[5] || end[k] == end[6]);
    }
    assert(end[1] == Action::Ask(exposing(item.path)));
    assert(end[4] == Action::Ask(Request::Emit(Signal::ModifiedChanged)));
    assert(end[5] == Action::Ask(telling_created(item.path)));
    assert(end[6] == Action::Ask(Request::Emit(Signal::ItemsChanged)));
    assert(script.contains(Action::Ask(exposing(item.path))));
    assert(asked.contains(exposing(item.path)));
    assert(script.contains(Action::Ask(telling_created(item.path))));
    assert(asked.contains(telling_created(item.path)));
    assert(script.contains(Action::Ask(Request::Emit(Signal::ModifiedChanged))));
    assert(asked.contains(Request::Emit(Signal::ModifiedChanged)));
    assert(script.contains(Action::Ask(Request::Emit(Signal::ItemsChanged))));
    assert(asked.contains(Request::Emit(Signal::ItemsChanged)));
    assert forall|p: String| asked.contains(#[trigger] exposing(p)) implies p@ == item.path@ by {
        assert(script.contains(Action::Ask(exposing(p))));
    }
    assert forall|p: String| asked.contains(#[trigger] telling_created(p)) implies p@
        == item.path@ by {
        assert(script.contains(Action::Ask(telling_created(p))));
    }
    assert forall|p: String|
        asked.contains(#[trigger] removing(p)) <==> exists|i: int|
            0 <= i < gone.len() && #[trigger] gone[i].path == p by {
        if asked.contains(removing(p)) {
            assert(script.contains(Action::Ask(removing(p))));
            assert(replacements(list).contains(Action::Ask(removing(p))));
            let i = choose|i: int|
                0 <= i < list.len() && replacement(#[trigger] list[i]).contains(
                    Action::Ask(removing(p)),
                );
            assert(list[i] == gone[i].path);
            assert(gone[i].path == p);
        }
        if exists|i: int| 0 <= i < gone.len() && #[trigger] gone[i].path == p {
            let i = choose|i: int| 0 <= i < gone.len() && #[trigger] gone[i].path == p;
            assert(list[i] == p);
            assert(replacement(list[i])[1] == Action::Ask(removing(p)));
            assert(replacement(list[i]).contains(Action::Ask(removing(p))));
            assert(replacements(list).contains(Action::Ask(removing(p))));
            assert(script.contains(Action::Ask(removing(p))));
        }
    }
    assert forall|p: String|
        asked.contains(#[trigger] telling_deleted(p)) <==> exists|i: int|
            0 <= i < gone.len() && #[trigger] gone[i].path == p by {
        if asked.contains(telling_deleted(p)) {
            assert(script.contains(Action::Ask(telling_deleted(p))));
            assert(replacements(list).contains(Action::Ask(telling_deleted(p))));
            let i = choose|i: int|
                0 <= i < list.len() && replacement(#[trigger] list[i]).contains(
                    Action::Ask(telling_deleted(p)),
                );
            assert(list[i] == gone[i].path);
            assert(gone[i].path == p);
        }
        if exists|i: int| 0 <= i < gone.len() && #[trigger] gone[i].path == p {
            let i = choose|i: int| 0 <= i < gone.len() && #[trigger] gone[i].path == p;
            assert(list[i] == p);
            assert(replacement(list[i])[2] == Action::Ask(telling_deleted(p)));
            assert(replacement(list[i]).contains(Action::Ask(telling_deleted(p))));
            assert(replacements(list).contains(Action::Ask(telling_deleted(p))));
            assert(script.contains(Action::Ask(telling_deleted(p))));
        }
    }
    assert forall|i: int| 0 <= i < asked.len() implies !((#[trigger] asked[i]) is RemoveFile) && !(
    asked[i] is Unregister) by {
        assert(asked.contains(asked[i]));
        assert(script.contains(Action::Ask(asked[i])));
        if replacements(list).contains(Action::Ask(asked[i])) {
            let j = choose|j: int|
                0 <= j < list.len() && replacement(#[trigger] list[j]).contains(
                    Action::Ask(asked[i]),
                );
            assert(replacement(list[j]).contains(Action::Ask(asked[i])));
        }
    }
}

/// What a replaced item goes through, step by step: it leaves the list, then the bus, and then it
/// is told of.
pub open spec fn steps_out(gone: Seq<Item>) -> Seq<Action>
    decreases gone.len(),
{
    if gone.len() == 0 {
        seq![]
    } else {
        steps_out(gone.drop_last()) + seq![
            Action::Forget(gone.last().path),
            Action::Ask(removing(gone.last().path)),
            Action::Ask(telling_deleted(gone.last().path)),
        ]
    }
}

/// What a new item goes through, step by step: it joins the list, then the bus, the time is set,
/// and then all is told of.
pub open spec fn steps_in(item: Item) -> Seq<Action> {
    seq![
        Action::Publish(item),
        Action::Ask(exposing(item.path)),
        Action::Touch,
        Action::Ask(Request::OpenEmitter(Place::Collection)),
        Action::Ask(Request::Emit(Signal::ModifiedChanged)),
        Action::Ask(telling_created(item.path)),
        Action::Ask(Request::Emit(Signal::ItemsChanged)),
    ]
}

proof fn lemma_steps(gone: Seq<Item>, item: Item)
    ensures
        creation(paths(gone), item) == seq![Action::Ask(Request::OpenEmitter(Place::Collection))]
            + steps_out(gone) + steps_in(item),
{
    lemma_steps_out(gone);
    assert(steps_in(item) =~= publication(item));
}

proof fn lemma_steps_out(gone: Seq<Item>)
    ensures
        replacements(paths(gone)) == steps_out(gone),
    decreases gone.len(),
{
    if gone.len() > 0 {
        lemma_steps_out(gone.drop_last());
        assert(paths(gone).drop_last() =~= paths(gone.drop_last()));
        assert(paths(gone).last() == gone.last().path);
        assert(replacement(gone.last().path) =~= seq![
            Action::Forget(gone.last().path),
            Action::Ask(removing(gone.last().path)),
            Action::Ask(telling_deleted(gone.last().path)),
        ]);
    } else {
        assert(replacements(paths(gone)) =~= steps_out(gone));
    }
}

/// The new item of a collection: what was stored, at the next free path.
pub open spec fn is_the_new_item<L, U>(
    c: CollectionView<L, U>,
    stored: UnlockedItem,
    item: Item,
    path: Seq<char>,
) -> bool {
    &&& item.inner == FileItem::Unlocked(stored)
    &&& item.collection_path@ == c.path
    &&& item.path@ == path
    &&& path.len() > c.path.len() + 1 && path.take(c.path.len() as int) == c.path && path[
    c.path.len() as int] == '/'
    &&& writes(path.skip(c.path.len() as int + 1), c.item_index as nat)
}

/// Once the keyring was written, the new item joins the collection at its end, at a path with the
/// next number, and that number is used up. The items that it replaces, where that is wanted, are
/// those with its attributes; they leave, and all others stay in their order. The bus is asked for
/// just that, step by step.
pub proof fn a_written_item_joins_the_collection<
    C: KeyringCipher,
    L: LockedKeyring,
    U: UnlockedKeyring<L>,
>(
    collection: &mut Collection<L, U>,
    cipher: &C,
    stored: Stored,
    outcome: Result<(String, Vec<Action>), ServiceError>,
    now: Timestamp,
)
    requires
        old(collection)@.wf(),
        old(collection)@.item_index < u32::MAX,
        !old(collection)@.is_locked(),
        all_unlocked(old(collection)@.items),
        distinct_item_paths(old(collection)@.items),
        stored.item is Ok,
        call_ensures(
            Collection::<L, U>::item_stored::<C>,
            (collection, cipher, stored, Ok(())),
            outcome,
        ),
        outcome matches Ok((_, script)) ==> forall|i: int|
            0 <= i < script@.len() ==> !((#[trigger] script@[i]) is Fail),
    ensures
        outcome is Ok,
        ({
            let before = old(collection)@;
            let (path, script) = outcome->Ok_0;
            let after = applied(final(collection)@, script@, now);
            let flags = matching_items(before.items, stored.attributes@);
            &&& after.item_index == before.item_index + 1 && after.modified == now
            &&& after.label == before.label && after.created == before.created && after.alias
                == before.alias && after.path == before.path
            &&& exists|kept: Seq<Item>, gone: Seq<Item>, item: Item|
                #![trigger kept.push(item), asks_for_the_exchange(requests(script@), gone, path@)]
                after.items == kept.push(item) && is_the_new_item(
                    before,
                    stored.item->Ok_0@,
                    item,
                    path@,
                ) && asks_for_the_exchange(requests(script@), gone, path@) && script@ == seq![
                    Action::Ask(Request::OpenEmitter(Place::Collection)),
                ] + steps_out(gone) + steps_in(item) && (if stored.replace {
                    picked(before.items, flags, false, kept) && picked(
                        before.items,
                        flags,
                        true,
                        gone,
                    )
                } else {
                    kept == before.items && gone.len() == 0
                })
        }),
{
    let before = old(collection)@;
    let (path, script) = outcome->Ok_0;
    let inner = FileItem::Unlocked(stored.item->Ok_0@);
    let state = final(collection)@;
    let numbered = CollectionView { item_index: (before.item_index + 1) as u32, ..before };
    assert(creates(
        before,
        cipher,
        inner,
        &stored.attributes,
        stored.replace,
        state,
        path,
        script@,
    ));
    let item = choose|item: Item| #[trigger]
        is_new_item(before, inner, item) && path@ == item.path@ && if stored.replace {
            exists|found: Result<Seq<bool>, ServiceError>| #[trigger]
                searches(numbered, cipher, &stored.attributes, state, found) && match found {
                    Ok(hits) => script@ == creation(
                        paths(selected(before.items, hits, true)),
                        item,
                    ),
                    Err(e) => script@ == failed_creation(e),
                }
        } else {
            state == numbered && script@ == creation(seq![], item)
        };
    let number = decimal(before.item_index as nat);
    a_number_reads_as_it_was_written(before.item_index as nat);
    assert(path@.take(before.path.len() as int) =~= before.path);
    assert(path@.skip(before.path.len() as int + 1) =~= number);
    assert(is_the_new_item(before, stored.item->Ok_0@, item, path@));
    if stored.replace {
        let found = choose|found: Result<Seq<bool>, ServiceError>| #[trigger]
            searches(numbered, cipher, &stored.attributes, state, found) && match found {
                Ok(hits) => script@ == creation(paths(selected(before.items, hits, true)), item),
                Err(e) => script@ == failed_creation(e),
            };
        if let Err(e) = found {
            assert(script@[1] is Fail);
        }
        let hits = found->Ok_0;
        lemma_hits(numbered, cipher, &stored.attributes, state, hits);
        let gone = selected(before.items, hits, true);
        creation_does_what_it_says(state, paths(gone), item, now);
        lemma_replaced(before.items, hits);
        a_selection_picks(before.items, hits, true);
        lemma_exchange(gone, item);
        lemma_steps(gone, item);
        let kept = without_all(before.items, paths(gone));
        assert(applied(state, script@, now).items == kept.push(item));
        assert(asks_for_the_exchange(requests(script@), gone, path@));
    } else {
        let gone = Seq::<Item>::empty();
        assert(paths(gone) =~= seq![]);
        creation_does_what_it_says(state, seq![], item, now);
        lemma_exchange(gone, item);
        lemma_steps(gone, item);
        assert(applied(state, script@, now).items == before.items.push(item));
        assert(asks_for_the_exchange(requests(script@), gone, path@));
    }
}

/// An item that could not be stored, or not be written, is not created. The collection stays as it
/// is, and the reason is told.
pub proof fn an_item_that_was_not_written_is_not_created<
    C: KeyringCipher,
    L: LockedKeyring,
    U: UnlockedKeyring<L>,
>(
    collection: &mut Collection<L, U>,
    cipher: &C,
    stored: Stored,
    written: Result<(), FileError>,
    outcome: Result<(String, Vec<Action>), ServiceError>,
)
    requires
        call_ensures(
            Collection::<L, U>::item_stored::<C>,
            (collection, cipher, stored, written),
            outcome,
        ),
    ensures
        stored.item matches Err(e) ==> final(collection)@ == old(collection)@ && tells_failure(
            outcome,
            "Failed to create a new item "@,
            e,
            "."@,
        ),
        stored.item is Ok ==> (written matches Err(e) ==> final(collection)@ == old(collection)@
            && tells_failure(outcome, "Failed to create a new item "@, e, "."@)),
{
}

} // verus!

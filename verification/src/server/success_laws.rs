//! What succeeds in a collection where nothing outside fails.
use vstd::prelude::*;

use crate::attributes::Attributes;
use crate::crypto::error::Error as CryptoError;
use crate::file::api::created;
use crate::file::api::selected;
use crate::file::api::Item as FileItem;
use crate::file::api::KeyringCipher;
use crate::file::api::UnlockedItemView;
use crate::file::call_laws::any_key;
use crate::file::cipher::faithful;
use crate::file::cipher::indexing;
use crate::file::keyring_laws::any_keyring_holds;
use crate::file::keyring_laws::lemma_any_answer;
use crate::file::loader::AnyLockedKeyring;
use crate::file::loader::AnyUnlockedKeyring;
use crate::file::storage::in_memory;
use crate::file::success_laws::always_seals;
use crate::file::success_laws::lemma_created;
use crate::file::traits::key_answer;
use crate::file::traits::LockedKeyring;
use crate::file::traits::UnlockedKeyring;
use crate::secret::Key;
use crate::server::collection::paths;
use crate::server::collection::searches;
use crate::server::collection::unlocked_key;
use crate::server::collection::Collection;
use crate::server::collection::CollectionView;
use crate::server::collection::KeyringState;
use crate::server::creation::creation;
use crate::server::creation::failed_creation;
use crate::server::creation::is_new_item;
use crate::server::creation::keyring_stores;
use crate::server::creation::publication;
use crate::server::creation::replacement;
use crate::server::creation::replacements;
use crate::server::creation::StoreRequest;
use crate::server::creation::Stored;
use crate::server::error::ServiceError;
use crate::server::item::Item;
use crate::server::script::Action;
use crate::server::unlocking_laws::lemma_key_at_hand;

verus! {

proof fn lemma_found<C: KeyringCipher, P, N>(
    before: CollectionView<AnyLockedKeyring<P, N>, AnyUnlockedKeyring<P, N>>,
    cipher: &C,
    keyring: AnyUnlockedKeyring<P, N>,
    attributes: &Attributes,
    after: CollectionView<AnyLockedKeyring<P, N>, AnyUnlockedKeyring<P, N>>,
    outcome: Result<Seq<bool>, ServiceError>,
)
    requires
        before.keyring == Some(
            KeyringState::<AnyLockedKeyring<P, N>, AnyUnlockedKeyring<P, N>>::Unlocked(keyring),
        ),
        any_key(keyring) is Some,
        searches(before, cipher, attributes, after, outcome),
    ensures
        outcome is Ok,
        after == before,
{
    let (told, key) = choose|told: AnyUnlockedKeyring<P, N>, key: Result<Key, CryptoError>|
     #[trigger]
        unlocked_key(keyring, cipher, told, key) && after == (CollectionView {
            keyring: Some(
                KeyringState::<AnyLockedKeyring<P, N>, AnyUnlockedKeyring<P, N>>::Unlocked(told),
            ),
            ..before
        }) && match key {
            Ok(_) => outcome is Ok,
            Err(_) => true,
        };
    lemma_key_at_hand(keyring, cipher, told, key);
}

/// A search succeeds where the keyring has its key at hand, and changes nothing at all then.
pub proof fn a_search_with_the_key_succeeds<C: KeyringCipher, P, N>(
    collection: &mut Collection<AnyLockedKeyring<P, N>, AnyUnlockedKeyring<P, N>>,
    cipher: &C,
    keyring: AnyUnlockedKeyring<P, N>,
    attributes: &Attributes,
    list: Result<Vec<String>, ServiceError>,
    items: Result<Vec<Item>, ServiceError>,
)
    requires
        old(collection)@.keyring == Some(
            KeyringState::<AnyLockedKeyring<P, N>, AnyUnlockedKeyring<P, N>>::Unlocked(keyring),
        ),
        any_key(keyring) is Some,
    ensures
        call_ensures(
            Collection::<AnyLockedKeyring<P, N>, AnyUnlockedKeyring<P, N>>::search_items::<C>,
            (collection, cipher, attributes),
            list,
        ) ==> list is Ok && final(collection)@ == old(collection)@,
        call_ensures(
            Collection::<
                AnyLockedKeyring<P, N>,
                AnyUnlockedKeyring<P, N>,
            >::search_inner_items::<C>,
            (collection, cipher, attributes),
            items,
        ) ==> items is Ok && final(collection)@ == old(collection)@,
{
    assert forall|outcome: Result<Seq<bool>, ServiceError>| #[trigger]
        searches(
            old(collection)@,
            cipher,
            attributes,
            final(collection)@,
            outcome,
        ) implies outcome is Ok && final(collection)@ == old(collection)@ by {
        lemma_found(
            old(collection)@,
            cipher,
            keyring,
            attributes,
            final(collection)@,
            outcome,
        );
    }
}

/// A collection stores every item that can be sealed.
pub proof fn what_can_be_sealed_is_stored<C: KeyringCipher, P, N>(
    collection: &mut Collection<AnyLockedKeyring<P, N>, AnyUnlockedKeyring<P, N>>,
    cipher: &C,
    keyring: AnyUnlockedKeyring<P, N>,
    key: Key,
    contents: Seq<UnlockedItemView>,
    request: StoreRequest,
    stored: Stored,
)
    requires
        faithful(cipher),
        indexing(cipher),
        always_seals(cipher),
        old(collection)@.keyring == Some(
            KeyringState::<AnyLockedKeyring<P, N>, AnyUnlockedKeyring<P, N>>::Unlocked(keyring),
        ),
        any_keyring_holds(cipher, keyring, key, contents),
        call_ensures(
            Collection::<AnyLockedKeyring<P, N>, AnyUnlockedKeyring<P, N>>::store_item::<C>,
            (collection, cipher, request),
            stored,
        ),
    ensures
        stored.item is Ok,
{
    let new = UnlockedItemView {
        label: request.label@,
        attributes: request.attributes@,
        secret: request.secret@,
    };
    let told = choose|told: AnyUnlockedKeyring<P, N>| #[trigger]
        keyring_stores(keyring, cipher, request, told, in_memory(stored.item));
    let answer = choose|answer: Result<Key, CryptoError>| #[trigger]
        key_answer(keyring.key_source(), cipher, &keyring.contents(), answer) && (
        answer matches Ok(held) ==> created(
            cipher,
            keyring.contents().items@,
            new,
            &request.attributes,
            &held,
            request.replace,
            told.contents().items@,
            in_memory(stored.item),
        ));
    lemma_any_answer(cipher, keyring, key, contents, answer);
    lemma_created(
        cipher,
        keyring.contents().items@,
        key,
        &answer->Ok_0,
        contents,
        new,
        &request.attributes,
        request.replace,
        told.contents().items@,
        in_memory(stored.item),
    );
}

proof fn lemma_replacements_go_through(list: Seq<String>)
    ensures
        forall|i: int|
            0 <= i < replacements(list).len() ==> !((#[trigger] replacements(list)[i]) is Fail),
    decreases list.len(),
{
    if list.len() > 0 {
        lemma_replacements_go_through(list.drop_last());
        let before = replacements(list.drop_last());
        let one = replacement(list.last());
        let all = replacements(list);
        assert(all == before + one);
        assert forall|i: int| 0 <= i < all.len() implies !((#[trigger] all[i]) is Fail) by {
            if i < before.len() {
                assert(all[i] == before[i]);
            } else {
                assert(all[i] == one[i - before.len()]);
            }
        }
    }
}

/// A written item joins the collection without a failure of its own where the keyring has its key
/// at hand.
pub proof fn a_written_item_goes_through<C: KeyringCipher, P, N>(
    collection: &mut Collection<AnyLockedKeyring<P, N>, AnyUnlockedKeyring<P, N>>,
    cipher: &C,
    keyring: AnyUnlockedKeyring<P, N>,
    stored: Stored,
    outcome: Result<(String, Vec<Action>), ServiceError>,
)
    requires
        old(collection)@.wf(),
        old(collection)@.item_index < u32::MAX,
        old(collection)@.keyring == Some(
            KeyringState::<AnyLockedKeyring<P, N>, AnyUnlockedKeyring<P, N>>::Unlocked(keyring),
        ),
        any_key(keyring) is Some,
        stored.item is Ok,
        call_ensures(
            Collection::<AnyLockedKeyring<P, N>, AnyUnlockedKeyring<P, N>>::item_stored::<C>,
            (collection, cipher, stored, Ok(())),
            outcome,
        ),
    ensures
        outcome matches Ok((_, script)) && forall|i: int|
            0 <= i < script@.len() ==> !((#[trigger] script@[i]) is Fail),
{
    let before = old(collection)@;
    let state = final(collection)@;
    let inner = FileItem::Unlocked(stored.item->Ok_0@);
    let (path, script) = outcome->Ok_0;
    let numbered = CollectionView { item_index: (before.item_index + 1) as u32, ..before };
    let item = choose|item: Item| #[trigger]
        is_new_item(before, inner, item) && path@ == item.path@ && if stored.replace {
            exists|found: Result<Seq<bool>, ServiceError>| #[trigger]
                searches(numbered, cipher, &stored.attributes, state, found) && match found {
                    Ok(hits) => script@ == creation(
                        paths(selected(before.items, hits, true)),
                        item,
                    ),
                    Err(e) => script@ == failed_creation(e),
                }
        } else {
            state == numbered && script@ == creation(seq![], item)
        };
    if stored.replace {
        let found = choose|found: Result<Seq<bool>, ServiceError>| #[trigger]
            searches(numbered, cipher, &stored.attributes, state, found) && match found {
                Ok(hits) => script@ == creation(paths(selected(before.items, hits, true)), item),
                Err(e) => script@ == failed_creation(e),
            };
        lemma_found(numbered, cipher, keyring, &stored.attributes, state, found);
        lemma_goes_through(paths(selected(before.items, found->Ok_0, true)), item);
    } else {
        lemma_goes_through(seq![], item);
    }
}

proof fn lemma_goes_through(list: Seq<String>, item: Item)
    ensures
        forall|i: int|
            0 <= i < creation(list, item).len() ==> !((#[trigger] creation(list, item)[i]) is Fail),
{
    lemma_replacements_go_through(list);
    let all = creation(list, item);
    let middle = replacements(list);
    let end = publication(item);
    assert forall|i: int| 0 <= i < all.len() implies !((#[trigger] all[i]) is Fail) by {
        if i == 0 {
        } else if i < 1 + middle.len() {
            assert(all[i] == middle[i - 1]);
        } else {
            assert(all[i] == end[i - 1 - middle.len()]);
        }
    }
}

} // verus!

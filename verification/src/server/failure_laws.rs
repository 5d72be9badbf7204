//! What is left of a collection when something fails.
use vstd::prelude::*;

use crate::attributes::Attributes;
use crate::crypto::error::Error as CryptoError;
use crate::file::api::decrypts;
use crate::file::api::encrypts;
use crate::file::api::item_relocked;
use crate::file::api::EncryptedItem;
use crate::file::api::Item as FileItem;
use crate::file::api::ItemView as FileItemView;
use crate::file::api::KeyringCipher;
use crate::file::api::LockedItem;
use crate::file::api::UnlockedItem;
use crate::file::api::UnlockedItemView;
use crate::file::call_laws::any_key;
use crate::file::call_laws::any_keyring_has_no_key;
use crate::file::cipher::faithful;
use crate::file::cipher::same_key;
use crate::file::error::Error as FileError;
use crate::file::loader::AnyLockedKeyring;
use crate::file::loader::AnyUnlockedKeyring;
use crate::file::storage::in_memory;
use crate::file::storage::Unsaved;
use crate::file::traits::BeginUnlockResult;
use crate::file::traits::LockedKeyring;
use crate::file::traits::UnlockedKeyring;
use crate::secret::Key;
use crate::secret::Secret;
use crate::server::collection::is_key_failure;
use crate::server::collection::searches;
use crate::server::collection::unlocked_key;
use crate::server::collection::Collection;
use crate::server::collection::CollectionView;
use crate::server::collection::KeyringState;
use crate::server::collection_laws::tells_failure;
use crate::server::creation::keyring_deletes;
use crate::server::creation::keyring_stores;
use crate::server::creation::StoreRequest;
use crate::server::creation::Stored;
use crate::server::error::is_failure;
use crate::server::error::is_file_failure;
use crate::server::error::ServiceError;
use crate::server::item::Item;
use crate::server::script::Signal;
use crate::server::unlocking::installs;
use crate::server::unlocking::is_done;
use crate::server::unlocking::is_relock_key_failure;
use crate::server::unlocking::locks;
use crate::server::unlocking::relocked;
use crate::server::unlocking::relocked_until;
use crate::server::unlocking::relocks;
use crate::server::unlocking::Begun;
use crate::server::unlocking::Locking;
use crate::server::unlocking_laws::but_for_items_and_keyring;
use crate::server::unlocking_laws::can_be_read;
use crate::server::unlocking_laws::lemma_key_at_hand;
use crate::server::unlocking_laws::lemma_reads;

verus! {

/// The error has the words of an error of the cryptography.
pub open spec fn tells_crypto_failure<T>(
    outcome: Result<T, ServiceError>,
    before: Seq<char>,
    e: CryptoError,
) -> bool {
    outcome matches Err(ServiceError::Failed(text)) && exists|shown: Seq<char>| #[trigger]
        e.shown(shown) && text@ == before + shown
}

/// The items before the one at this place are in the clear, and that one and all behind it are as
/// they were.
pub open spec fn opened_up_to(
    before: Seq<Item>,
    after: Seq<Item>,
    contents: Seq<UnlockedItemView>,
) -> bool {
    &&& after.len() == before.len() && contents.len() < before.len()
    &&& forall|i: int|
        0 <= i < contents.len() ==> (#[trigger] after[i]).inner@ == FileItemView::Unlocked(
            contents[i],
        ) && after[i].path == before[i].path
    &&& forall|i: int| contents.len() <= i < after.len() ==> #[trigger] after[i] == before[i]
}

/// The first items can be read with the key, and the next one does not open.
pub open spec fn breaks_off<C: KeyringCipher>(
    cipher: &C,
    items: Seq<Item>,
    key: Key,
    contents: Seq<UnlockedItemView>,
    e: FileError,
) -> bool {
    &&& contents.len() < items.len()
    &&& forall|i: int|
        0 <= i < contents.len() ==> can_be_read(cipher, #[trigger] items[i], key, contents[i])
    &&& items[contents.len() as int].inner matches FileItem::Locked(stored) && forall|
        k: Key,
        opened: Result<UnlockedItem, FileError>,
    |
        same_key(key, k) && #[trigger] call_ensures(
            C::decrypt,
            (cipher, &stored.inner, &k),
            opened,
        ) ==> opened == Err::<UnlockedItem, FileError>(e)
}

proof fn lemma_stuck<C: KeyringCipher>(
    cipher: &C,
    item: Item,
    key: Key,
    held: &Key,
    e: FileError,
    outcome: Result<FileItem, FileError>,
)
    requires
        item.inner matches FileItem::Locked(stored) && forall|
            k: Key,
            opened: Result<UnlockedItem, FileError>,
        |
            same_key(key, k) && #[trigger] call_ensures(
                C::decrypt,
                (cipher, &stored.inner, &k),
                opened,
            ) ==> opened == Err::<UnlockedItem, FileError>(e),
        same_key(key, *held),
        item_relocked(cipher, item.inner, held, false, outcome),
    ensures
        outcome == Err::<FileItem, FileError>(e),
{
    let stored = item.inner->Locked_0;
    let opened = choose|opened: Result<UnlockedItem, FileError>| #[trigger]
        decrypts(cipher, &stored.inner, held, opened) && outcome == (match opened {
            Ok(plain) => Ok::<FileItem, FileError>(FileItem::Unlocked(plain)),
            Err(f) => Err(f),
        });
    assert(call_ensures(C::decrypt, (cipher, &stored.inner, held), opened));
}

proof fn lemma_broken_off<C: KeyringCipher, P, N>(
    before: CollectionView<AnyLockedKeyring<P, N>, AnyUnlockedKeyring<P, N>>,
    cipher: &C,
    key: Key,
    contents: Seq<UnlockedItemView>,
    e: FileError,
    keyring: AnyUnlockedKeyring<P, N>,
    after: CollectionView<AnyLockedKeyring<P, N>, AnyUnlockedKeyring<P, N>>,
    outcome: Result<(), ServiceError>,
)
    requires
        faithful(cipher),
        any_key(keyring) matches Some(held) && same_key(key, held),
        breaks_off(cipher, before.items, key, contents, e),
        installs(before, cipher, keyring, after, outcome),
    ensures
        tells_failure(outcome, ""@, e, ""@),
        after.keyring == before.keyring,
        opened_up_to(before.items, after.items, contents),
        but_for_items_and_keyring(before, after),
{
    let told = choose|told: AnyUnlockedKeyring<P, N>| #[trigger]
        relocks(before.items, keyring, cipher, false, after.items, told, outcome);
    let answer = choose|answer: Result<Key, CryptoError>| #[trigger]
        unlocked_key(keyring, cipher, told, answer) && match answer {
            Ok(k) => match outcome {
                Ok(_) => relocked_until(
                    cipher,
                    before.items,
                    &k,
                    false,
                    before.items.len() as int,
                    after.items,
                ),
                Err(error) => exists|n: int, f: FileError|
                    n < before.items.len() && #[trigger] relocked_until(
                        cipher,
                        before.items,
                        &k,
                        false,
                        n,
                        after.items,
                    ) && #[trigger] item_relocked(
                        cipher,
                        before.items[n].inner,
                        &k,
                        false,
                        Err(f),
                    ) && is_file_failure(error, ""@, f, ""@),
            },
            Err(_) => true,
        };
    lemma_key_at_hand(keyring, cipher, told, answer);
    let k = answer->Ok_0;
    let at = contents.len() as int;
    if outcome is Ok {
        assert(relocked(cipher, before.items[at], &k, false, after.items[at]));
        lemma_stuck(cipher, before.items[at], key, &k, e, Ok(after.items[at].inner));
    } else {
        let error = outcome->Err_0;
        let (n, f) = choose|n: int, f: FileError|
            n < before.items.len() && #[trigger] relocked_until(
                cipher,
                before.items,
                &k,
                false,
                n,
                after.items,
            ) && #[trigger] item_relocked(cipher, before.items[n].inner, &k, false, Err(f))
                && is_file_failure(error, ""@, f, ""@);
        if n < at {
            assert(can_be_read(cipher, before.items[n], key, contents[n]));
            lemma_reads(cipher, before.items[n], key, contents[n], &k, Err(f));
        }
        if at < n {
            assert(relocked(cipher, before.items[at], &k, false, after.items[at]));
            lemma_stuck(cipher, before.items[at], key, &k, e, Ok(after.items[at].inner));
        }
        lemma_stuck(cipher, before.items[at], key, &k, e, Err(f));
        assert forall|i: int| 0 <= i < at implies (#[trigger] after.items[i]).inner@
            == FileItemView::Unlocked(contents[i]) && after.items[i].path
            == before.items[i].path by {
            assert(relocked(cipher, before.items[i], &k, false, after.items[i]));
            assert(can_be_read(cipher, before.items[i], key, contents[i]));
            lemma_reads(cipher, before.items[i], key, contents[i], &k, Ok(after.items[i].inner));
        }
    }
}

/// An item that does not open ends the unlocking of a collection, and the reason is told. The items
/// before it are in the clear by then, and the keyring is not taken into use.
pub proof fn an_unlocking_ends_at_what_does_not_open<C: KeyringCipher, P, N, T>(
    collection: &mut Collection<AnyLockedKeyring<P, N>, AnyUnlockedKeyring<P, N>>,
    cipher: &C,
    keyring: AnyUnlockedKeyring<P, N>,
    key: Key,
    contents: Seq<UnlockedItemView>,
    e: FileError,
    then: T,
    begun: Result<Begun<T>, ServiceError>,
    outcome: Result<Vec<Signal>, ServiceError>,
)
    requires
        faithful(cipher),
        any_key(keyring) matches Some(held) && same_key(key, held),
        breaks_off(cipher, old(collection)@.items, key, contents, e),
    ensures
        call_ensures(
            Collection::<AnyLockedKeyring<P, N>, AnyUnlockedKeyring<P, N>>::unlocked_with_secret::<
                C,
            >,
            (collection, cipher, Ok(keyring)),
            outcome,
        ) ==> tells_failure(outcome, ""@, e, ""@) && final(collection)@.keyring == old(
            collection)@.keyring && opened_up_to(
            old(collection)@.items,
            final(collection)@.items,
            contents,
        ) && but_for_items_and_keyring(old(collection)@, final(collection)@),
        call_ensures(
            Collection::<
                AnyLockedKeyring<P, N>,
                AnyUnlockedKeyring<P, N>,
            >::unlocked_without_secret::<C>,
            (collection, cipher, Ok(BeginUnlockResult::Unlocked(keyring))),
            outcome,
        ) ==> tells_failure(outcome, ""@, e, ""@) && final(collection)@.keyring == old(
            collection)@.keyring && opened_up_to(
            old(collection)@.items,
            final(collection)@.items,
            contents,
        ) && but_for_items_and_keyring(old(collection)@, final(collection)@),
        call_ensures(
            Collection::<AnyLockedKeyring<P, N>, AnyUnlockedKeyring<P, N>>::unlock_begun::<C, T>,
            (collection, cipher, Ok(BeginUnlockResult::Unlocked(keyring)), then),
            begun,
        ) ==> tells_failure(begun, ""@, e, ""@) && final(collection)@.keyring == old(
            collection)@.keyring && opened_up_to(
            old(collection)@.items,
            final(collection)@.items,
            contents,
        ) && but_for_items_and_keyring(old(collection)@, final(collection)@),
{
    assert forall|installed: Result<(), ServiceError>| #[trigger]
        installs(old(collection)@, cipher, keyring, final(collection)@, installed) implies
        tells_failure(installed, ""@, e, ""@) && final(collection)@.keyring == old(
        collection)@.keyring && opened_up_to(
        old(collection)@.items,
        final(collection)@.items,
        contents,
    ) && but_for_items_and_keyring(old(collection)@, final(collection)@) by {
        lemma_broken_off(
            old(collection)@,
            cipher,
            key,
            contents,
            e,
            keyring,
            final(collection)@,
            installed,
        );
    }
}

/// A collection with an item that cannot be sealed is not locked, and neither is one whose keyring
/// has no key. The reason is told, and the keyring is gone.
pub proof fn a_collection_that_cannot_be_sealed_is_not_locked<C: KeyringCipher, P, N>(
    collection: &mut Collection<AnyLockedKeyring<P, N>, AnyUnlockedKeyring<P, N>>,
    cipher: &C,
    keyring: AnyUnlockedKeyring<P, N>,
    i: int,
    missing: CryptoError,
    secret: Option<Secret>,
    outcome: Result<Locking<AnyLockedKeyring<P, N>>, ServiceError>,
)
    requires
        old(collection)@.keyring == Some(
            KeyringState::<AnyLockedKeyring<P, N>, AnyUnlockedKeyring<P, N>>::Unlocked(keyring),
        ),
        0 <= i < old(collection)@.items.len(),
        call_ensures(
            Collection::<AnyLockedKeyring<P, N>, AnyUnlockedKeyring<P, N>>::set_locked::<C>,
            (collection, cipher, true, secret),
            outcome,
        ),
    ensures
        (old(collection)@.items[i].inner matches FileItem::Unlocked(plain) && forall|
            key: Key,
            sealed: Result<EncryptedItem, FileError>,
        | #[trigger]
            call_ensures(C::encrypt, (cipher, &plain, &key), sealed) ==> sealed is Err)
            ==> outcome is Err && final(collection)@.keyring is None,
        any_keyring_has_no_key(cipher, keyring, missing) ==> tells_crypto_failure(
            outcome,
            ""@,
            missing,
        ) && final(collection)@.items == old(collection)@.items && final(
            collection)@.keyring is None,
{
    reveal_strlit("");
    let before = old(collection)@;
    let after = final(collection)@;
    let done = choose|done: Result<(), ServiceError>| #[trigger]
        locks(before, cipher, keyring, after, done) && match done {
            Ok(_) => is_done(*old(collection), outcome),
            Err(e) => outcome == Err::<Locking<AnyLockedKeyring<P, N>>, ServiceError>(e),
        };
    let told = choose|told: AnyUnlockedKeyring<P, N>| #[trigger]
        relocks(before.items, keyring, cipher, true, after.items, told, done);
    let answer = choose|answer: Result<Key, CryptoError>| #[trigger]
        unlocked_key(keyring, cipher, told, answer) && match answer {
            Ok(k) => done is Ok ==> relocked_until(
                cipher,
                before.items,
                &k,
                true,
                before.items.len() as int,
                after.items,
            ),
            Err(e) => after.items == before.items && (done matches Err(error)
                && is_relock_key_failure(error, e)),
        };
    if let FileItem::Unlocked(plain) = before.items[i].inner {
        if done is Ok {
            let k = answer->Ok_0;
            assert(relocked(cipher, before.items[i], &k, true, after.items[i]));
            let sealed = choose|sealed: Result<EncryptedItem, FileError>| #[trigger]
                encrypts(cipher, &plain, &k, sealed) && Ok::<FileItem, FileError>(
                    after.items[i].inner,
                ) == (match sealed {
                    Ok(inner) => Ok::<FileItem, FileError>(FileItem::Locked(LockedItem { inner })),
                    Err(e) => Err(e),
                });
            assert(call_ensures(C::encrypt, (cipher, &plain, &k), sealed));
        }
    }
    if any_keyring_has_no_key(cipher, keyring, missing) {
        assert(answer == Err::<Key, CryptoError>(missing));
        let error = done->Err_0;
        let shown = choose|shown: Seq<char>| #[trigger]
            missing.shown(shown) && is_failure(error, shown);
        assert(""@ + shown =~= shown);
        assert(missing.shown(shown));
    }
}

/// Without the key of its keyring a collection stores nothing, deletes nothing and finds nothing.
/// It stays as it is, and the reason is told.
pub proof fn a_collection_needs_the_key_of_its_keyring<C: KeyringCipher, P, N>(
    collection: &mut Collection<AnyLockedKeyring<P, N>, AnyUnlockedKeyring<P, N>>,
    cipher: &C,
    keyring: AnyUnlockedKeyring<P, N>,
    missing: CryptoError,
    request: StoreRequest,
    attributes: &Attributes,
    stored: Stored,
    deleted: Result<Unsaved<()>, FileError>,
    list: Result<Vec<String>, ServiceError>,
    items: Result<Vec<Item>, ServiceError>,
)
    requires
        old(collection)@.keyring == Some(
            KeyringState::<AnyLockedKeyring<P, N>, AnyUnlockedKeyring<P, N>>::Unlocked(keyring),
        ),
        any_keyring_has_no_key(cipher, keyring, missing),
    ensures
        call_ensures(
            Collection::<AnyLockedKeyring<P, N>, AnyUnlockedKeyring<P, N>>::store_item::<C>,
            (collection, cipher, request),
            stored,
        ) ==> final(collection)@ == old(collection)@ && stored.item == Err::<
            Unsaved<UnlockedItem>,
            FileError,
        >(FileError::Crypto(missing)),
        call_ensures(
            Collection::<AnyLockedKeyring<P, N>, AnyUnlockedKeyring<P, N>>::delete_stored::<C>,
            (collection, cipher, attributes),
            deleted,
        ) ==> final(collection)@ == old(collection)@ && deleted == Err::<Unsaved<()>, FileError>(
            FileError::Crypto(missing),
        ),
        call_ensures(
            Collection::<AnyLockedKeyring<P, N>, AnyUnlockedKeyring<P, N>>::search_items::<C>,
            (collection, cipher, attributes),
            list,
        ) ==> final(collection)@ == old(collection)@ && tells_crypto_failure(
            list,
            "Failed to derive key: "@,
            missing,
        ),
        call_ensures(
            Collection::<
                AnyLockedKeyring<P, N>,
                AnyUnlockedKeyring<P, N>,
            >::search_inner_items::<C>,
            (collection, cipher, attributes),
            items,
        ) ==> final(collection)@ == old(collection)@ && tells_crypto_failure(
            items,
            "Failed to derive key: "@,
            missing,
        ),
{
    let before = old(collection)@;
    let after = final(collection)@;
    if call_ensures(
        Collection::<AnyLockedKeyring<P, N>, AnyUnlockedKeyring<P, N>>::store_item::<C>,
        (collection, cipher, request),
        stored,
    ) {
        let told = choose|told: AnyUnlockedKeyring<P, N>| #[trigger]
            keyring_stores(keyring, cipher, request, told, in_memory(stored.item)) && after == (
            CollectionView {
                keyring: Some(
                    KeyringState::<AnyLockedKeyring<P, N>, AnyUnlockedKeyring<P, N>>::Unlocked(
                        told,
                    ),
                ),
                ..before
            });
        assert(told == keyring);
    }
    if call_ensures(
        Collection::<AnyLockedKeyring<P, N>, AnyUnlockedKeyring<P, N>>::delete_stored::<C>,
        (collection, cipher, attributes),
        deleted,
    ) {
        let told = choose|told: AnyUnlockedKeyring<P, N>| #[trigger]
            keyring_deletes(keyring, cipher, attributes, told, in_memory(deleted)) && after == (
            CollectionView {
                keyring: Some(
                    KeyringState::<AnyLockedKeyring<P, N>, AnyUnlockedKeyring<P, N>>::Unlocked(
                        told,
                    ),
                ),
                ..before
            });
        assert(told == keyring);
    }
    assert forall|found: Result<Seq<bool>, ServiceError>| #[trigger]
        searches(before, cipher, attributes, after, found) implies after == before
        && tells_crypto_failure(found, "Failed to derive key: "@, missing) by {
        let (told, key) = choose|told: AnyUnlockedKeyring<P, N>, key: Result<Key, CryptoError>|
         #[trigger]
            unlocked_key(keyring, cipher, told, key) && after == (CollectionView {
                keyring: Some(
                    KeyringState::<AnyLockedKeyring<P, N>, AnyUnlockedKeyring<P, N>>::Unlocked(
                        told,
                    ),
                ),
                ..before
            }) && match key {
                Ok(_) => true,
                Err(e) => found matches Err(error) && is_key_failure(error, e),
            };
        assert(key == Err::<Key, CryptoError>(missing));
        let error = found->Err_0;
        let shown = choose|shown: Seq<char>| #[trigger]
            missing.shown(shown) && is_failure(error, "Failed to derive key: "@ + shown);
        assert(missing.shown(shown));
    }
}

/// The keyring of an unlocked collection tells its key, as the keyring inside does.
pub proof fn a_keyring_tells_its_key_in_a_collection<C: KeyringCipher, P, N>(
    state: &mut KeyringState<AnyLockedKeyring<P, N>, AnyUnlockedKeyring<P, N>>,
    cipher: &C,
    keyring: AnyUnlockedKeyring<P, N>,
    missing: CryptoError,
    key: Result<Key, CryptoError>,
    inside: &AnyUnlockedKeyring<P, N>,
)
    requires
        *old(state) == KeyringState::<AnyLockedKeyring<P, N>, AnyUnlockedKeyring<P, N>>::Unlocked(
            keyring,
        ),
    ensures
        call_ensures(
            KeyringState::<AnyLockedKeyring<P, N>, AnyUnlockedKeyring<P, N>>::key::<C>,
            (state, cipher),
            key,
        ) ==> {
            &&& any_key(keyring) matches Some(held) ==> (key matches Ok(told) && told@ == held@)
                && *final(state) == *old(state)
            &&& any_keyring_has_no_key(cipher, keyring, missing) ==> key == Err::<
                Key,
                CryptoError,
            >(missing) && *final(state) == *old(state)
        },
        call_ensures(
            KeyringState::<AnyLockedKeyring<P, N>, AnyUnlockedKeyring<P, N>>::as_unlocked,
            (&*old(state),),
            inside,
        ) ==> *inside == keyring,
{
}

} // verus!

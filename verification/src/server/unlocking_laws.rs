//! What a collection of loaded keyrings shows after it was locked or unlocked.
use vstd::prelude::*;

use crate::crypto::error::Error as CryptoError;
use crate::file::api::decrypts;
use crate::file::api::encrypts;
use crate::file::api::item_relocked;
use crate::file::api::EncryptedItem;
use crate::file::api::Item as FileItem;
use crate::file::api::ItemView as FileItemView;
use crate::file::api::KeyringCipher;
use crate::file::api::LockedItem;
use crate::file::api::UnlockedItem;
use crate::file::api::UnlockedItemView;
use crate::file::call_laws::any_key;
use crate::file::call_laws::gpg_locked;
use crate::file::call_laws::judged_by_the_cipher;
use crate::file::call_laws::password_locked;
use crate::file::cipher::faithful;
use crate::file::cipher::holds;
use crate::file::cipher::honest;
use crate::file::cipher::key_of_secret;
use crate::file::cipher::known;
use crate::file::cipher::same_key;
use crate::file::cipher::what_is_held_comes_out;
use crate::file::error::Error as FileError;
use crate::file::loader::AnyLockedKeyring;
use crate::file::loader::AnyUnlockedKeyring;
use crate::file::traits::accepts;
use crate::file::traits::key_answer;
use crate::file::traits::BeginUnlockResult;
use crate::file::traits::LockedKeyring;
use crate::file::traits::UnlockedKeyring;
use crate::object_path::is_object_path;
use crate::secret::Key;
use crate::secret::Secret;
use crate::server::collection::unlocked_key;
use crate::server::collection::Collection;
use crate::server::collection::CollectionView;
use crate::server::collection::KeyringState;
use crate::server::collection_laws::tells_failure;
use crate::server::creation::NewItem;
use crate::server::error::is_failure;
use crate::server::error::is_file_failure;
use crate::server::error::ServiceError;
use crate::server::item::Item;
use crate::server::script::Signal;
use crate::server::unlocking::installs;
use crate::server::unlocking::is_done;
use crate::server::unlocking::locks;
use crate::server::unlocking::relocked;
use crate::server::unlocking::relocked_until;
use crate::server::unlocking::relocks;
use crate::server::unlocking::unlocked_or_kept;
use crate::server::unlocking::unlocked_where_possible;
use crate::server::unlocking::unlocks_anyway;
use crate::server::unlocking::without_keyring;
use crate::server::unlocking::Admission;
use crate::server::unlocking::Begun;
use crate::server::unlocking::Locking;

verus! {

/// The collections differ in nothing but their keyrings.
pub open spec fn but_for_the_keyring<L, U>(
    a: CollectionView<L, U>,
    b: CollectionView<L, U>,
) -> bool {
    &&& a.items == b.items
    &&& but_for_items_and_keyring(a, b)
}

/// The collections differ in nothing but their keyrings and what is inside their items.
pub open spec fn but_for_items_and_keyring<L, U>(
    a: CollectionView<L, U>,
    b: CollectionView<L, U>,
) -> bool {
    &&& a.label == b.label && a.created == b.created && a.modified == b.modified
    &&& a.alias == b.alias && a.item_index == b.item_index && a.path == b.path
}

/// An operation goes ahead where the keyring is unlocked. A locked keyring is handed out to be
/// unlocked, and the operation waits for it. Without a keyring there is no operation.
pub open spec fn admitted<L, U, T>(
    before: CollectionView<L, U>,
    then: T,
    after: CollectionView<L, U>,
    outcome: Result<Admission<L, T>, ServiceError>,
) -> bool {
    match (before.keyring, outcome) {
        (Some(KeyringState::Unlocked(_)), Ok(Admission::Proceed(t))) => t == then && after
            == before,
        (Some(KeyringState::Locked(l)), Ok(Admission::Unlock { keyring, then: t })) => keyring == l
            && t == then && after.keyring is None && but_for_the_keyring(before, after),
        (None, Err(ServiceError::Failed(text))) => text@ == "Keyring not available"@ && after
            == before,
        _ => false,
    }
}

/// Creating an item and deleting a collection wait for a locked keyring, as any operation does.
pub proof fn operations_wait_for_the_keyring<L: LockedKeyring, U: UnlockedKeyring<L>, T>(
    collection: &mut Collection<L, U>,
    then: T,
    new: NewItem,
    access: Result<Admission<L, T>, ServiceError>,
    creation: Result<Admission<L, NewItem>, ServiceError>,
    deletion: Result<Admission<L, ()>, ServiceError>,
)
    ensures
        call_ensures(Collection::<L, U>::request_access::<T>, (collection, then), access)
            ==> admitted(old(collection)@, then, final(collection)@, access),
        call_ensures(Collection::<L, U>::create_item, (collection, new), creation) ==> admitted(
            old(collection)@,
            new,
            final(collection)@,
            creation,
        ),
        call_ensures(Collection::<L, U>::delete, (collection,), deletion) ==> admitted(
            old(collection)@,
            (),
            final(collection)@,
            deletion,
        ),
{
}

/// The item is in the clear with these contents, or lies sealed under the key with them inside.
pub open spec fn can_be_read<C: KeyringCipher>(
    cipher: &C,
    item: Item,
    key: Key,
    contents: UnlockedItemView,
) -> bool {
    match item.inner {
        FileItem::Unlocked(plain) => plain@ == contents,
        FileItem::Locked(stored) => holds(cipher, stored.inner, key, contents),
    }
}

/// All items can be read with the key, and these are their contents.
pub open spec fn can_all_be_read<C: KeyringCipher>(
    cipher: &C,
    items: Seq<Item>,
    key: Key,
    contents: Seq<UnlockedItemView>,
) -> bool {
    &&& items.len() == contents.len()
    &&& forall|i: int|
        0 <= i < items.len() ==> can_be_read(cipher, #[trigger] items[i], key, contents[i])
}

/// All items are in the clear with these contents, at the paths where they were.
pub open spec fn all_in_the_clear(
    before: Seq<Item>,
    after: Seq<Item>,
    contents: Seq<UnlockedItemView>,
) -> bool {
    &&& after.len() == before.len() && contents.len() == before.len()
    &&& forall|i: int|
        0 <= i < after.len() ==> (#[trigger] after[i]).inner@ == FileItemView::Unlocked(contents[i])
            && after[i].path == before[i].path && after[i].collection_path
            == before[i].collection_path
}

/// All items lie sealed under the key, with what was inside them, at the paths where they were.
pub open spec fn all_sealed_up<C: KeyringCipher>(
    cipher: &C,
    before: Seq<Item>,
    after: Seq<Item>,
    key: Key,
    contents: Seq<UnlockedItemView>,
) -> bool {
    &&& after.len() == before.len()
    &&& forall|i: int|
        0 <= i < after.len() ==> (#[trigger] after[i]).inner is Locked && after[i].path
            == before[i].path && after[i].collection_path == before[i].collection_path
    &&& can_all_be_read(cipher, after, key, contents)
}

/// An item that can be read is opened with its contents.
pub proof fn lemma_reads<C: KeyringCipher>(
    cipher: &C,
    item: Item,
    key: Key,
    contents: UnlockedItemView,
    held: &Key,
    outcome: Result<FileItem, FileError>,
)
    requires
        faithful(cipher),
        can_be_read(cipher, item, key, contents),
        same_key(key, *held),
        item_relocked(cipher, item.inner, held, false, outcome),
    ensures
        outcome matches Ok(inner) && inner@ == FileItemView::Unlocked(contents),
{
    if let FileItem::Locked(stored) = item.inner {
        let opened = choose|opened: Result<UnlockedItem, FileError>| #[trigger]
            decrypts(cipher, &stored.inner, held, opened) && outcome == (match opened {
                Ok(plain) => Ok::<FileItem, FileError>(FileItem::Unlocked(plain)),
                Err(e) => Err(e),
            });
        what_is_held_comes_out(cipher, stored.inner, key, contents, held, opened);
    }
}

/// A keyring tells the key that it has at hand.
pub proof fn lemma_key_at_hand<C: KeyringCipher, P, N>(
    keyring: AnyUnlockedKeyring<P, N>,
    cipher: &C,
    told: AnyUnlockedKeyring<P, N>,
    answer: Result<Key, CryptoError>,
)
    requires
        any_key(keyring) is Some,
        unlocked_key(keyring, cipher, told, answer),
    ensures
        answer matches Ok(k) && k@ == any_key(keyring)->0@,
        told == keyring,
{
}

proof fn lemma_all_open<C: KeyringCipher, P, N>(
    before: Seq<Item>,
    cipher: &C,
    key: Key,
    contents: Seq<UnlockedItemView>,
    keyring: AnyUnlockedKeyring<P, N>,
    after: Seq<Item>,
    told: AnyUnlockedKeyring<P, N>,
    outcome: Result<(), ServiceError>,
)
    requires
        faithful(cipher),
        any_key(keyring) matches Some(held) && same_key(key, held),
        can_all_be_read(cipher, before, key, contents),
        relocks(before, keyring, cipher, false, after, told, outcome),
    ensures
        outcome is Ok,
        told == keyring,
        all_in_the_clear(before, after, contents),
{
    if before.len() > 0 {
        let answer = choose|answer: Result<Key, CryptoError>| #[trigger]
            unlocked_key(keyring, cipher, told, answer) && match answer {
                Ok(k) => match outcome {
                    Ok(_) => relocked_until(
                        cipher,
                        before,
                        &k,
                        false,
                        before.len() as int,
                        after,
                    ),
                    Err(_) => exists|n: int, e: FileError|
                        n < before.len() && #[trigger] relocked_until(
                            cipher,
                            before,
                            &k,
                            false,
                            n,
                            after,
                        ) && #[trigger] item_relocked(
                            cipher,
                            before[n].inner,
                            &k,
                            false,
                            Err(e),
                        ),
                },
                Err(_) => true,
            };
        lemma_key_at_hand(keyring, cipher, told, answer);
        let k = answer->Ok_0;
        match outcome {
            Ok(_) => {
                assert forall|i: int| 0 <= i < after.len() implies (#[trigger] after[i]).inner@
                    == FileItemView::Unlocked(contents[i]) && after[i].path == before[i].path
                    && after[i].collection_path == before[i].collection_path by {
                    assert(relocked(cipher, before[i], &k, false, after[i]));
                    assert(can_be_read(cipher, before[i], key, contents[i]));
                    lemma_reads(cipher, before[i], key, contents[i], &k, Ok(after[i].inner));
                }
            },
            Err(_) => {
                let (n, e) = choose|n: int, e: FileError|
                    n < before.len() && #[trigger] relocked_until(
                        cipher,
                        before,
                        &k,
                        false,
                        n,
                        after,
                    ) && #[trigger] item_relocked(cipher, before[n].inner, &k, false, Err(e));
                assert(can_be_read(cipher, before[n], key, contents[n]));
                lemma_reads(cipher, before[n], key, contents[n], &k, Err(e));
            },
        }
    }
}

/// The collection is unlocked with the keyring. All its items are in the clear, with what was in
/// them, at the paths where they were, and nothing else changed.
pub open spec fn opened_up<P, N>(
    before: CollectionView<AnyLockedKeyring<P, N>, AnyUnlockedKeyring<P, N>>,
    contents: Seq<UnlockedItemView>,
    keyring: AnyUnlockedKeyring<P, N>,
    after: CollectionView<AnyLockedKeyring<P, N>, AnyUnlockedKeyring<P, N>>,
) -> bool {
    &&& after.keyring == Some(
        KeyringState::<AnyLockedKeyring<P, N>, AnyUnlockedKeyring<P, N>>::Unlocked(keyring),
    )
    &&& all_in_the_clear(before.items, after.items, contents)
    &&& but_for_items_and_keyring(before, after)
}

proof fn lemma_installed<C: KeyringCipher, P, N>(
    before: CollectionView<AnyLockedKeyring<P, N>, AnyUnlockedKeyring<P, N>>,
    cipher: &C,
    key: Key,
    contents: Seq<UnlockedItemView>,
    keyring: AnyUnlockedKeyring<P, N>,
    after: CollectionView<AnyLockedKeyring<P, N>, AnyUnlockedKeyring<P, N>>,
    outcome: Result<(), ServiceError>,
)
    requires
        faithful(cipher),
        any_key(keyring) matches Some(held) && same_key(key, held),
        can_all_be_read(cipher, before.items, key, contents),
        installs(before, cipher, keyring, after, outcome),
    ensures
        outcome is Ok,
        opened_up(before, contents, keyring, after),
{
    let told = choose|told: AnyUnlockedKeyring<P, N>| #[trigger]
        relocks(before.items, keyring, cipher, false, after.items, told, outcome) && after == (
        CollectionView {
            items: after.items,
            keyring: match outcome {
                Ok(_) => Some(
                    KeyringState::<AnyLockedKeyring<P, N>, AnyUnlockedKeyring<P, N>>::Unlocked(
                        told,
                    ),
                ),
                Err(_) => before.keyring,
            },
            ..before
        });
    lemma_all_open(
        before.items,
        cipher,
        key,
        contents,
        keyring,
        after.items,
        told,
        outcome,
    );
}

/// A keyring that the user unlocked opens the collection: every item whose contents lie under its
/// key is in the clear, with these contents, at its path, and the operation that waited goes
/// ahead. Without such a keyring nothing changes and nothing goes ahead.
pub proof fn a_completed_prompt_opens_the_collection<C: KeyringCipher, P, N, T>(
    collection: &mut Collection<AnyLockedKeyring<P, N>, AnyUnlockedKeyring<P, N>>,
    cipher: &C,
    key: Key,
    contents: Seq<UnlockedItemView>,
    completion: Option<Result<AnyUnlockedKeyring<P, N>, FileError>>,
    then: T,
    proceed: Option<T>,
)
    requires
        faithful(cipher),
        can_all_be_read(cipher, old(collection)@.items, key, contents),
        completion matches Some(Ok(keyring)) ==> (any_key(keyring) matches Some(held) && same_key(
            key,
            held,
        )),
        call_ensures(
            Collection::<AnyLockedKeyring<P, N>, AnyUnlockedKeyring<P, N>>::unlock_completed::<
                C,
                T,
            >,
            (collection, cipher, completion, then),
            proceed,
        ),
    ensures
        match completion {
            Some(Ok(keyring)) => proceed == Some(then) && opened_up(
                old(collection)@,
                contents,
                keyring,
                final(collection)@,
            ),
            _ => proceed is None && final(collection)@ == old(collection)@,
        },
{
    if let Some(Ok(keyring)) = completion {
        let before = old(collection)@.items;
        let after = final(collection)@.items;
        let told = choose|told: AnyUnlockedKeyring<P, N>| #[trigger]
            unlocks_anyway(before, keyring, cipher, after, told) && final(collection)@.keyring
                == Some(
                KeyringState::<AnyLockedKeyring<P, N>, AnyUnlockedKeyring<P, N>>::Unlocked(told),
            );
        if before.len() > 0 {
            let answer = choose|answer: Result<Key, CryptoError>| #[trigger]
                unlocked_key(keyring, cipher, told, answer) && match answer {
                    Ok(k) => unlocked_where_possible(cipher, before, &k, after),
                    Err(_) => true,
                };
            lemma_key_at_hand(keyring, cipher, told, answer);
            let k = answer->Ok_0;
            assert forall|i: int| 0 <= i < after.len() implies (#[trigger] after[i]).inner@
                == FileItemView::Unlocked(contents[i]) && after[i].path == before[i].path
                && after[i].collection_path == before[i].collection_path by {
                assert(unlocked_or_kept(cipher, before[i], &k, after[i]));
                assert(can_be_read(cipher, before[i], key, contents[i]));
                if relocked(cipher, before[i], &k, false, after[i]) {
                    lemma_reads(cipher, before[i], key, contents[i], &k, Ok(after[i].inner));
                } else {
                    let e = choose|e: FileError| #[trigger]
                        item_relocked(cipher, before[i].inner, &k, false, Err(e));
                    lemma_reads(cipher, before[i], key, contents[i], &k, Err(e));
                }
            }
        }
    }
}

/// An item that does not open stays as it was, and the others open all the same.
pub proof fn a_completed_prompt_opens_what_it_can<C: KeyringCipher, P, N, T>(
    collection: &mut Collection<AnyLockedKeyring<P, N>, AnyUnlockedKeyring<P, N>>,
    cipher: &C,
    keyring: AnyUnlockedKeyring<P, N>,
    key: Key,
    i: int,
    contents: UnlockedItemView,
    then: T,
    proceed: Option<T>,
)
    requires
        faithful(cipher),
        any_key(keyring) matches Some(held) && same_key(key, held),
        0 <= i < old(collection)@.items.len(),
        call_ensures(
            Collection::<AnyLockedKeyring<P, N>, AnyUnlockedKeyring<P, N>>::unlock_completed::<
                C,
                T,
            >,
            (collection, cipher, Some(Ok(keyring)), then),
            proceed,
        ),
    ensures
        final(collection)@.items.len() == old(collection)@.items.len(),
        final(collection)@.items[i].path == old(collection)@.items[i].path,
        can_be_read(cipher, old(collection)@.items[i], key, contents) ==> final(
            collection)@.items[i].inner@ == FileItemView::Unlocked(contents),
        (old(collection)@.items[i].inner matches FileItem::Locked(stored) && forall|
            k: Key,
            opened: Result<UnlockedItem, FileError>,
        |
            same_key(key, k) && #[trigger] call_ensures(
                C::decrypt,
                (cipher, &stored.inner, &k),
                opened,
            ) ==> opened is Err) ==> final(collection)@.items[i] == old(collection)@.items[i],
{
    let before = old(collection)@.items;
    let after = final(collection)@.items;
    let told = choose|told: AnyUnlockedKeyring<P, N>| #[trigger]
        unlocks_anyway(before, keyring, cipher, after, told);
    let answer = choose|answer: Result<Key, CryptoError>| #[trigger]
        unlocked_key(keyring, cipher, told, answer) && match answer {
            Ok(k) => unlocked_where_possible(cipher, before, &k, after),
            Err(_) => true,
        };
    lemma_key_at_hand(keyring, cipher, told, answer);
    let k = answer->Ok_0;
    assert(unlocked_or_kept(cipher, before[i], &k, after[i]));
    if can_be_read(cipher, before[i], key, contents) {
        if relocked(cipher, before[i], &k, false, after[i]) {
            lemma_reads(cipher, before[i], key, contents, &k, Ok(after[i].inner));
        } else {
            let e = choose|e: FileError| #[trigger]
                item_relocked(cipher, before[i].inner, &k, false, Err(e));
            lemma_reads(cipher, before[i], key, contents, &k, Err(e));
        }
    }
    if let FileItem::Locked(stored) = before[i].inner {
        if relocked(cipher, before[i], &k, false, after[i]) {
            let opened = choose|opened: Result<UnlockedItem, FileError>| #[trigger]
                decrypts(cipher, &stored.inner, &k, opened) && Ok::<FileItem, FileError>(
                    after[i].inner,
                ) == (match opened {
                    Ok(plain) => Ok::<FileItem, FileError>(FileItem::Unlocked(plain)),
                    Err(e) => Err(e),
                });
            assert(call_ensures(C::decrypt, (cipher, &stored.inner, &k), opened));
        }
    }
}

/// A keyring that was unlocked at once opens the collection in the same way. Otherwise the client
/// gets the path of the prompt, or the reason, and the collection waits.
pub proof fn a_begun_unlock_opens_the_collection_or_prompts<C: KeyringCipher, P, N, T>(
    collection: &mut Collection<AnyLockedKeyring<P, N>, AnyUnlockedKeyring<P, N>>,
    cipher: &C,
    key: Key,
    contents: Seq<UnlockedItemView>,
    begun: Result<BeginUnlockResult<AnyUnlockedKeyring<P, N>>, FileError>,
    then: T,
    outcome: Result<Begun<T>, ServiceError>,
)
    requires
        faithful(cipher),
        can_all_be_read(cipher, old(collection)@.items, key, contents),
        begun matches Ok(BeginUnlockResult::Unlocked(keyring)) ==> (any_key(keyring) matches Some(
            held,
        ) && same_key(key, held)),
        call_ensures(
            Collection::<AnyLockedKeyring<P, N>, AnyUnlockedKeyring<P, N>>::unlock_begun::<C, T>,
            (collection, cipher, begun, then),
            outcome,
        ),
    ensures
        match (begun, outcome) {
            (Ok(BeginUnlockResult::Unlocked(keyring)), Ok(Begun::Ready(t))) => t == then
                && opened_up(old(collection)@, contents, keyring, final(collection)@),
            (
                Ok(BeginUnlockResult::NeedsInput { prompt_path }),
                Ok(Begun::Prompt { path, then: t }),
            ) => t == then && final(collection)@ == old(collection)@ && (if is_object_path(
                prompt_path@,
            ) {
                path@ == prompt_path@
            } else {
                path@ == "/"@
            }),
            (Err(e), Err(_)) => final(collection)@ == old(collection)@ && tells_failure(
                outcome,
                "Failed to begin unlock: "@,
                e,
                ""@,
            ),
            _ => false,
        },
{
    reveal_strlit("/");
    assert("/"@ =~= seq!['/']);
    if let Ok(BeginUnlockResult::Unlocked(keyring)) = begun {
        let installed = choose|installed: Result<(), ServiceError>| #[trigger]
            installs(old(collection)@, cipher, keyring, final(collection)@, installed) && outcome
                == (match installed {
                Ok(_) => Ok::<Begun<T>, ServiceError>(Begun::Ready(then)),
                Err(e) => Err(e),
            });
        lemma_installed(
            old(collection)@,
            cipher,
            key,
            contents,
            keyring,
            final(collection)@,
            installed,
        );
    }
}

/// The signals tell that the collection was locked or unlocked, and that it changed.
pub open spec fn tells_of_the_lock(signals: Seq<Signal>, path: Seq<char>) -> bool {
    &&& signals.len() == 2
    &&& signals[0] is LockedChanged
    &&& signals[1] matches Signal::CollectionChanged(p) && p@ == path
}

/// A keyring that was unlocked with a secret, or without one, opens the collection in the same
/// way, and signals tell of it. What stood in the way is told.
pub proof fn an_unlocked_keyring_opens_the_collection<C: KeyringCipher, P, N>(
    collection: &mut Collection<AnyLockedKeyring<P, N>, AnyUnlockedKeyring<P, N>>,
    cipher: &C,
    key: Key,
    contents: Seq<UnlockedItemView>,
    unlocked: Result<AnyUnlockedKeyring<P, N>, FileError>,
    begun: Result<BeginUnlockResult<AnyUnlockedKeyring<P, N>>, FileError>,
    outcome: Result<Vec<Signal>, ServiceError>,
)
    requires
        faithful(cipher),
        can_all_be_read(cipher, old(collection)@.items, key, contents),
        unlocked matches Ok(keyring) ==> (any_key(keyring) matches Some(held) && same_key(
            key,
            held,
        )),
        begun matches Ok(BeginUnlockResult::Unlocked(keyring)) ==> (any_key(keyring) matches Some(
            held,
        ) && same_key(key, held)),
    ensures
        call_ensures(
            Collection::<AnyLockedKeyring<P, N>, AnyUnlockedKeyring<P, N>>::unlocked_with_secret::<
                C,
            >,
            (collection, cipher, unlocked),
            outcome,
        ) ==> match (unlocked, outcome) {
            (Ok(keyring), Ok(signals)) => opened_up(
                old(collection)@,
                contents,
                keyring,
                final(collection)@,
            ) && tells_of_the_lock(signals@, old(collection).path@),
            (Err(e), Err(_)) => final(collection)@ == old(collection)@ && tells_failure(
                outcome,
                "Failed to unlock with secret: "@,
                e,
                ""@,
            ),
            _ => false,
        },
        call_ensures(
            Collection::<
                AnyLockedKeyring<P, N>,
                AnyUnlockedKeyring<P, N>,
            >::unlocked_without_secret::<C>,
            (collection, cipher, begun),
            outcome,
        ) ==> match (begun, outcome) {
            (Ok(BeginUnlockResult::Unlocked(keyring)), Ok(signals)) => opened_up(
                old(collection)@,
                contents,
                keyring,
                final(collection)@,
            ) && tells_of_the_lock(signals@, old(collection).path@),
            (
                Ok(BeginUnlockResult::NeedsInput { prompt_path }),
                Err(ServiceError::Failed(text)),
            ) => final(collection)@ == old(collection)@ && text@
                == "Unexpected: GPG keyring returned NeedsInput"@,
            (Err(e), Err(_)) => final(collection)@ == old(collection)@ && tells_failure(
                outcome,
                "Failed to unlock GPG keyring: "@,
                e,
                ""@,
            ),
            _ => false,
        },
{
    assert forall|keyring: AnyUnlockedKeyring<P, N>, installed: Result<(), ServiceError>|
        (any_key(keyring) matches Some(held) && same_key(key, held)) && #[trigger] installs(
            old(collection)@,
            cipher,
            keyring,
            final(collection)@,
            installed,
        ) implies installed is Ok && opened_up(
        old(collection)@,
        contents,
        keyring,
        final(collection)@,
    ) by {
        lemma_installed(
            old(collection)@,
            cipher,
            key,
            contents,
            keyring,
            final(collection)@,
            installed,
        );
    }
}

/// The locked keyring is the unlocked one without its key.
pub open spec fn any_locked<P, N>(
    unlocked: AnyUnlockedKeyring<P, N>,
    locked: AnyLockedKeyring<P, N>,
) -> bool {
    match (unlocked, locked) {
        (AnyUnlockedKeyring::Password(u), AnyLockedKeyring::Password(l)) => password_locked(u, l),
        (AnyUnlockedKeyring::Gpg(u), AnyLockedKeyring::Gpg(l)) => gpg_locked(u, l),
        _ => false,
    }
}

/// The keyring has the key at hand, or gets it from its secret.
pub open spec fn gives_key<C: KeyringCipher, P, N>(
    cipher: &C,
    keyring: AnyUnlockedKeyring<P, N>,
    key: Key,
) -> bool {
    match keyring {
        AnyUnlockedKeyring::Password(k) => match k.key {
            Some(held) => same_key(key, held),
            None => honest(cipher) && key_of_secret(cipher, k.inner.salt@, k.secret@, key),
        },
        AnyUnlockedKeyring::Gpg(k) => k.key matches Some(held) && same_key(key, held),
    }
}

proof fn lemma_gives_key<C: KeyringCipher, P, N>(
    keyring: AnyUnlockedKeyring<P, N>,
    cipher: &C,
    key: Key,
    told: AnyUnlockedKeyring<P, N>,
    answer: Result<Key, CryptoError>,
)
    requires
        gives_key(cipher, keyring, key),
        unlocked_key(keyring, cipher, told, answer),
    ensures
        answer matches Ok(k) && same_key(key, k),
        told.locked() == keyring.locked(),
{
    let held = choose|held: Result<Key, CryptoError>| #[trigger]
        key_answer(keyring.key_source(), cipher, &keyring.contents(), held) && match held {
            Ok(h) => told == keyring.holding(h) && (answer matches Ok(k) && k@ == h@),
            Err(e) => told == keyring && answer == Err::<Key, CryptoError>(e),
        };
    assert(held is Ok);
}

/// All items are in the clear, with these contents.
pub open spec fn in_the_clear(items: Seq<Item>, contents: Seq<UnlockedItemView>) -> bool {
    &&& items.len() == contents.len()
    &&& forall|i: int|
        0 <= i < items.len() ==> ((#[trigger] items[i]).inner matches FileItem::Unlocked(plain)
            && plain@ == contents[i])
}

/// Locking an unlocked collection seals all its items under the key of its keyring, with what was
/// in them, at their paths. The keyring is locked, and nothing else changes. Signals tell of it.
/// It succeeds where the cipher seals what it is given.
pub proof fn a_locked_collection_is_sealed_up<C: KeyringCipher, P, N>(
    collection: &mut Collection<AnyLockedKeyring<P, N>, AnyUnlockedKeyring<P, N>>,
    cipher: &C,
    keyring: AnyUnlockedKeyring<P, N>,
    key: Key,
    contents: Seq<UnlockedItemView>,
    secret: Option<Secret>,
    outcome: Result<Locking<AnyLockedKeyring<P, N>>, ServiceError>,
)
    requires
        old(collection)@.keyring == Some(
            KeyringState::<AnyLockedKeyring<P, N>, AnyUnlockedKeyring<P, N>>::Unlocked(keyring),
        ),
        gives_key(cipher, keyring, key),
        in_the_clear(old(collection)@.items, contents),
        call_ensures(
            Collection::<AnyLockedKeyring<P, N>, AnyUnlockedKeyring<P, N>>::set_locked::<C>,
            (collection, cipher, true, secret),
            outcome,
        ),
    ensures
        (forall|item: UnlockedItem, key: Key, sealed: Result<EncryptedItem, FileError>| #[trigger]
            call_ensures(C::encrypt, (cipher, &item, &key), sealed) ==> sealed is Ok)
            ==> outcome is Ok,
        match outcome {
            Ok(Locking::Done(signals)) => {
                &&& tells_of_the_lock(signals@, old(collection).path@)
                &&& final(collection)@.keyring matches Some(KeyringState::Locked(locked))
                    && any_locked(keyring, locked)
                &&& all_sealed_up(
                    cipher,
                    old(collection)@.items,
                    final(collection)@.items,
                    key,
                    contents,
                )
                &&& but_for_items_and_keyring(old(collection)@, final(collection)@)
            },
            Ok(_) => false,
            Err(_) => final(collection)@.keyring is None,
        },
{
    let before = old(collection)@;
    let after = final(collection)@;
    let done = choose|done: Result<(), ServiceError>| #[trigger]
        locks(before, cipher, keyring, after, done) && match done {
            Ok(_) => is_done(*old(collection), outcome),
            Err(e) => outcome == Err::<Locking<AnyLockedKeyring<P, N>>, ServiceError>(e),
        };
    let told = choose|told: AnyUnlockedKeyring<P, N>| #[trigger]
        relocks(before.items, keyring, cipher, true, after.items, told, done) && after == (
        CollectionView {
            items: after.items,
            keyring: match done {
                Ok(_) => Some(
                    KeyringState::<AnyLockedKeyring<P, N>, AnyUnlockedKeyring<P, N>>::Locked(
                        told.locked(),
                    ),
                ),
                Err(_) => None,
            },
            ..before
        });
    if before.items.len() > 0 {
        let answer = choose|answer: Result<Key, CryptoError>| #[trigger]
            unlocked_key(keyring, cipher, told, answer) && match answer {
                Ok(k) => match done {
                    Ok(_) => relocked_until(
                        cipher,
                        before.items,
                        &k,
                        true,
                        before.items.len() as int,
                        after.items,
                    ),
                    Err(_) => exists|n: int, e: FileError|
                        n < before.items.len() && #[trigger] relocked_until(
                            cipher,
                            before.items,
                            &k,
                            true,
                            n,
                            after.items,
                        ) && #[trigger] item_relocked(
                            cipher,
                            before.items[n].inner,
                            &k,
                            true,
                            Err(e),
                        ),
                },
                Err(_) => true,
            };
        lemma_gives_key(keyring, cipher, key, told, answer);
        let k = answer->Ok_0;
        match done {
            Ok(_) => {
                assert forall|i: int| 0 <= i < after.items.len() implies (
                #[trigger] after.items[i]).inner is Locked && after.items[i].path
                    == before.items[i].path && after.items[i].collection_path
                    == before.items[i].collection_path && can_be_read(
                    cipher,
                    after.items[i],
                    key,
                    contents[i],
                ) by {
                    assert(relocked(cipher, before.items[i], &k, true, after.items[i]));
                    assert(before.items[i].inner is Unlocked);
                    let plain = before.items[i].inner->Unlocked_0;
                    let sealed = choose|sealed: Result<EncryptedItem, FileError>| #[trigger]
                        encrypts(cipher, &plain, &k, sealed) && Ok::<FileItem, FileError>(
                            after.items[i].inner,
                        ) == (match sealed {
                            Ok(inner) => Ok::<FileItem, FileError>(
                                FileItem::Locked(LockedItem { inner }),
                            ),
                            Err(e) => Err(e),
                        });
                    assert(known(cipher, plain, after.items[i].inner->Locked_0.inner, k));
                }
            },
            Err(_) => {
                let (n, e) = choose|n: int, e: FileError|
                    n < before.items.len() && #[trigger] relocked_until(
                        cipher,
                        before.items,
                        &k,
                        true,
                        n,
                        after.items,
                    ) && #[trigger] item_relocked(
                        cipher,
                        before.items[n].inner,
                        &k,
                        true,
                        Err(e),
                    );
                assert(before.items[n].inner is Unlocked);
                let plain = before.items[n].inner->Unlocked_0;
                let sealed = choose|sealed: Result<EncryptedItem, FileError>| #[trigger]
                    encrypts(cipher, &plain, &k, sealed) && Err::<FileItem, FileError>(e) == (
                    match sealed {
                        Ok(inner) => Ok::<FileItem, FileError>(
                            FileItem::Locked(LockedItem { inner }),
                        ),
                        Err(e) => Err(e),
                    });
                assert(call_ensures(C::encrypt, (cipher, &plain, &k), sealed));
            },
        }
    }
}

/// A locked collection is asked to unlock with a secret. The secret of a password-based keyring is
/// judged by the cipher: where it is valid, the keyring is handed out to be unlocked with it; where
/// it is not, the collection stays as it is, and says so. A GPG-based keyring takes any secret.
/// Without a secret, a password-based keyring stays locked, and a GPG-based one is handed out.
pub proof fn a_secret_is_judged_before_it_unlocks<C: KeyringCipher, P, N>(
    collection: &mut Collection<AnyLockedKeyring<P, N>, AnyUnlockedKeyring<P, N>>,
    cipher: &C,
    keyring: AnyLockedKeyring<P, N>,
    secret: Option<Secret>,
    outcome: Result<Locking<AnyLockedKeyring<P, N>>, ServiceError>,
)
    requires
        old(collection)@.keyring == Some(
            KeyringState::<AnyLockedKeyring<P, N>, AnyUnlockedKeyring<P, N>>::Locked(keyring),
        ),
        call_ensures(
            Collection::<AnyLockedKeyring<P, N>, AnyUnlockedKeyring<P, N>>::set_locked::<C>,
            (collection, cipher, false, secret),
            outcome,
        ),
    ensures
        match (keyring, secret, outcome) {
            (
                AnyLockedKeyring::Password(k),
                Some(s),
                Ok(Locking::UnlockWithSecret { keyring: out, secret: given }),
            ) => out == keyring && given == s && judged_by_the_cipher(
                cipher,
                k.inner,
                &s,
                Ok(true),
            ) && final(collection)@.keyring is None && but_for_the_keyring(
                old(collection)@,
                final(collection)@,
            ),
            (AnyLockedKeyring::Password(k), Some(s), Err(error)) => {
                ||| (error matches ServiceError::Failed(text) && text@ == "Invalid secret"@)
                    && judged_by_the_cipher(cipher, k.inner, &s, Ok(false)) && final(collection)@
                    == old(collection)@
                ||| final(collection)@.keyring is None && but_for_the_keyring(
                    old(collection)@,
                    final(collection)@,
                ) && exists|e: FileError| #[trigger]
                    judged_by_the_cipher(cipher, k.inner, &s, Err(e)) && tells_failure(
                        outcome,
                        "Failed to validate secret: "@,
                        e,
                        ""@,
                    )
            },
            (
                AnyLockedKeyring::Gpg(_),
                Some(s),
                Ok(Locking::UnlockWithSecret { keyring: out, secret: given }),
            ) => out == keyring && given == s && final(collection)@.keyring is None
                && but_for_the_keyring(old(collection)@, final(collection)@),
            (AnyLockedKeyring::Password(_), None, Err(ServiceError::Failed(text))) => text@
                == "Password keyring requires prompt; use D-Bus unlock method"@ && final(
                collection)@ == old(collection)@,
            (AnyLockedKeyring::Gpg(_), None, Ok(Locking::BeginUnlock(out))) => out == keyring
                && final(collection)@.keyring is None && but_for_the_keyring(
                old(collection)@,
                final(collection)@,
            ),
            _ => false,
        },
{
    if let (AnyLockedKeyring::Password(k), Some(s)) = (keyring, secret) {
        let valid = choose|valid: Result<bool, FileError>| #[trigger]
            accepts(keyring.secret_rule(), cipher, &keyring.contents(), &s, valid) && match valid {
                Ok(true) => outcome is Ok,
                Ok(false) => final(collection)@ == old(collection)@ && (outcome matches Err(e)
                    && is_failure(e, "Invalid secret"@)),
                Err(e) => final(collection)@ == without_keyring(old(collection)@) && (
                outcome matches Err(error) && is_file_failure(
                    error,
                    "Failed to validate secret: "@,
                    e,
                    ""@,
                )),
            };
        assert(judged_by_the_cipher(cipher, k.inner, &s, valid));
    }
}

/// A collection that is as wanted already stays as it is, and so does one whose keyring is out.
/// Signals tell of its state all the same.
pub proof fn a_collection_as_wanted_stays_as_it_is<
    C: KeyringCipher,
    L: LockedKeyring,
    U: UnlockedKeyring<L>,
>(
    collection: &mut Collection<L, U>,
    cipher: &C,
    locked: bool,
    secret: Option<Secret>,
    outcome: Result<Locking<L>, ServiceError>,
)
    requires
        match old(collection)@.keyring {
            Some(KeyringState::Locked(_)) => locked,
            Some(KeyringState::Unlocked(_)) => !locked,
            None => true,
        },
        call_ensures(
            Collection::<L, U>::set_locked::<C>,
            (collection, cipher, locked, secret),
            outcome,
        ),
    ensures
        final(collection)@ == old(collection)@,
        outcome matches Ok(Locking::Done(signals)) && tells_of_the_lock(
            signals@,
            old(collection).path@,
        ),
{
}

} // verus!

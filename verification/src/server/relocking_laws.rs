//! What a collection shows after it was locked and unlocked again, with a cipher that does its
//! job.
use vstd::prelude::*;

use crate::crypto::error::Error as CryptoError;
use crate::file::api::decrypts;
use crate::file::api::encrypts;
use crate::file::api::item_relocked;
use crate::file::api::lists_opened;
use crate::file::api::EncryptedItem;
use crate::file::api::Item as FileItem;
use crate::file::api::KeyringCipher;
use crate::file::api::LockedItem;
use crate::file::api::UnlockedItem;
use crate::file::api::UnlockedItemView;
use crate::file::cipher::faithful;
use crate::file::cipher::held_items_open;
use crate::file::cipher::hold;
use crate::file::cipher::honest;
use crate::file::cipher::key_of_secret;
use crate::file::cipher::known;
use crate::file::cipher::same_key;
use crate::file::cipher::shows_all;
use crate::file::error::Error as FileError;
use crate::file::error::InvalidItemError;
use crate::file::laws::has_its_own_key;
use crate::file::laws::relocking_shows_the_same_items;
use crate::file::laws::there_is_one_key;
use crate::file::password_keyring::unlocks_with_secret;
use crate::file::password_keyring::PasswordLockedKeyring;
use crate::file::password_keyring::PasswordUnlockedKeyring;
use crate::file::traits::accepts;
use crate::file::traits::key_answer;
use crate::file::traits::LockedKeyring;
use crate::file::traits::UnlockedKeyring;
use crate::secret::Key;
use crate::secret::Secret;
use crate::server::collection::paths;
use crate::server::collection::unlocked_key;
use crate::server::collection::CollectionView;
use crate::server::collection::KeyringState;
use crate::server::error::ServiceError;
use crate::server::item::Item;
use crate::server::laws::all_unlocked;
use crate::server::laws::locking_locks_everything;
use crate::server::laws::unlocking_unlocks_everything;
use crate::server::unlocking::installs;
use crate::server::unlocking::locks;
use crate::server::unlocking::relocked;
use crate::server::unlocking::relocked_until;
use crate::server::unlocking::relocks;
use crate::server::unlocking::without_keyring;

verus! {

/// The items were in the clear, and lie sealed with the key now.
spec fn sealed_with<C: KeyringCipher>(
    cipher: &C,
    before: Seq<Item>,
    key: Key,
    after: Seq<Item>,
) -> bool {
    &&& after.len() == before.len()
    &&& forall|i: int|
        0 <= i < after.len() ==> {
            &&& (#[trigger] after[i]).inner is Locked
            &&& before[i].inner is Unlocked
            &&& encrypts(
                cipher,
                &before[i].inner->Unlocked_0,
                &key,
                Ok(after[i].inner->Locked_0.inner),
            )
        }
}

/// Locking seals all items with the key of the keyring.
proof fn lemma_sealed<C: KeyringCipher, P>(
    before: Seq<Item>,
    keyring: PasswordUnlockedKeyring<P>,
    cipher: &C,
    after: Seq<Item>,
    told: PasswordUnlockedKeyring<P>,
    key: Key,
) -> (sealing: Key)
    requires
        honest(cipher),
        all_unlocked(before),
        has_its_own_key(cipher, keyring),
        key_of_secret(cipher, keyring.inner.salt@, keyring.secret@, key),
        relocks(before, keyring, cipher, true, after, told, Ok(())),
    ensures
        same_key(key, sealing),
        sealed_with(cipher, before, sealing, after),
{
    if before.len() == 0 {
        key
    } else {
        let answer = choose|answer: Result<Key, CryptoError>| #[trigger]
            unlocked_key(keyring, cipher, told, answer) && match answer {
                Ok(k) => relocked_until(cipher, before, &k, true, before.len() as int, after),
                Err(e) => false,
            };
        let sealing = answer->Ok_0;
        let held = choose|held: Result<Key, CryptoError>| #[trigger]
            key_answer(keyring.key_source(), cipher, &keyring.contents(), held) && match held {
                Ok(h) => sealing@ == h@,
                Err(e) => false,
            };
        there_is_one_key(keyring, cipher, key, held->Ok_0);
        assert forall|i: int| 0 <= i < after.len() implies (#[trigger] after[i]).inner is Locked
            && before[i].inner is Unlocked && encrypts(
            cipher,
            &before[i].inner->Unlocked_0,
            &sealing,
            Ok(after[i].inner->Locked_0.inner),
        ) by {
            assert(relocked(cipher, before[i], &sealing, true, after[i]));
            assert(before[i].inner is Unlocked);
            let plain = before[i].inner->Unlocked_0;
            let sealed = choose|sealed: Result<EncryptedItem, FileError>| #[trigger]
                encrypts(cipher, &plain, &sealing, sealed) && (match sealed {
                    Ok(inner) => after[i].inner == FileItem::Locked(LockedItem { inner }),
                    Err(e) => false,
                });
            assert(encrypts(cipher, &plain, &sealing, Ok(after[i].inner->Locked_0.inner)));
        }
        sealing
    }
}

/// Unlocking opens all items with what was sealed in them.
proof fn lemma_opened<C: KeyringCipher, P>(
    before: Seq<Item>,
    cipher: &C,
    sealing: Key,
    locked: Seq<Item>,
    keyring: PasswordUnlockedKeyring<P>,
    after: Seq<Item>,
    told: PasswordUnlockedKeyring<P>,
    outcome: Result<(), ServiceError>,
)
    requires
        faithful(cipher),
        sealed_with(cipher, before, sealing, locked),
        keyring.key is Some,
        same_key(sealing, keyring.key->0),
        relocks(locked, keyring, cipher, false, after, told, outcome),
    ensures
        outcome is Ok,
        after.len() == before.len(),
        forall|i: int| 0 <= i < after.len() ==> (#[trigger] after[i]).inner@ == before[i].inner@,
{
    if locked.len() > 0 {
        let answer = choose|answer: Result<Key, CryptoError>| #[trigger]
            unlocked_key(keyring, cipher, told, answer) && match answer {
                Ok(k) => match outcome {
                    Ok(_) => relocked_until(
                        cipher,
                        locked,
                        &k,
                        false,
                        locked.len() as int,
                        after,
                    ),
                    Err(_) => exists|n: int, e: FileError|
                        n < locked.len() && #[trigger] relocked_until(
                            cipher,
                            locked,
                            &k,
                            false,
                            n,
                            after,
                        ) && #[trigger] item_relocked(
                            cipher,
                            locked[n].inner,
                            &k,
                            false,
                            Err(e),
                        ),
                },
                Err(e) => false,
            };
        let k = answer->Ok_0;
        assert(same_key(sealing, k));
        match outcome {
            Ok(_) => {
                assert forall|i: int| 0 <= i < after.len() implies (#[trigger] after[i]).inner@
                    == before[i].inner@ by {
                    assert(relocked(cipher, locked[i], &k, false, after[i]));
                    assert(locked[i].inner is Locked);
                    lemma_opens_alike(
                        cipher,
                        before[i].inner->Unlocked_0,
                        locked[i].inner,
                        sealing,
                        &k,
                        Ok(after[i].inner),
                    );
                }
            },
            Err(_) => {
                let (n, e) = choose|n: int, e: FileError|
                    n < locked.len() && #[trigger] relocked_until(
                        cipher,
                        locked,
                        &k,
                        false,
                        n,
                        after,
                    ) && #[trigger] item_relocked(cipher, locked[n].inner, &k, false, Err(e));
                assert(locked[n].inner is Locked);
                lemma_opens_alike(
                    cipher,
                    before[n].inner->Unlocked_0,
                    locked[n].inner,
                    sealing,
                    &k,
                    Err(e),
                );
            },
        }
    }
}

proof fn lemma_opens_alike<C: KeyringCipher>(
    cipher: &C,
    plain: UnlockedItem,
    locked: FileItem,
    sealing: Key,
    key: &Key,
    outcome: Result<FileItem, FileError>,
)
    requires
        faithful(cipher),
        locked is Locked,
        encrypts(cipher, &plain, &sealing, Ok(locked->Locked_0.inner)),
        same_key(sealing, *key),
        item_relocked(cipher, locked, key, false, outcome),
    ensures
        outcome matches Ok(FileItem::Unlocked(again)) && again@ == plain@,
{
    let stored = locked->Locked_0.inner;
    let opened = choose|opened: Result<UnlockedItem, FileError>| #[trigger]
        decrypts(cipher, &stored, key, opened) && outcome == (match opened {
            Ok(item) => Ok::<FileItem, FileError>(FileItem::Unlocked(item)),
            Err(e) => Err(e),
        });
    assert(known(cipher, plain, stored, sealing));
}

/// A collection that was locked is unlocked again with the secret of its keyring. It shows the
/// items that it showed, at their paths and in the clear, and so does its keyring.
pub proof fn relocking_a_collection_keeps_its_items<C: KeyringCipher, P>(
    before: CollectionView<PasswordLockedKeyring<P>, PasswordUnlockedKeyring<P>>,
    cipher: &C,
    keyring: PasswordUnlockedKeyring<P>,
    key: Key,
    contents: Seq<UnlockedItemView>,
    locked: CollectionView<PasswordLockedKeyring<P>, PasswordUnlockedKeyring<P>>,
    secret: Secret,
    valid: Result<bool, FileError>,
    unlocked: Result<PasswordUnlockedKeyring<P>, FileError>,
    after: CollectionView<PasswordLockedKeyring<P>, PasswordUnlockedKeyring<P>>,
    outcome: Result<(), ServiceError>,
)
    requires
        faithful(cipher),
        honest(cipher),
        before.keyring == Some(
            KeyringState::<PasswordLockedKeyring<P>, PasswordUnlockedKeyring<P>>::Unlocked(keyring),
        ),
        all_unlocked(before.items),
        has_its_own_key(cipher, keyring),
        key_of_secret(cipher, keyring.inner.salt@, keyring.secret@, key),
        hold(cipher, keyring.inner.items@, key, contents),
        secret@ == keyring.secret@,
        locks(before, cipher, keyring, locked, Ok(())),
        locked.keyring matches Some(KeyringState::Locked(l)) ==> {
            &&& accepts(l.secret_rule(), cipher, &l.contents(), &secret, valid)
            &&& unlocks_with_secret(l, cipher, &secret, unlocked)
        },
        unlocked matches Ok(k) ==> installs(without_keyring(locked), cipher, k, after, outcome),
    ensures
        locked.is_locked(),
        valid == Ok::<bool, FileError>(true),
        unlocked is Ok,
        outcome is Ok,
        !after.is_locked(),
        all_unlocked(after.items),
        paths(after.items) == paths(before.items),
        forall|i: int|
            0 <= i < after.items.len() ==> (#[trigger] after.items[i]).inner@
                == before.items[i].inner@,
        after.keyring->0.contents() == keyring.contents(),
        after.keyring->0.file() == keyring.file(),
        forall|list: Seq<Result<FileItem, InvalidItemError>>| #[trigger]
            lists_opened(cipher, keyring.inner.items@, &unlocked->Ok_0.key->0, list) ==> shows_all(
                list,
                contents,
            ),
{
    locking_locks_everything(before, cipher, keyring, locked);
    let l = keyring.locked();
    held_items_open(cipher, keyring.inner.items@, key, contents, key);
    relocking_shows_the_same_items(keyring, cipher, key, contents, &secret, unlocked);
    let again = unlocked->Ok_0;
    let told = choose|told: PasswordUnlockedKeyring<P>| #[trigger]
        relocks(before.items, keyring, cipher, true, locked.items, told, Ok(()));
    let sealing = lemma_sealed(before.items, keyring, cipher, locked.items, told, key);
    let told_again = choose|told: PasswordUnlockedKeyring<P>| #[trigger]
        relocks(locked.items, again, cipher, false, after.items, told, outcome);
    lemma_opened(
        before.items,
        cipher,
        sealing,
        locked.items,
        again,
        after.items,
        told_again,
        outcome,
    );
    assert(outcome->Ok_0 == ());
    unlocking_unlocks_everything(without_keyring(locked), cipher, again, after);
}

} // verus!

//! What is left of a keyring when something fails.
use vstd::prelude::*;

use crate::attributes::Attributes;
use crate::crypto::error::Error as CryptoError;
use crate::crypto::gpg::SessionKey;
use crate::file::api::all_opened;
use crate::file::api::all_sealed;
use crate::file::api::decrypts;
use crate::file::api::encrypts;
use crate::file::api::hits_of;
use crate::file::api::made_room;
use crate::file::api::matched;
use crate::file::api::selected;
use crate::file::api::stored;
use crate::file::api::EncryptedItem;
use crate::file::api::Keyring;
use crate::file::api::KeyringCipher;
use crate::file::api::UnlockedItem;
use crate::file::api::UnlockedItemView;
use crate::file::call_laws::always_fails;
use crate::file::call_laws::password_keyring_has_no_key;
use crate::file::change_laws::lemma_part_sealed;
use crate::file::cipher::faithful;
use crate::file::cipher::having;
use crate::file::cipher::held_items_come_out;
use crate::file::cipher::hold;
use crate::file::cipher::indexing;
use crate::file::content_laws::a_deletion_goes_by_the_attributes;
use crate::file::error::Error;
use crate::file::gpg_keyring::GpgUnlockedKeyring;
use crate::file::keyring_laws::gpg_keyring_holds;
use crate::file::laws::a_selection_picks;
use crate::file::laws::picked;
use crate::file::laws::selection_is_exact;
use crate::file::password_keyring::PasswordUnlockedKeyring;
use crate::file::storage::Unsaved;
use crate::secret::Key;
use crate::secret::Secret;

verus! {

/// Whatever the cipher is asked, the item matches.
pub open spec fn always_matches<C: KeyringCipher>(
    cipher: &C,
    item: EncryptedItem,
    attributes: &Attributes,
    key: &Key,
) -> bool {
    forall|hit: bool| #[trigger]
        call_ensures(C::matches, (cipher, &item, attributes, key), hit) ==> hit
}

proof fn lemma_hit_fails<C: KeyringCipher>(
    cipher: &C,
    items: Seq<EncryptedItem>,
    attributes: &Attributes,
    key: &Key,
    hits: Seq<bool>,
    i: int,
    e: Error,
    outcome: Result<Seq<UnlockedItem>, Error>,
)
    requires
        0 <= i < items.len(),
        always_matches(cipher, items[i], attributes, key),
        always_fails(cipher, items[i], *key, e),
        hits_of(cipher, items, attributes, key, hits),
        all_opened(cipher, selected(items, hits, true), key, outcome),
    ensures
        outcome is Err,
{
    if let Ok(opened) = outcome {
        assert(matched(cipher, &items[i], attributes, key, hits[i]));
        assert(call_ensures(C::matches, (cipher, &items[i], attributes, key), hits[i]));
        selection_is_exact(items, hits, true);
        let hit = selected(items, hits, true);
        assert(hit.contains(items[i]));
        let g = choose|g: int| 0 <= g < hit.len() && hit[g] == items[i];
        assert(decrypts(cipher, &hit[g], key, Ok(opened[g])));
        assert(call_ensures(C::decrypt, (cipher, &items[i], key), Ok(opened[g])));
    }
}

/// Where an item matches that does not open, a search and a deletion fail. Such a deletion deletes
/// nothing.
pub proof fn what_does_not_open_is_neither_found_nor_deleted<C: KeyringCipher>(
    keyring: &mut Keyring,
    cipher: &C,
    attributes: &Attributes,
    key: &Key,
    i: int,
    e: Error,
    found: Result<Vec<UnlockedItem>, Error>,
    deleted: Result<(), Error>,
)
    requires
        0 <= i < old(keyring).items@.len(),
        always_matches(cipher, old(keyring).items@[i], attributes, key),
        always_fails(cipher, old(keyring).items@[i], *key, e),
    ensures
        call_ensures(
            Keyring::search_items::<C>,
            (&*old(keyring), cipher, attributes, key),
            found,
        ) ==> found is Err,
        call_ensures(Keyring::remove_items::<C>, (keyring, cipher, attributes, key), deleted)
            ==> deleted is Err && final(keyring).items@ == old(keyring).items@,
{
    let items = old(keyring).items@;
    if call_ensures(Keyring::search_items::<C>, (&*old(keyring), cipher, attributes, key), found)
        && found is Ok {
        let opened = found->Ok_0@;
        let hits = choose|hits: Seq<bool>| #[trigger]
            hits_of(cipher, items, attributes, key, hits) && all_opened(
                cipher,
                selected(items, hits, true),
                key,
                Ok(opened),
            );
        lemma_hit_fails(cipher, items, attributes, key, hits, i, e, Ok(opened));
    }
    if call_ensures(Keyring::remove_items::<C>, (keyring, cipher, attributes, key), deleted)
        && deleted is Ok {
        let hits = choose|hits: Seq<bool>| #[trigger]
            hits_of(cipher, items, attributes, key, hits) && exists|opened: Seq<UnlockedItem>|
             #[trigger]
                all_opened(cipher, selected(items, hits, true), key, Ok(opened));
        let opened = choose|opened: Seq<UnlockedItem>| #[trigger]
            all_opened(cipher, selected(items, hits, true), key, Ok(opened));
        lemma_hit_fails(cipher, items, attributes, key, hits, i, e, Ok(opened));
    }
}

/// An item that cannot be sealed is not stored, and the error of the cipher is told. The items that
/// it was to replace are gone by then, and no other.
pub proof fn what_cannot_be_sealed_is_not_stored<C: KeyringCipher>(
    keyring: &mut Keyring,
    cipher: &C,
    key: &Key,
    contents: Seq<UnlockedItemView>,
    label: &str,
    attributes: &Attributes,
    secret: Secret,
    replace: bool,
    e: Error,
    outcome: Result<UnlockedItem, Error>,
)
    requires
        faithful(cipher),
        indexing(cipher),
        hold(cipher, old(keyring).items@, *key, contents),
        forall|item: UnlockedItem, sealed: Result<EncryptedItem, Error>|
            item.label@ == label@ && item.attributes@ == attributes@ && item.secret@ == secret@
                && #[trigger] call_ensures(C::encrypt, (cipher, &item, key), sealed) ==> sealed
                == Err::<EncryptedItem, Error>(e),
        call_ensures(
            Keyring::create_item::<C>,
            (keyring, cipher, label, attributes, secret, replace, key),
            outcome,
        ),
    ensures
        outcome == Err::<UnlockedItem, Error>(e),
        exists|kept: Seq<UnlockedItemView>| #[trigger]
            hold(cipher, final(keyring).items@, *key, kept) && (if replace {
                picked(contents, having(contents, attributes@), false, kept)
            } else {
                kept == contents
            }),
{
    let new = UnlockedItemView { label: label@, attributes: attributes@, secret: secret@ };
    let before = old(keyring).items@;
    let after = final(keyring).items@;
    let (kept, room) = choose|kept: Seq<EncryptedItem>, room: Result<(), Error>| #[trigger]
        made_room(cipher, before, attributes, key, replace, kept, room) && match room {
            Ok(_) => stored(cipher, kept, new, key, after, outcome),
            Err(failed) => after == kept && outcome == Err::<UnlockedItem, Error>(failed),
        };
    if replace {
        a_deletion_goes_by_the_attributes(
            cipher,
            before,
            *key,
            contents,
            attributes,
            key,
            kept,
            room,
        );
        a_selection_picks(contents, having(contents, attributes@), false);
    }
    match outcome {
        Ok(item) => {
            assert(encrypts(cipher, &item, key, Ok(after.last())));
            assert(call_ensures(C::encrypt, (cipher, &item, key), Ok(after.last())));
            assert(item@ == new);
        },
        Err(failed) => {
            let item = choose|item: UnlockedItem|
                item@ == new && #[trigger] encrypts(cipher, &item, key, Err(failed));
            assert(call_ensures(C::encrypt, (cipher, &item, key), Err(failed)));
            assert(item@ == new);
        },
    }
}

/// A secret is not changed without the key that the items lie under, and the reason is told.
pub proof fn a_secret_is_not_changed_without_the_key<C: KeyringCipher, P>(
    keyring: &mut PasswordUnlockedKeyring<P>,
    cipher: &C,
    e: CryptoError,
    secret: Secret,
    outcome: Result<Unsaved<()>, Error>,
)
    requires
        password_keyring_has_no_key(cipher, *old(keyring), e),
        call_ensures(
            PasswordUnlockedKeyring::<P>::change_secret::<C>,
            (keyring, cipher, secret),
            outcome,
        ),
    ensures
        *final(keyring) == *old(keyring),
        outcome == Err::<Unsaved<()>, Error>(Error::Crypto(e)),
{
}

/// A rotation that fails keeps the key and the configuration. The items are as they were, or those
/// before the one that could not be sealed lie under the new key.
pub proof fn a_failed_rotation_keeps_the_key<C: KeyringCipher, N>(
    keyring: &mut GpgUnlockedKeyring<N>,
    cipher: &C,
    key: Key,
    contents: Seq<UnlockedItemView>,
    master_key: &SessionKey,
    encrypted: Result<Vec<u8>, CryptoError>,
    outcome: Result<(), Error>,
)
    requires
        faithful(cipher),
        gpg_keyring_holds(cipher, *old(keyring), key, contents),
        call_ensures(
            GpgUnlockedKeyring::<N>::rotate_key::<C>,
            (keyring, cipher, master_key, encrypted),
            outcome,
        ),
        outcome is Err,
    ensures
        final(keyring).key == old(keyring).key,
        final(keyring).inner.gpg_config == old(keyring).inner.gpg_config,
        final(keyring).inner.salt == old(keyring).inner.salt,
        final(keyring).path == old(keyring).path,
        final(keyring).gpg_key_id == old(keyring).gpg_key_id,
        *final(keyring) == *old(keyring) || exists|new_key: Key| #[trigger]
            hold(
                cipher,
                final(keyring).inner.items@,
                new_key,
                contents.take(final(keyring).inner.items@.len() as int),
            ) && new_key.bytes@ == master_key@ && final(keyring).inner.items@.len()
                < contents.len(),
{
    let before = *old(keyring);
    let after = *final(keyring);
    let held = before.key->0;
    if encrypted is Ok {
        let opened = choose|opened: Result<Seq<UnlockedItem>, Error>| #[trigger]
            all_opened(cipher, before.inner.items@, &held, opened) && match opened {
                Ok(items) => exists|new_key: Key| #[trigger]
                    all_sealed(cipher, items, &new_key, after.inner.items@, outcome)
                        && new_key@.bytes == master_key@,
                Err(_) => after == before,
            };
        held_items_come_out(cipher, before.inner.items@, key, contents, &held, opened);
        let items = opened->Ok_0;
        let new_key = choose|new_key: Key| #[trigger]
            all_sealed(cipher, items, &new_key, after.inner.items@, outcome) && new_key@.bytes
                == master_key@;
        lemma_part_sealed(cipher, items, &new_key, after.inner.items@, outcome, contents);
    }
}

} // verus!

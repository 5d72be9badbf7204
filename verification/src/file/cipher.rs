//! What a cipher has to do for the items of a keyring to be read back, found again and kept
//! from others. The laws on keyrings that need it say so.
use vstd::prelude::*;

use crate::attributes::Attributes;
use crate::crypto::error::Error as CryptoError;
use crate::file::api::all_opened;
use crate::file::api::all_sealed;
use crate::file::api::decrypts;
use crate::file::api::derives;
use crate::file::api::encrypts;
use crate::file::api::hits_of;
use crate::file::api::listed;
use crate::file::api::lists_attempt;
use crate::file::api::lists_opened;
use crate::file::api::matched;
use crate::file::api::opened_until;
use crate::file::api::selected;
use crate::file::api::EncryptedItem;
use crate::file::api::Item;
use crate::file::api::ItemView;
use crate::file::api::Keyring;
use crate::file::api::KeyringCipher;
use crate::file::api::UnlockedItem;
use crate::file::api::UnlockedItemView;
use crate::file::error::Error;
use crate::file::error::InvalidItemError;
use crate::secret::Key;
use crate::secret::Secret;

verus! {

/// The keys are made of the same bytes.
pub open spec fn same_key(a: Key, b: Key) -> bool {
    a@.bytes == b@.bytes
}

/// The item was sealed with the key as the stored one, or came out of it with the key.
pub open spec fn known<C: KeyringCipher>(
    cipher: &C,
    item: UnlockedItem,
    stored: EncryptedItem,
    key: Key,
) -> bool {
    ||| call_ensures(C::encrypt, (cipher, &item, &key), Ok(stored))
    ||| call_ensures(C::decrypt, (cipher, &stored, &key), Ok(item))
}

/// A cipher is faithful where it gives back what it sealed, and always opens an item in the
/// same way.
pub open spec fn faithful<C: KeyringCipher>(cipher: &C) -> bool {
    forall|
        item: UnlockedItem,
        stored: EncryptedItem,
        key: Key,
        same: Key,
        opened: Result<UnlockedItem, Error>,
    |
        #[trigger] known(cipher, item, stored, key) && #[trigger] call_ensures(
            C::decrypt,
            (cipher, &stored, &same),
            opened,
        ) && same_key(key, same) ==> (opened matches Ok(again) && again@ == item@)
}

/// A cipher is indexing where a stored item matches just the parts of its attributes, and
/// where more attributes match no more items.
pub open spec fn indexing<C: KeyringCipher>(cipher: &C) -> bool {
    &&& forall|
        item: UnlockedItem,
        stored: EncryptedItem,
        key: Key,
        same: Key,
        attributes: Attributes,
        hit: bool,
    |
        #[trigger] known(cipher, item, stored, key) && #[trigger] call_ensures(
            C::matches,
            (cipher, &stored, &attributes, &same),
            hit,
        ) && same_key(key, same) ==> hit == attributes@.submap_of(item.attributes@)
    &&& forall|
        stored: EncryptedItem,
        key: Key,
        same: Key,
        fewer: Attributes,
        more: Attributes,
        first: bool,
        second: bool,
    |
        #[trigger] call_ensures(C::matches, (cipher, &stored, &fewer, &key), first)
            && #[trigger] call_ensures(C::matches, (cipher, &stored, &more, &same), second)
            && same_key(key, same) && fewer@.submap_of(more@) && second ==> first
}

/// Whatever the cipher answers, the item opens with the key.
pub open spec fn opens<C: KeyringCipher>(cipher: &C, stored: EncryptedItem, key: Key) -> bool {
    forall|opened: Result<UnlockedItem, Error>| #[trigger]
        call_ensures(C::decrypt, (cipher, &stored, &key), opened) ==> opened is Ok
}

/// Whatever the cipher answers, the item does not open with the key.
pub open spec fn refuses<C: KeyringCipher>(cipher: &C, stored: EncryptedItem, key: Key) -> bool {
    forall|opened: Result<UnlockedItem, Error>| #[trigger]
        call_ensures(C::decrypt, (cipher, &stored, &key), opened) ==> opened is Err
}

/// All items open with the key.
pub open spec fn opens_all<C: KeyringCipher>(
    cipher: &C,
    items: Seq<EncryptedItem>,
    key: Key,
) -> bool {
    forall|i: int| 0 <= i < items.len() ==> opens(cipher, #[trigger] items[i], key)
}

/// There are items, and none of them opens with the key.
pub open spec fn refuses_all<C: KeyringCipher>(
    cipher: &C,
    items: Seq<EncryptedItem>,
    key: Key,
) -> bool {
    &&& items.len() > 0
    &&& forall|i: int| 0 <= i < items.len() ==> refuses(cipher, #[trigger] items[i], key)
}

/// The key is one that comes from a secret and a salt.
pub open spec fn key_of_secret<C: KeyringCipher>(
    cipher: &C,
    salt: Seq<u8>,
    secret: Seq<u8>,
    key: Key,
) -> bool {
    exists|keyring: Keyring, given: Secret, derived: Key| #[trigger]
        call_ensures(C::derive_key, (cipher, &keyring, &given), Ok(derived)) && keyring.salt@
            == salt && given@ == secret && same_key(derived, key)
}

/// A cipher is honest where it derives one key from a secret and a salt, and where it accepts
/// a key, or a secret by its key, that opens all items, and does not accept one that opens none.
pub open spec fn honest<C: KeyringCipher>(cipher: &C) -> bool {
    &&& forall|keyring: Keyring, secret: Secret, key: Key, derived: Result<Key, CryptoError>|
        #[trigger] key_of_secret(cipher, keyring.salt@, secret@, key) && #[trigger] call_ensures(
            C::derive_key,
            (cipher, &keyring, &secret),
            derived,
        ) ==> (derived matches Ok(k) && same_key(key, k))
    &&& forall|keyring: Keyring, key: Key, valid: Result<(), Error>| #[trigger]
        call_ensures(C::validate_key, (cipher, &keyring, &key), valid) ==> {
            &&& opens_all(cipher, keyring.items@, key) ==> valid is Ok
            &&& refuses_all(cipher, keyring.items@, key) ==> valid is Err
        }
    &&& forall|keyring: Keyring, secret: Secret, key: Key, valid: Result<bool, CryptoError>|
        #[trigger] key_of_secret(cipher, keyring.salt@, secret@, key) && #[trigger]
        call_ensures(C::validate_secret, (cipher, &keyring, &secret), valid) ==> {
            &&& opens_all(cipher, keyring.items@, key) ==> valid == Ok::<bool, CryptoError>(true)
            &&& refuses_all(cipher, keyring.items@, key) ==> valid == Ok::<bool, CryptoError>(
                false,
            )
        }
}

/// A cipher is discerning where an item opens with no other key than that it was sealed with.
pub open spec fn discerning<C: KeyringCipher>(cipher: &C) -> bool {
    forall|
        item: UnlockedItem,
        stored: EncryptedItem,
        key: Key,
        other: Key,
        opened: Result<UnlockedItem, Error>,
    |
        #[trigger] call_ensures(C::encrypt, (cipher, &item, &key), Ok(stored))
            && #[trigger] call_ensures(C::decrypt, (cipher, &stored, &other), opened) && !same_key(
            key,
            other,
        ) ==> opened is Err
}

/// A cipher is settled where it always judges a key in the same way.
pub open spec fn settled<C: KeyringCipher>(cipher: &C) -> bool {
    forall|
        keyring: Keyring,
        one: Key,
        two: Key,
        first: Result<(), Error>,
        second: Result<(), Error>,
    |
        #[trigger] call_ensures(C::validate_key, (cipher, &keyring, &one), first)
            && #[trigger] call_ensures(C::validate_key, (cipher, &keyring, &two), second) && one@
            == two@ ==> first == second
}

/// The stored item holds the contents, under the key or one that is made of the same bytes.
pub open spec fn holds<C: KeyringCipher>(
    cipher: &C,
    stored: EncryptedItem,
    key: Key,
    contents: UnlockedItemView,
) -> bool {
    exists|item: UnlockedItem, sealing: Key| #[trigger]
        known(cipher, item, stored, sealing) && same_key(sealing, key) && item@ == contents
}

/// The stored items hold the contents, one for one, under the key.
pub open spec fn hold<C: KeyringCipher>(
    cipher: &C,
    items: Seq<EncryptedItem>,
    key: Key,
    contents: Seq<UnlockedItemView>,
) -> bool {
    &&& items.len() == contents.len()
    &&& forall|i: int|
        0 <= i < items.len() ==> holds(cipher, #[trigger] items[i], key, contents[i])
}

/// Items in the clear as plain values.
pub open spec fn plain_views(items: Seq<UnlockedItem>) -> Seq<UnlockedItemView> {
    items.map_values(|item: UnlockedItem| item@)
}

/// The entry lists an item in the clear with these contents.
pub open spec fn shows(entry: Result<Item, InvalidItemError>, contents: UnlockedItemView) -> bool {
    entry matches Ok(item) && item@ == ItemView::Unlocked(contents)
}

/// The list shows items in the clear with these contents, one for one.
pub open spec fn shows_all(
    list: Seq<Result<Item, InvalidItemError>>,
    contents: Seq<UnlockedItemView>,
) -> bool {
    &&& list.len() == contents.len()
    &&& forall|i: int| 0 <= i < list.len() ==> shows(#[trigger] list[i], contents[i])
}

/// Tells of each item whether it has the wanted attributes.
pub open spec fn having(
    contents: Seq<UnlockedItemView>,
    wanted: Map<Seq<char>, Seq<char>>,
) -> Seq<bool> {
    Seq::new(contents.len(), |i: int| wanted.submap_of(contents[i].attributes))
}

/// Items that were sealed hold what went into them.
pub proof fn sealed_items_hold<C: KeyringCipher>(
    cipher: &C,
    items: Seq<UnlockedItem>,
    key: &Key,
    sealed: Seq<EncryptedItem>,
)
    requires
        all_sealed(cipher, items, key, sealed, Ok(())),
    ensures
        hold(cipher, sealed, *key, plain_views(items)),
{
    assert forall|i: int| 0 <= i < sealed.len() implies holds(
        cipher,
        #[trigger] sealed[i],
        *key,
        plain_views(items)[i],
    ) by {
        assert(known(cipher, items[i], sealed[i], *key));
    }
}

/// Items that were opened hold what came out of them.
pub proof fn opened_items_hold<C: KeyringCipher>(
    cipher: &C,
    items: Seq<EncryptedItem>,
    key: &Key,
    opened: Seq<UnlockedItem>,
)
    requires
        all_opened(cipher, items, key, Ok(opened)),
    ensures
        hold(cipher, items, *key, plain_views(opened)),
{
    assert forall|i: int| 0 <= i < items.len() implies holds(
        cipher,
        #[trigger] items[i],
        *key,
        plain_views(opened)[i],
    ) by {
        assert(known(cipher, opened[i], items[i], *key));
    }
}

/// A faithful cipher opens an item with the contents that it holds.
pub proof fn what_is_held_comes_out<C: KeyringCipher>(
    cipher: &C,
    stored: EncryptedItem,
    key: Key,
    contents: UnlockedItemView,
    same: &Key,
    opened: Result<UnlockedItem, Error>,
)
    requires
        faithful(cipher),
        holds(cipher, stored, key, contents),
        same_key(key, *same),
        decrypts(cipher, &stored, same, opened),
    ensures
        opened matches Ok(item) && item@ == contents,
{
    let (item, sealing) = choose|item: UnlockedItem, sealing: Key| #[trigger]
        known(cipher, item, stored, sealing) && same_key(sealing, key) && item@ == contents;
    assert(known(cipher, item, stored, sealing));
}

/// A faithful cipher opens all items with the contents that they hold.
pub proof fn held_items_come_out<C: KeyringCipher>(
    cipher: &C,
    items: Seq<EncryptedItem>,
    key: Key,
    contents: Seq<UnlockedItemView>,
    same: &Key,
    outcome: Result<Seq<UnlockedItem>, Error>,
)
    requires
        faithful(cipher),
        hold(cipher, items, key, contents),
        same_key(key, *same),
        all_opened(cipher, items, same, outcome),
    ensures
        outcome matches Ok(opened) && plain_views(opened) == contents,
{
    match outcome {
        Ok(opened) => {
            assert forall|i: int| 0 <= i < opened.len() implies (#[trigger] opened[i])@
                == contents[i] by {
                assert(holds(cipher, items[i], key, contents[i]));
                what_is_held_comes_out(cipher, items[i], key, contents[i], same, Ok(opened[i]));
            }
            assert(plain_views(opened) =~= contents);
        },
        Err(e) => {
            let before = choose|before: Seq<UnlockedItem>| #[trigger]
                opened_until(cipher, items, same, before, e);
            let n = before.len() as int;
            assert(holds(cipher, items[n], key, contents[n]));
            what_is_held_comes_out(cipher, items[n], key, contents[n], same, Err(e));
        },
    }
}

/// With a faithful cipher, the list of the items shows what they hold.
pub proof fn held_items_are_shown<C: KeyringCipher>(
    cipher: &C,
    items: Seq<EncryptedItem>,
    key: Key,
    contents: Seq<UnlockedItemView>,
    same: &Key,
    list: Seq<Result<Item, InvalidItemError>>,
)
    requires
        faithful(cipher),
        hold(cipher, items, key, contents),
        same_key(key, *same),
        lists_opened(cipher, items, same, list),
    ensures
        shows_all(list, contents),
{
    assert forall|i: int| 0 <= i < list.len() implies shows(#[trigger] list[i], contents[i]) by {
        assert(lists_attempt(cipher, items[i], same, list[i]));
        let opened = choose|opened: Result<UnlockedItem, Error>| #[trigger]
            decrypts(cipher, &items[i], same, opened) && listed(items[i], opened, list[i]);
        assert(holds(cipher, items[i], key, contents[i]));
        what_is_held_comes_out(cipher, items[i], key, contents[i], same, opened);
    }
}

/// A faithful cipher opens all items whose contents are known.
pub proof fn held_items_open<C: KeyringCipher>(
    cipher: &C,
    items: Seq<EncryptedItem>,
    key: Key,
    contents: Seq<UnlockedItemView>,
    same: Key,
)
    requires
        faithful(cipher),
        hold(cipher, items, key, contents),
        same_key(key, same),
    ensures
        opens_all(cipher, items, same),
{
    assert forall|i: int| 0 <= i < items.len() implies opens(cipher, #[trigger] items[i], same) by {
        assert(holds(cipher, items[i], key, contents[i]));
        assert forall|opened: Result<UnlockedItem, Error>| #[trigger]
            decrypts(cipher, &items[i], &same, opened) implies opened is Ok by {
            what_is_held_comes_out(cipher, items[i], key, contents[i], &same, opened);
        }
    }
}

/// An indexing cipher tells of each item whether what it holds has the attributes.
pub proof fn hits_go_by_the_attributes<C: KeyringCipher>(
    cipher: &C,
    items: Seq<EncryptedItem>,
    key: Key,
    contents: Seq<UnlockedItemView>,
    attributes: &Attributes,
    same: &Key,
    hits: Seq<bool>,
)
    requires
        indexing(cipher),
        hold(cipher, items, key, contents),
        same_key(key, *same),
        hits_of(cipher, items, attributes, same, hits),
    ensures
        hits == having(contents, attributes@),
{
    assert forall|i: int| 0 <= i < hits.len() implies #[trigger] hits[i]
        == attributes@.submap_of(contents[i].attributes) by {
        assert(holds(cipher, items[i], key, contents[i]));
        let (item, sealing) = choose|item: UnlockedItem, sealing: Key| #[trigger]
            known(cipher, item, items[i], sealing) && same_key(sealing, key) && item@
                == contents[i];
        assert(matched(cipher, &items[i], attributes, same, hits[i]));
        assert(known(cipher, item, items[i], sealing));
    }
    assert(hits =~= having(contents, attributes@));
}

/// Selected items hold the selected contents.
pub proof fn selected_items_hold<C: KeyringCipher>(
    cipher: &C,
    items: Seq<EncryptedItem>,
    key: Key,
    contents: Seq<UnlockedItemView>,
    flags: Seq<bool>,
    wanted: bool,
)
    requires
        hold(cipher, items, key, contents),
    ensures
        hold(cipher, selected(items, flags, wanted), key, selected(contents, flags, wanted)),
    decreases items.len(),
{
    if items.len() > 0 {
        let rest = items.drop_last();
        assert forall|i: int| 0 <= i < rest.len() implies holds(
            cipher,
            #[trigger] rest[i],
            key,
            contents.drop_last()[i],
        ) by {
            assert(holds(cipher, items[i], key, contents[i]));
        }
        selected_items_hold(cipher, rest, key, contents.drop_last(), flags, wanted);
        let last = items.len() - 1;
        assert(holds(cipher, items[last], key, contents[last]));
    }
}

} // verus!

//! What the contents of a keyring do, call by call, with a cipher that does its job.
use vstd::prelude::*;

use crate::attributes::Attributes;
use crate::file::api::decrypts;
use crate::file::api::encrypts;
use crate::file::api::selected;
use crate::file::api::EncryptedItem;
use crate::file::api::Item;
use crate::file::api::Keyring;
use crate::file::api::KeyringCipher;
use crate::file::api::LockedItem;
use crate::file::api::UnlockedItem;
use crate::file::api::UnlockedItemView;
use crate::file::call_laws::all_listed_locked;
use crate::file::cipher::faithful;
use crate::file::cipher::having;
use crate::file::cipher::held_items_are_shown;
use crate::file::cipher::held_items_come_out;
use crate::file::cipher::hold;
use crate::file::cipher::holds;
use crate::file::cipher::indexing;
use crate::file::cipher::known;
use crate::file::cipher::plain_views;
use crate::file::cipher::same_key;
use crate::file::cipher::shows_all;
use crate::file::cipher::what_is_held_comes_out;
use crate::file::content_laws::a_deletion_goes_by_the_attributes;
use crate::file::content_laws::a_new_item_is_held;
use crate::file::content_laws::a_search_goes_by_the_attributes;
use crate::file::content_laws::contents_after;
use crate::file::error::Error;
use crate::file::error::InvalidItemError;
use crate::file::laws::a_selection_picks;
use crate::file::laws::picked;
use crate::secret::Key;
use crate::secret::Secret;
use crate::time::Timestamp;

verus! {

/// A new keyring has the salt and the time that it is given, and is empty. A keyring that is reset
/// has the new salt, and no items, and is otherwise as it was.
pub proof fn a_keyring_starts_empty(
    salt: Vec<u8>,
    now: Timestamp,
    keyring: Keyring,
    reset: &mut Keyring,
)
    ensures
        call_ensures(Keyring::new, (salt, now), keyring) ==> keyring.salt == salt
            && keyring.modified_time == now && keyring.items@.len() == 0
            && keyring.gpg_config is None,
        call_ensures(Keyring::reset, (reset, salt), ()) ==> final(reset).salt == salt && final(
            reset).items@.len() == 0 && final(reset).modified_time == old(reset).modified_time
            && final(reset).gpg_config == old(reset).gpg_config,
{
}

/// An item in the clear has the label, the attributes and the secret that it is given. A copy has
/// what the original has.
pub proof fn an_item_has_what_it_is_given(
    label: &str,
    attributes: &Attributes,
    secret: Secret,
    item: UnlockedItem,
    again: UnlockedItem,
    stored: EncryptedItem,
    twin: EncryptedItem,
    one: Item,
    two: Item,
    locked: bool,
    names: Vec<String>,
)
    ensures
        call_ensures(UnlockedItem::new, (label, attributes, secret), item) ==> item.label@ == label@
            && item.attributes@ == attributes@ && item.secret@ == secret@,
        call_ensures(UnlockedItem::duplicate, (&item,), again) ==> again.label@ == item.label@
            && again.attributes@ == item.attributes@ && again.secret@ == item.secret@,
        call_ensures(EncryptedItem::duplicate, (&stored,), twin) ==> twin.blob@ == stored.blob@
            && twin.hashed_attributes@.len() == stored.hashed_attributes@.len() && forall|i: int|
            0 <= i < twin.hashed_attributes@.len() ==> (#[trigger] twin.hashed_attributes@[i]).0@
                == stored.hashed_attributes@[i].0@ && twin.hashed_attributes@[i].1@
                == stored.hashed_attributes@[i].1@,
        call_ensures(Item::duplicate, (&one,), two) ==> match (one, two) {
            (Item::Unlocked(a), Item::Unlocked(b)) => a.label@ == b.label@ && a.attributes@
                == b.attributes@ && a.secret@ == b.secret@,
            (Item::Locked(a), Item::Locked(b)) => a.inner.blob@ == b.inner.blob@
                && a.inner@.hashed_attributes == b.inner@.hashed_attributes,
            _ => false,
        },
        call_ensures(Item::is_locked, (&one,), locked) ==> (locked <==> one is Locked),
        call_ensures(EncryptedItem::attribute_names, (&stored,), names) ==> names@.len()
            == stored.hashed_attributes@.len() && forall|i: int|
            0 <= i < names@.len() ==> (#[trigger] names@[i])@ == stored.hashed_attributes@[i].0@,
{
    if call_ensures(EncryptedItem::duplicate, (&stored,), twin) {
        let a = twin@.hashed_attributes;
        let b = stored@.hashed_attributes;
        assert(a == b && a.len() == twin.hashed_attributes@.len() && b.len()
            == stored.hashed_attributes@.len());
        assert forall|i: int| 0 <= i < twin.hashed_attributes@.len() implies (
        #[trigger] twin.hashed_attributes@[i]).0@ == stored.hashed_attributes@[i].0@
            && twin.hashed_attributes@[i].1@ == stored.hashed_attributes@[i].1@ by {
            assert(a[i] == b[i]);
        }
    }
    if call_ensures(EncryptedItem::attribute_names, (&stored,), names) {
        let shown = names@.map_values(|n: String| n@);
        assert(shown == stored.names());
        assert(shown.len() == names@.len());
        assert forall|i: int| 0 <= i < names@.len() implies (#[trigger] names@[i])@
            == stored.hashed_attributes@[i].0@ by {
            assert(shown[i] == stored.names()[i]);
        }
    }
}

/// An item in the clear is matched by attributes that it has, each with its value, and by no other.
/// With a cipher that does its job, a locked one is matched in the same way.
pub proof fn an_item_is_matched_by_its_attributes<C: KeyringCipher>(
    item: Item,
    cipher: &C,
    attributes: &Attributes,
    key: &Key,
    contents: UnlockedItemView,
    hit: bool,
)
    requires
        indexing(cipher),
        match item {
            Item::Unlocked(plain) => plain@ == contents,
            Item::Locked(stored) => holds(cipher, stored.inner, *key, contents),
        },
        call_ensures(Item::matches_attributes::<C>, (&item, cipher, attributes, key), hit),
    ensures
        hit <==> forall|name: Seq<char>| #[trigger]
            attributes@.contains_key(name) ==> contents.attributes.contains_key(name)
                && contents.attributes[name] == attributes@[name],
{
    let wanted = attributes@;
    let all = contents.attributes;
    if let Item::Locked(stored) = item {
        let (plain, sealing) = choose|plain: UnlockedItem, sealing: Key| #[trigger]
            known(cipher, plain, stored.inner, sealing) && same_key(sealing, *key) && plain@
                == contents;
        assert(known(cipher, plain, stored.inner, sealing));
        assert(call_ensures(C::matches, (cipher, &stored.inner, attributes, key), hit));
    }
    assert(hit == wanted.submap_of(all));
    if hit {
        assert forall|name: Seq<char>| #[trigger] wanted.contains_key(name) implies all.contains_key(
            name,
        ) && all[name] == wanted[name] by {
            assert(wanted.submap_of(all));
            if !all.dom().contains(name) {
                assert(wanted.dom().contains(name) ==> all.dom().contains(name));
            }
        }
    }
    if forall|name: Seq<char>| #[trigger]
        wanted.contains_key(name) ==> all.contains_key(name) && all[name] == wanted[name] {
        assert forall|name: Seq<char>| #[trigger] wanted.dom().contains(name) implies
            #[trigger] all.dom().contains(name) && wanted[name] == all[name] by {
            assert(wanted.contains_key(name));
        }
        assert(wanted.submap_of(all));
    }
}

/// An item that is locked lies sealed with what it had, and one that is unlocked has what lay in
/// it. One that is as wanted already is left alone.
pub proof fn an_item_keeps_what_it_has_when_relocked<C: KeyringCipher>(
    item: Item,
    cipher: &C,
    key: &Key,
    contents: UnlockedItemView,
    locked: bool,
    outcome: Result<Option<Item>, Error>,
)
    requires
        faithful(cipher),
        match item {
            Item::Unlocked(plain) => plain@ == contents,
            Item::Locked(stored) => holds(cipher, stored.inner, *key, contents),
        },
        call_ensures(Item::relock::<C>, (&item, cipher, key, locked), outcome),
    ensures
        (item is Locked) == locked ==> (outcome matches Ok(None)) || (outcome matches Ok(Some(same))
            && same == item),
        item is Unlocked && locked ==> match outcome {
            Ok(Some(Item::Locked(stored))) => holds(cipher, stored.inner, *key, contents),
            Ok(_) => false,
            Err(e) => call_ensures(C::encrypt, (cipher, &item->Unlocked_0, key), Err(e)),
        },
        item is Locked && !locked ==> (outcome matches Ok(Some(Item::Unlocked(plain))) && plain@
            == contents),
{
    match item {
        Item::Unlocked(plain) => {
            if locked {
                let answer = match outcome {
                    Ok(Some(i)) => Ok::<Item, Error>(i),
                    Ok(None) => Ok::<Item, Error>(item),
                    Err(e) => Err(e),
                };
                let sealed = choose|sealed: Result<EncryptedItem, Error>| #[trigger]
                    encrypts(cipher, &plain, key, sealed) && answer == (match sealed {
                        Ok(inner) => Ok::<Item, Error>(Item::Locked(LockedItem { inner })),
                        Err(e) => Err(e),
                    });
                if let Ok(inner) = sealed {
                    assert(known(cipher, plain, inner, *key));
                }
            }
        },
        Item::Locked(stored) => {
            if !locked {
                let answer = match outcome {
                    Ok(Some(i)) => Ok::<Item, Error>(i),
                    Ok(None) => Ok::<Item, Error>(item),
                    Err(e) => Err(e),
                };
                let opened = choose|opened: Result<UnlockedItem, Error>| #[trigger]
                    decrypts(cipher, &stored.inner, key, opened) && answer == (match opened {
                        Ok(plain) => Ok::<Item, Error>(Item::Unlocked(plain)),
                        Err(e) => Err(e),
                    });
                what_is_held_comes_out(cipher, stored.inner, *key, contents, key, opened);
            }
        },
    }
}

/// The contents are listed locked as they are stored. With their key they are listed, opened,
/// searched, created and deleted as what they hold.
pub proof fn the_contents_are_what_they_hold<C: KeyringCipher>(
    keyring: &mut Keyring,
    cipher: &C,
    key: &Key,
    contents: Seq<UnlockedItemView>,
    attributes: &Attributes,
    label: &str,
    secret: Secret,
    replace: bool,
    locked: Vec<Result<Item, InvalidItemError>>,
    list: Vec<Result<Item, InvalidItemError>>,
    all: Result<Vec<UnlockedItem>, Error>,
    found: Result<Vec<UnlockedItem>, Error>,
    deleted: Result<(), Error>,
    created: Result<UnlockedItem, Error>,
)
    requires
        faithful(cipher),
        indexing(cipher),
        hold(cipher, old(keyring).items@, *key, contents),
    ensures
        call_ensures(Keyring::locked_items, (&*old(keyring),), locked) ==> all_listed_locked(
            old(keyring).items@,
            locked@,
        ),
        call_ensures(Keyring::open_items::<C>, (&*old(keyring), cipher, key), list) ==> shows_all(
            list@,
            contents,
        ),
        call_ensures(Keyring::open_all::<C>, (&*old(keyring), cipher, key), all) ==> (
        all matches Ok(items) && plain_views(items@) == contents),
        call_ensures(
            Keyring::search_items::<C>,
            (&*old(keyring), cipher, attributes, key),
            found,
        ) ==> (found matches Ok(items) && picked(
            contents,
            having(contents, attributes@),
            true,
            plain_views(items@),
        )),
        call_ensures(Keyring::remove_items::<C>, (keyring, cipher, attributes, key), deleted) ==> {
            &&& deleted is Ok
            &&& exists|kept: Seq<UnlockedItemView>| #[trigger]
                hold(cipher, final(keyring).items@, *key, kept) && picked(
                    contents,
                    having(contents, attributes@),
                    false,
                    kept,
                )
            &&& final(keyring).salt == old(keyring).salt && final(keyring).modified_time == old(
                keyring).modified_time && final(keyring).gpg_config == old(keyring).gpg_config
        },
        call_ensures(
            Keyring::create_item::<C>,
            (keyring, cipher, label, attributes, secret, replace, key),
            created,
        ) && created is Ok ==> {
            &&& created->Ok_0.label@ == label@ && created->Ok_0.attributes@ == attributes@
                && created->Ok_0.secret@ == secret@
            &&& exists|kept: Seq<UnlockedItemView>| #[trigger]
                hold(cipher, final(keyring).items@, *key, kept.push(created->Ok_0@)) && (
                if replace {
                    picked(contents, having(contents, attributes@), false, kept)
                } else {
                    kept == contents
                })
            &&& final(keyring).salt == old(keyring).salt && final(keyring).modified_time == old(
                keyring).modified_time && final(keyring).gpg_config == old(keyring).gpg_config
        },
{
    let items = old(keyring).items@;
    let flags = having(contents, attributes@);
    a_selection_picks(contents, flags, true);
    a_selection_picks(contents, flags, false);
    if call_ensures(Keyring::open_items::<C>, (&*old(keyring), cipher, key), list) {
        held_items_are_shown(cipher, items, *key, contents, key, list@);
    }
    if call_ensures(Keyring::open_all::<C>, (&*old(keyring), cipher, key), all) {
        let outcome = match all {
            Ok(opened) => Ok::<Seq<UnlockedItem>, Error>(opened@),
            Err(e) => Err(e),
        };
        held_items_come_out(cipher, items, *key, contents, key, outcome);
    }
    if call_ensures(Keyring::search_items::<C>, (&*old(keyring), cipher, attributes, key), found) {
        a_search_goes_by_the_attributes(
            cipher,
            *old(keyring),
            *key,
            contents,
            attributes,
            key,
            found,
        );
    }
    if call_ensures(Keyring::remove_items::<C>, (keyring, cipher, attributes, key), deleted) {
        a_deletion_goes_by_the_attributes(
            cipher,
            items,
            *key,
            contents,
            attributes,
            key,
            final(keyring).items@,
            deleted,
        );
    }
    if call_ensures(
        Keyring::create_item::<C>,
        (keyring, cipher, label, attributes, secret, replace, key),
        created,
    ) && created is Ok {
        let new = UnlockedItemView { label: label@, attributes: attributes@, secret: secret@ };
        let item = created->Ok_0;
        a_new_item_is_held(
            cipher,
            items,
            key,
            contents,
            new,
            attributes,
            replace,
            final(keyring).items@,
            item,
        );
        let kept = contents_after(contents, new, replace).drop_last();
        assert(kept.push(item@) =~= contents_after(contents, new, replace));
        assert(hold(cipher, final(keyring).items@, *key, kept.push(item@)));
        if !replace {
            assert(kept =~= contents);
        } else {
            assert(kept =~= selected(contents, flags, false));
        }
    }
}

/// Items that are sealed come behind those that are there, one for one, under the key.
pub proof fn sealed_items_come_behind<C: KeyringCipher>(
    keyring: &mut Keyring,
    cipher: &C,
    items: Vec<UnlockedItem>,
    key: &Key,
    i: int,
    outcome: Result<(), Error>,
)
    requires
        call_ensures(Keyring::seal_all::<C>, (keyring, cipher, &items, key), outcome),
    ensures
        outcome is Ok ==> final(keyring).items@.len() == old(keyring).items@.len() + items@.len(),
        0 <= i < old(keyring).items@.len() ==> final(keyring).items@[i] == old(keyring).items@[i],
        outcome is Ok && 0 <= i < items@.len() ==> holds(
            cipher,
            final(keyring).items@[old(keyring).items@.len() + i],
            *key,
            items@[i]@,
        ),
        final(keyring).salt == old(keyring).salt && final(keyring).modified_time == old(
            keyring).modified_time && final(keyring).gpg_config == old(keyring).gpg_config,
{
    let n = old(keyring).items@.len() as int;
    let after = final(keyring).items@;
    let sealed = after.skip(n);
    assert(after.take(n) == old(keyring).items@);
    if 0 <= i < n {
        assert(after.take(n)[i] == after[i]);
    }
    if outcome is Ok && 0 <= i < items@.len() {
        assert(encrypts(cipher, &items@[i], key, Ok(sealed[i])));
        assert(known(cipher, items@[i], sealed[i], *key));
        assert(sealed[i] == after[n + i]);
    }
}

} // verus!

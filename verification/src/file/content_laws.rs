//! What the items of a keyring hold after it was changed, and what a search finds then, with a
//! cipher that does its job.
use vstd::prelude::*;

use crate::attributes::Attributes;
use crate::file::api::all_opened;
use crate::file::api::created;
use crate::file::api::hits_of;
use crate::file::api::lists_opened;
use crate::file::api::made_room;
use crate::file::api::removed;
use crate::file::api::selected;
use crate::file::api::stored;
use crate::file::api::EncryptedItem;
use crate::file::api::Item;
use crate::file::api::Keyring;
use crate::file::api::KeyringCipher;
use crate::file::api::UnlockedItem;
use crate::file::api::UnlockedItemView;
use crate::file::cipher::faithful;
use crate::file::cipher::having;
use crate::file::cipher::held_items_are_shown;
use crate::file::cipher::held_items_come_out;
use crate::file::cipher::hits_go_by_the_attributes;
use crate::file::cipher::hold;
use crate::file::cipher::holds;
use crate::file::cipher::indexing;
use crate::file::cipher::known;
use crate::file::cipher::plain_views;
use crate::file::cipher::same_key;
use crate::file::cipher::selected_items_hold;
use crate::file::cipher::shows_all;
use crate::file::error::Error;
use crate::file::error::InvalidItemError;
use crate::file::laws::selection_is_exact;
use crate::file::traits::searched;
use crate::secret::Key;

verus! {

/// A search finds just the items that have the wanted attributes, in their order.
pub proof fn a_search_goes_by_the_attributes<C: KeyringCipher>(
    cipher: &C,
    keyring: Keyring,
    key: Key,
    contents: Seq<UnlockedItemView>,
    attributes: &Attributes,
    same: &Key,
    found: Result<Vec<UnlockedItem>, Error>,
)
    requires
        faithful(cipher),
        indexing(cipher),
        hold(cipher, keyring.items@, key, contents),
        same_key(key, *same),
        searched(cipher, keyring, attributes, same, found),
    ensures
        found matches Ok(list) && plain_views(list@) == selected(
            contents,
            having(contents, attributes@),
            true,
        ),
{
    let items = keyring.items@;
    let hits = choose|hits: Seq<bool>| #[trigger]
        hits_of(cipher, items, attributes, same, hits) && match found {
            Ok(opened) => all_opened(cipher, selected(items, hits, true), same, Ok(opened@)),
            Err(e) => all_opened(cipher, selected(items, hits, true), same, Err(e)),
        };
    hits_go_by_the_attributes(cipher, items, key, contents, attributes, same, hits);
    selected_items_hold(cipher, items, key, contents, hits, true);
    let outcome = match found {
        Ok(opened) => Ok::<Seq<UnlockedItem>, Error>(opened@),
        Err(e) => Err(e),
    };
    held_items_come_out(
        cipher,
        selected(items, hits, true),
        key,
        selected(contents, hits, true),
        same,
        outcome,
    );
}

/// A deletion succeeds, and leaves the items that lack one of the wanted attributes, in their
/// order. It leaves all of them where none has the attributes.
pub proof fn a_deletion_goes_by_the_attributes<C: KeyringCipher>(
    cipher: &C,
    before: Seq<EncryptedItem>,
    key: Key,
    contents: Seq<UnlockedItemView>,
    attributes: &Attributes,
    same: &Key,
    after: Seq<EncryptedItem>,
    outcome: Result<(), Error>,
)
    requires
        faithful(cipher),
        indexing(cipher),
        hold(cipher, before, key, contents),
        same_key(key, *same),
        removed(cipher, before, attributes, same, after, outcome),
    ensures
        outcome is Ok,
        after == selected(before, having(contents, attributes@), false),
        (forall|i: int| 0 <= i < contents.len() ==> !#[trigger] having(contents, attributes@)[i])
            ==> after == before,
        hold(
            cipher,
            after,
            key,
            selected(contents, having(contents, attributes@), false),
        ),
{
    let hits = choose|hits: Seq<bool>| #[trigger]
        hits_of(cipher, before, attributes, same, hits) && match outcome {
            Ok(_) => after == selected(before, hits, false),
            Err(e) => all_opened(cipher, selected(before, hits, true), same, Err(e)),
        };
    hits_go_by_the_attributes(cipher, before, key, contents, attributes, same, hits);
    selected_items_hold(cipher, before, key, contents, hits, true);
    selected_items_hold(cipher, before, key, contents, hits, false);
    selecting_none_or_all(before, hits, false);
    if let Err(e) = outcome {
        held_items_come_out(
            cipher,
            selected(before, hits, true),
            key,
            selected(contents, hits, true),
            same,
            Err(e),
        );
    }
}

/// What the items of a keyring hold once an item was created: what they held, without the items
/// that the new one replaces, and then the new one.
pub open spec fn contents_after(
    contents: Seq<UnlockedItemView>,
    new: UnlockedItemView,
    replace: bool,
) -> Seq<UnlockedItemView> {
    if replace {
        selected(contents, having(contents, new.attributes), false).push(new)
    } else {
        contents.push(new)
    }
}

/// A new item comes behind all others, which stay as they are, but for those that it replaces. It
/// lies under the key of the others, or one that is made of the same bytes.
pub proof fn a_new_item_is_held_under<C: KeyringCipher>(
    cipher: &C,
    before: Seq<EncryptedItem>,
    under: Key,
    key: &Key,
    contents: Seq<UnlockedItemView>,
    new: UnlockedItemView,
    attributes: &Attributes,
    replace: bool,
    after: Seq<EncryptedItem>,
    item: UnlockedItem,
)
    requires
        faithful(cipher),
        indexing(cipher),
        hold(cipher, before, under, contents),
        same_key(under, *key),
        attributes@ == new.attributes,
        created(cipher, before, new, attributes, key, replace, after, Ok(item)),
    ensures
        item@ == new,
        hold(cipher, after, under, contents_after(contents, new, replace)),
{
    let (kept, room) = choose|kept: Seq<EncryptedItem>, room: Result<(), Error>| #[trigger]
        made_room(cipher, before, attributes, key, replace, kept, room) && match room {
            Ok(_) => stored(cipher, kept, new, key, after, Ok(item)),
            Err(e) => false,
        };
    if replace {
        a_deletion_goes_by_the_attributes(
            cipher,
            before,
            under,
            contents,
            attributes,
            key,
            kept,
            room,
        );
    }
    let left = contents_after(contents, new, replace).drop_last();
    assert(left =~= if replace {
        selected(contents, having(contents, new.attributes), false)
    } else {
        contents
    });
    assert(hold(cipher, kept, under, left));
    let last = after.len() - 1;
    assert(known(cipher, item, after[last], *key));
    assert forall|i: int| 0 <= i < after.len() implies holds(
        cipher,
        #[trigger] after[i],
        under,
        contents_after(contents, new, replace)[i],
    ) by {
        if i < last {
            assert(after[i] == after.drop_last()[i]);
            assert(holds(cipher, kept[i], under, left[i]));
        }
    }
}

/// A new item comes behind all others, which stay as they are, but for those that it replaces.
pub proof fn a_new_item_is_held<C: KeyringCipher>(
    cipher: &C,
    before: Seq<EncryptedItem>,
    key: &Key,
    contents: Seq<UnlockedItemView>,
    new: UnlockedItemView,
    attributes: &Attributes,
    replace: bool,
    after: Seq<EncryptedItem>,
    item: UnlockedItem,
)
    requires
        faithful(cipher),
        indexing(cipher),
        hold(cipher, before, *key, contents),
        attributes@ == new.attributes,
        created(cipher, before, new, attributes, key, replace, after, Ok(item)),
    ensures
        item@ == new,
        hold(cipher, after, *key, contents_after(contents, new, replace)),
{
    a_new_item_is_held_under(
        cipher,
        before,
        *key,
        key,
        contents,
        new,
        attributes,
        replace,
        after,
        item,
    );
}

/// An item that was created is read back: the list of the items shows it behind all others.
pub proof fn a_new_item_is_read_back<C: KeyringCipher>(
    cipher: &C,
    before: Seq<EncryptedItem>,
    key: &Key,
    contents: Seq<UnlockedItemView>,
    new: UnlockedItemView,
    attributes: &Attributes,
    replace: bool,
    after: Seq<EncryptedItem>,
    item: UnlockedItem,
    list: Seq<Result<Item, InvalidItemError>>,
)
    requires
        faithful(cipher),
        indexing(cipher),
        hold(cipher, before, *key, contents),
        attributes@ == new.attributes,
        created(cipher, before, new, attributes, key, replace, after, Ok(item)),
        lists_opened(cipher, after, key, list),
    ensures
        shows_all(list, contents_after(contents, new, replace)),
{
    a_new_item_is_held(cipher, before, key, contents, new, attributes, replace, after, item);
    held_items_are_shown(
        cipher,
        after,
        *key,
        contents_after(contents, new, replace),
        key,
        list,
    );
}

/// Where no flag is as wanted, nothing is selected, and where all are, everything.
pub proof fn selecting_none_or_all<T>(s: Seq<T>, flags: Seq<bool>, wanted: bool)
    ensures
        (forall|i: int| 0 <= i < s.len() ==> #[trigger] flags[i] != wanted) ==> selected(
            s,
            flags,
            wanted,
        ) == Seq::<T>::empty(),
        (forall|i: int| 0 <= i < s.len() ==> #[trigger] flags[i] == wanted) ==> selected(
            s,
            flags,
            wanted,
        ) == s,
    decreases s.len(),
{
    if s.len() > 0 {
        selecting_none_or_all(s.drop_last(), flags, wanted);
        assert(s.drop_last().push(s.last()) =~= s);
    } else {
        assert(s =~= Seq::<T>::empty());
    }
}

/// Of the items that lack one of the wanted attributes, none has all of them.
proof fn lemma_none_left(contents: Seq<UnlockedItemView>, wanted: Map<Seq<char>, Seq<char>>)
    ensures
        ({
            let left = selected(contents, having(contents, wanted), false);
            forall|i: int| 0 <= i < left.len() ==> !#[trigger] having(left, wanted)[i]
        }),
{
    let flags = having(contents, wanted);
    let left = selected(contents, flags, false);
    selection_is_exact(contents, flags, false);
    assert forall|i: int| 0 <= i < left.len() implies !#[trigger] having(left, wanted)[i] by {
        let k = choose|k: int|
            0 <= k < contents.len() && flags[k] == false && #[trigger] contents[k] == left[i];
        assert(!wanted.submap_of(contents[k].attributes));
    }
}

/// A search by the attributes of an item that was created finds it, as the last. Where it
/// replaced the others with its attributes, the search finds it alone.
pub proof fn a_new_item_is_found<C: KeyringCipher>(
    cipher: &C,
    before: Seq<EncryptedItem>,
    key: &Key,
    contents: Seq<UnlockedItemView>,
    new: UnlockedItemView,
    attributes: &Attributes,
    replace: bool,
    after: Keyring,
    item: UnlockedItem,
    found: Result<Vec<UnlockedItem>, Error>,
)
    requires
        faithful(cipher),
        indexing(cipher),
        hold(cipher, before, *key, contents),
        attributes@ == new.attributes,
        created(cipher, before, new, attributes, key, replace, after.items@, Ok(item)),
        searched(cipher, after, attributes, key, found),
    ensures
        found matches Ok(list) && list@.len() > 0 && list@.last()@ == new && (replace
            ==> plain_views(list@) == seq![new]),
{
    let now = contents_after(contents, new, replace);
    a_new_item_is_held(
        cipher,
        before,
        key,
        contents,
        new,
        attributes,
        replace,
        after.items@,
        item,
    );
    a_search_goes_by_the_attributes(cipher, after, *key, now, attributes, key, found);
    let flags = having(now, attributes@);
    let left = now.drop_last();
    assert(now.last() == new);
    assert(flags[now.len() - 1]) by {
        assert(attributes@.submap_of(new.attributes));
    }
    let hit = selected(now, flags, true);
    assert(hit == selected(left, flags, true).push(new));
    let list = found->Ok_0@;
    assert(plain_views(list) == hit);
    assert(list.len() == hit.len());
    assert(plain_views(list)[list.len() - 1] == list[list.len() - 1]@);
    if replace {
        let others = selected(contents, having(contents, new.attributes), false);
        lemma_none_left(contents, new.attributes);
        assert(left =~= others);
        assert forall|i: int| 0 <= i < left.len() implies #[trigger] flags[i] != true by {
            assert(!having(others, new.attributes)[i]);
            assert(now[i] == others[i]);
        }
        selecting_none_or_all(left, flags, true);
        assert(hit =~= seq![new]);
    }
}

/// A search for what was deleted finds nothing. Deleting it again succeeds and changes nothing.
pub proof fn what_was_deleted_is_gone<C: KeyringCipher>(
    cipher: &C,
    before: Seq<EncryptedItem>,
    key: &Key,
    contents: Seq<UnlockedItemView>,
    attributes: &Attributes,
    after: Keyring,
    found: Result<Vec<UnlockedItem>, Error>,
    again: Seq<EncryptedItem>,
    outcome: Result<(), Error>,
)
    requires
        faithful(cipher),
        indexing(cipher),
        hold(cipher, before, *key, contents),
        removed(cipher, before, attributes, key, after.items@, Ok(())),
        searched(cipher, after, attributes, key, found),
        removed(cipher, after.items@, attributes, key, again, outcome),
    ensures
        found matches Ok(list) && list@.len() == 0,
        outcome is Ok,
        again == after.items@,
{
    a_deletion_goes_by_the_attributes(
        cipher,
        before,
        *key,
        contents,
        attributes,
        key,
        after.items@,
        Ok(()),
    );
    let left = selected(contents, having(contents, attributes@), false);
    lemma_none_left(contents, attributes@);
    let flags = having(left, attributes@);
    a_search_goes_by_the_attributes(cipher, after, *key, left, attributes, key, found);
    selecting_none_or_all(left, flags, true);
    assert(plain_views(found->Ok_0@).len() == 0);
    a_deletion_goes_by_the_attributes(
        cipher,
        after.items@,
        *key,
        left,
        attributes,
        key,
        again,
        outcome,
    );
    selecting_none_or_all(after.items@, flags, false);
}

} // verus!

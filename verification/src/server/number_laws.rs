//! The numbers of the items of a collection, over the whole of its life.
use vstd::prelude::*;

use crate::attributes::Attributes;
use crate::file::api::Item as FileItem;
use crate::file::api::KeyringCipher;
use crate::file::error::InvalidItemError;
use crate::file::traits::LockedKeyring;
use crate::file::traits::UnlockedKeyring;
use crate::object_path::child;
use crate::server::collection::applied;
use crate::server::collection::dispatches;
use crate::server::collection::searches;
use crate::server::collection::CollectionView;
use crate::server::creation::creates;
use crate::server::creation::creation;
use crate::server::error::ServiceError;
use crate::server::item::Item;
use crate::server::laws::children_are_distinct;
use crate::server::laws::creation_does_what_it_says;
use crate::server::laws::dispatching_numbers_the_items;
use crate::server::script::Action;
use crate::server::unlocking::installs;
use crate::server::unlocking::locks;
use crate::server::unlocking::without_keyring;
use crate::time::Timestamp;

verus! {

/// A change that gives no path to an item: the collection stays where it is, and the number of
/// its next item stays the same.
pub open spec fn gives_none<L, U>(
    before: CollectionView<L, U>,
    after: CollectionView<L, U>,
) -> bool {
    after.path == before.path && after.item_index == before.item_index
}

/// The change gives this path to a new item.
pub open spec fn gives<C: KeyringCipher, L: LockedKeyring, U: UnlockedKeyring<L>>(
    before: CollectionView<L, U>,
    cipher: &C,
    after: CollectionView<L, U>,
    path: String,
) -> bool {
    before.item_index < u32::MAX && exists|
        inner: FileItem,
        attributes: Attributes,
        replace: bool,
        script: Seq<Action>,
    | #[trigger]
        creates(before, cipher, inner, &attributes, replace, after, path, script)
}

/// The change between two states of the collection gives a path to a new item, or none.
pub open spec fn goes_on<C: KeyringCipher, L: LockedKeyring, U: UnlockedKeyring<L>>(
    cipher: &C,
    states: Seq<CollectionView<L, U>>,
    i: int,
) -> bool {
    ||| gives_none(states[i], states[i + 1])
    ||| exists|path: String| #[trigger] gives(states[i], cipher, states[i + 1], path)
}

/// The states of a collection, one after the other. All items were dispatched before the first.
pub open spec fn is_history<C: KeyringCipher, L: LockedKeyring, U: UnlockedKeyring<L>>(
    cipher: &C,
    states: Seq<CollectionView<L, U>>,
) -> bool {
    forall|i: int| 0 <= i < states.len() - 1 ==> #[trigger] goes_on(cipher, states, i)
}

/// The script does not set the number of the next item.
pub open spec fn sets_no_number(script: Seq<Action>) -> bool {
    forall|i: int| 0 <= i < script.len() ==> !((#[trigger] script[i]) is SetIndex)
}

/// Carrying out a script that does not set the number gives no path.
pub proof fn scripts_give_no_path<L, U>(
    c: CollectionView<L, U>,
    script: Seq<Action>,
    now: Timestamp,
)
    requires
        sets_no_number(script),
    ensures
        gives_none(c, applied(c, script, now)),
    decreases script.len(),
{
    if script.len() > 0 {
        let rest = script.drop_last();
        assert forall|i: int| 0 <= i < rest.len() implies !((#[trigger] rest[i]) is SetIndex) by {
            assert(rest[i] == script[i]);
        }
        scripts_give_no_path(c, rest, now);
        assert(!(script[script.len() - 1] is SetIndex));
    }
}

/// Searching a collection, locking it, taking its keyring out or into use, setting its label or
/// its alias, and bringing a new item into it give no path to an item. Only the creation of an
/// item does.
pub proof fn only_a_creation_gives_a_path<
    C: KeyringCipher,
    L: LockedKeyring,
    U: UnlockedKeyring<L>,
>(
    before: CollectionView<L, U>,
    cipher: &C,
    attributes: &Attributes,
    found: Result<Seq<bool>, ServiceError>,
    keyring: U,
    outcome: Result<(), ServiceError>,
    replaced: Seq<String>,
    item: Item,
    now: Timestamp,
    after: CollectionView<L, U>,
)
    ensures
        searches(before, cipher, attributes, after, found) ==> gives_none(before, after),
        locks(before, cipher, keyring, after, outcome) ==> gives_none(before, after),
        installs(before, cipher, keyring, after, outcome) ==> gives_none(before, after),
        gives_none(before, without_keyring(before)),
        after == (CollectionView {
            items: after.items,
            label: after.label,
            modified: after.modified,
            alias: after.alias,
            keyring: after.keyring,
            ..before
        }) ==> gives_none(before, after),
        gives_none(before, applied(before, creation(replaced, item), now)),
{
    creation_does_what_it_says(before, replaced, item, now);
}

/// The number of the next item never falls, and the path of the collection stays.
proof fn lemma_numbers_grow<C: KeyringCipher, L: LockedKeyring, U: UnlockedKeyring<L>>(
    cipher: &C,
    states: Seq<CollectionView<L, U>>,
    i: int,
    j: int,
)
    requires
        is_history(cipher, states),
        0 <= i <= j < states.len(),
    ensures
        states[j].path == states[i].path,
        states[j].item_index >= states[i].item_index,
    decreases j - i,
{
    if i < j {
        lemma_numbers_grow(cipher, states, i, j - 1);
        assert(goes_on(cipher, states, j - 1));
        if !gives_none(states[j - 1], states[j]) {
            let path = choose|path: String| #[trigger]
                gives(states[j - 1], cipher, states[j], path);
            lemma_given(states[j - 1], cipher, states[j], path);
        }
    }
}

/// The path that is given is that of the next number.
proof fn lemma_given<C: KeyringCipher, L: LockedKeyring, U: UnlockedKeyring<L>>(
    before: CollectionView<L, U>,
    cipher: &C,
    after: CollectionView<L, U>,
    path: String,
)
    requires
        gives(before, cipher, after, path),
    ensures
        path@ == child(before.path, before.item_index as nat),
        after.path == before.path,
        after.item_index == before.item_index + 1,
{
}

/// The path of an item is never given again, also after the item was deleted or replaced: of two
/// items, the one that was created later has the higher number.
pub proof fn a_path_is_given_once<C: KeyringCipher, L: LockedKeyring, U: UnlockedKeyring<L>>(
    cipher: &C,
    states: Seq<CollectionView<L, U>>,
    i: int,
    first: String,
    j: int,
    second: String,
)
    requires
        is_history(cipher, states),
        0 <= i < j < states.len() - 1,
        gives(states[i], cipher, states[i + 1], first),
        gives(states[j], cipher, states[j + 1], second),
    ensures
        first@ == child(states[0].path, states[i].item_index as nat),
        second@ == child(states[0].path, states[j].item_index as nat),
        states[i].item_index < states[j].item_index,
        first@ != second@,
{
    lemma_given(states[i], cipher, states[i + 1], first);
    lemma_given(states[j], cipher, states[j + 1], second);
    lemma_numbers_grow(cipher, states, 0, i);
    lemma_numbers_grow(cipher, states, i + 1, j);
    if first@ == second@ {
        children_are_distinct(
            states[0].path,
            states[i].item_index as nat,
            states[j].item_index as nat,
        );
    }
}

/// The path of an item that was dispatched is never given again: an item that is created later
/// has a higher number than all of them.
pub proof fn dispatched_paths_are_not_given_again<
    C: KeyringCipher,
    L: LockedKeyring,
    U: UnlockedKeyring<L>,
>(
    c: CollectionView<L, U>,
    list: Seq<Result<FileItem, InvalidItemError>>,
    script: Seq<Action>,
    now: Timestamp,
    cipher: &C,
    states: Seq<CollectionView<L, U>>,
    j: int,
    path: String,
)
    requires
        c.items.len() == 0,
        list.len() < u32::MAX,
        dispatches(c.path, list, script),
        forall|i: int| 0 <= i < list.len() ==> (#[trigger] list[i]) is Ok,
        is_history(cipher, states),
        0 <= j < states.len() - 1,
        states[0] == applied(c, script, now),
        gives(states[j], cipher, states[j + 1], path),
    ensures
        path@ == child(c.path, states[j].item_index as nat),
        states[j].item_index > list.len(),
        forall|i: int|
            0 <= i < states[0].items.len() ==> (#[trigger] states[0].items[i]).path@ != path@,
{
    dispatching_numbers_the_items(c, list, script, now);
    lemma_scripts_stay(c, script, now);
    lemma_given(states[j], cipher, states[j + 1], path);
    lemma_numbers_grow(cipher, states, 0, j);
    assert forall|i: int| 0 <= i < states[0].items.len() implies (
    #[trigger] states[0].items[i]).path@ != path@ by {
        if states[0].items[i].path@ == path@ {
            children_are_distinct(c.path, (i + 1) as nat, states[j].item_index as nat);
        }
    }
}

/// Carrying out a script leaves the collection where it is.
proof fn lemma_scripts_stay<L, U>(
    c: CollectionView<L, U>,
    script: Seq<Action>,
    now: Timestamp,
)
    ensures
        applied(c, script, now).path == c.path,
    decreases script.len(),
{
    if script.len() > 0 {
        lemma_scripts_stay(c, script.drop_last(), now);
    }
}

} // verus!

//! What a single call on a collection gives, and what it leaves as it was.
use vstd::prelude::*;

use crate::attributes::Attributes;
use crate::crypto::error::Error as CryptoError;
use crate::file::api::selected;
use crate::file::api::Item as FileItem;
use crate::file::api::KeyringCipher;
use crate::file::error::Error as FileError;
use crate::file::laws::a_selection_picks;
use crate::file::laws::picked;
use crate::file::storage::Unsaved;
use crate::file::traits::key_answer;
use crate::file::traits::LockedKeyring;
use crate::file::traits::UnlockedKeyring;
use crate::object_path::is_object_path;
use crate::secret::Key;
use crate::server::collection::applied;
use crate::server::collection::finish_item_deletion;
use crate::server::collection::is_first_at;
use crate::server::collection::is_key_failure;
use crate::server::collection::paths;
use crate::server::collection::searches;
use crate::server::collection::unlocked_key;
use crate::server::collection::views;
use crate::server::collection::Collection;
use crate::server::collection::CollectionView;
use crate::server::collection::KeyringState;
use crate::server::error::is_failure;
use crate::server::error::ServiceError;
use crate::server::item::Item;
use crate::server::laws::a_locked_collection_finds_nothing;
use crate::server::laws::all_unlocked;
use crate::server::laws::attributes_of;
use crate::server::laws::item_deletion_does_what_it_says;
use crate::server::laws::search_is_by_subset;
use crate::server::script::Action;
use crate::server::script::Place;
use crate::server::script::Request;
use crate::server::script::Signal;
use crate::server::script_laws::dropping_a_path_keeps_the_others;
use crate::server::script_laws::elsewhere;
use crate::time::Timestamp;

verus! {

/// The signals that a script emits, in its order.
pub open spec fn signals(script: Seq<Action>) -> Seq<Signal>
    decreases script.len(),
{
    if script.len() == 0 {
        seq![]
    } else {
        let before = signals(script.drop_last());
        match script.last() {
            Action::Ask(Request::Emit(signal)) => before.push(signal),
            _ => before,
        }
    }
}

/// The script asks for nothing but signals.
pub open spec fn only_signals(script: Seq<Action>) -> bool {
    forall|i: int|
        0 <= i < script.len() ==> match #[trigger] script[i] {
            Action::Ask(Request::Emit(_)) => true,
            Action::Ask(Request::OpenEmitter(_)) => true,
            Action::Ask(_) => false,
            Action::Fail(_) => false,
            _ => true,
        }
}

/// The collections differ in nothing but their items, the time of their last change and the number
/// of their next item.
pub open spec fn same_collection<L, U>(
    a: CollectionView<L, U>,
    b: CollectionView<L, U>,
) -> bool {
    &&& a.label == b.label && a.created == b.created && a.alias == b.alias
    &&& a.keyring == b.keyring && a.path == b.path
}

/// A new collection has the label, the alias and the keyring that it was given, and no items yet.
/// Its path is that of all collections and then a name, in which the letters and digits of ASCII
/// in the label stand for themselves and an underscore for anything else. It was changed when its
/// keyring was, and made when the file of the keyring was, where that is known.
pub proof fn a_collection_starts_as_it_is_told<L: LockedKeyring, U: UnlockedKeyring<L>>(
    label: &str,
    alias: &str,
    keyring: KeyringState<L, U>,
    file_created: Option<Timestamp>,
    collection: Collection<L, U>,
)
    requires
        label@.len() > 0,
        call_ensures(
            Collection::<L, U>::new,
            (label, alias, keyring, file_created),
            collection,
        ),
    ensures
        collection.items@.len() == 0,
        collection.label@ == label@,
        collection.alias@ == alias@,
        collection.keyring == Some(keyring),
        collection.item_index == 0,
        is_object_path(collection.path@),
        collection.path@.len() == 36 + label@.len(),
        collection.path@.take(36) == "/org/freedesktop/secrets/collection/"@,
        forall|i: int|
            0 <= i < label@.len() ==> collection.path@[36 + i] == (if ('A' <= label@[i] && label@[i]
                <= 'Z') || ('a' <= label@[i] && label@[i] <= 'z') || ('0' <= label@[i] && label@[i]
                <= '9') {
                #[trigger] label@[i]
            } else {
                '_'
            }),
        match keyring {
            KeyringState::Locked(k) => {
                &&& collection.modified == k.contents().modified_time
                &&& collection.created == (if k.file() is Some && file_created is Some {
                    file_created->0
                } else {
                    k.contents().modified_time
                })
            },
            KeyringState::Unlocked(k) => {
                &&& collection.modified == k.contents().modified_time
                &&& collection.created == (if k.file() is Some && file_created is Some {
                    file_created->0
                } else {
                    k.contents().modified_time
                })
            },
        },
{
    reveal_strlit("/org/freedesktop/secrets/collection/");
    let prefix = "/org/freedesktop/secrets/collection/"@;
    assert(prefix.len() == 36);
    assert(collection@.path == collection.path@);
    assert(collection.path@.take(36) =~= prefix);
}

/// A collection tells what it has: its label, its alias, its path, its times in whole seconds, and
/// the paths of its items, in their order.
pub proof fn a_collection_tells_what_it_has<L, U>(
    collection: Collection<L, U>,
    text: String,
    path: &String,
    secs: u64,
    list: Vec<String>,
    locked: bool,
)
    ensures
        call_ensures(Collection::<L, U>::label, (&collection,), text) ==> text@
            == collection.label@,
        call_ensures(Collection::<L, U>::alias, (&collection,), text) ==> text@
            == collection.alias@,
        call_ensures(Collection::<L, U>::path, (&collection,), path) ==> path@ == collection.path@,
        call_ensures(Collection::<L, U>::created_at, (&collection,), secs) ==> secs
            == collection.created.secs,
        call_ensures(Collection::<L, U>::modified_at, (&collection,), secs) ==> secs
            == collection.modified.secs,
        call_ensures(Collection::<L, U>::items, (&collection,), list) ==> list@.len()
            == collection.items@.len() && forall|i: int|
            0 <= i < list@.len() ==> (#[trigger] list@[i])@ == collection.items@[i].path@,
        call_ensures(Collection::<L, U>::is_locked, (&collection,), locked) ==> locked == (
        match collection.keyring {
            Some(KeyringState::Unlocked(_)) => false,
            Some(KeyringState::Locked(_)) => true,
            None => true,
        }),
{
}

/// Setting the alias sets the alias, and nothing else.
pub proof fn an_alias_is_set<L, U>(collection: &mut Collection<L, U>, alias: &str)
    requires
        call_ensures(Collection::<L, U>::set_alias, (collection, alias), ()),
    ensures
        final(collection).alias@ == alias@,
        final(collection)@.label == old(collection)@.label,
        final(collection)@.items == old(collection)@.items,
        final(collection)@.created == old(collection)@.created,
        final(collection)@.modified == old(collection)@.modified,
        final(collection)@.keyring == old(collection)@.keyring,
        final(collection)@.item_index == old(collection)@.item_index,
        final(collection)@.path == old(collection)@.path,
{
}

/// The item that is found at a path is the first one there, and none is found just where none is
/// there.
pub proof fn an_item_is_found_by_its_path<L, U>(
    collection: Collection<L, U>,
    path: &String,
    found: Option<&Item>,
)
    requires
        call_ensures(Collection::<L, U>::item_from_path, (&collection, path), found),
    ensures
        found is None <==> forall|i: int|
            0 <= i < collection.items@.len() ==> (#[trigger] collection.items@[i]).path@ != path@,
        found matches Some(item) ==> item.path@ == path@ && exists|i: int|
            0 <= i < collection.items@.len() && #[trigger] collection.items@[i] == *item
                && forall|j: int|
                0 <= j < i ==> (#[trigger] collection.items@[j]).path@ != path@,
{
    if let Some(item) = found {
        let i = choose|i: int|
            0 <= i < collection@.items.len() && #[trigger] collection@.items[i] == *item
                && item.path@ == path@ && forall|j: int|
                0 <= j < i ==> (#[trigger] collection@.items[j]).path@ != path@;
        assert(collection.items@[i] == *item);
        assert(collection.items@[i].path@ == path@);
        assert forall|j: int| 0 <= j < i implies (#[trigger] collection.items@[j]).path@
            != path@ by {
            assert(collection@.items[j].path@ != path@);
        }
    } else {
        assert forall|i: int| 0 <= i < collection.items@.len() implies (
        #[trigger] collection.items@[i]).path@ != path@ by {
            assert(collection@.items[i].path@ != path@);
        }
    }
}

/// The label of an unlocked collection is set, with the time of the change, and the signals tell of
/// both and of the collection. That of a locked one is not.
pub proof fn a_label_is_set_and_told<L, U>(
    collection: &mut Collection<L, U>,
    label: &str,
    outcome: Result<Vec<Action>, ServiceError>,
    now: Timestamp,
)
    requires
        call_ensures(Collection::<L, U>::set_label, (collection, label), outcome),
    ensures
        match old(collection)@.keyring {
            Some(KeyringState::Unlocked(_)) => {
                &&& outcome matches Ok(script)
                &&& applied(final(collection)@, script@, now) == (CollectionView {
                    label: label@,
                    modified: now,
                    ..old(collection)@
                })
                &&& signals(script@) == seq![
                    Signal::ModifiedChanged,
                    Signal::CollectionChanged(old(collection).path),
                    Signal::LabelChanged,
                ]
                &&& only_signals(script@)
                &&& script@[0] is Touch
                &&& script@[1] == Action::Ask(Request::OpenEmitter(Place::Collection))
                &&& script@[3] == Action::Ask(Request::OpenEmitter(Place::Service))
                &&& script@[5] == Action::Ask(Request::OpenEmitter(Place::Collection))
            },
            _ => {
                &&& final(collection)@ == old(collection)@
                &&& outcome matches Err(ServiceError::Failed(text)) && text@
                    == "Cannot set label of a locked collection `"@ + old(collection).path@
                    + "`."@
            },
        },
{
    if outcome is Ok {
        let s = outcome->Ok_0@;
        let s6 = s.drop_last();
        let s5 = s6.drop_last();
        let s4 = s5.drop_last();
        let s3 = s4.drop_last();
        let s2 = s3.drop_last();
        let s1 = s2.drop_last();
        let s0 = s1.drop_last();
        let c = final(collection)@;
        assert(s0 =~= Seq::<Action>::empty());
        assert(applied(c, s0, now) == c && signals(s0) =~= seq![]);
        assert(s1.last() is Touch);
        let c1 = CollectionView { modified: now, ..c };
        assert(applied(c, s1, now) == c1 && signals(s1) =~= seq![]);
        assert(s2.last() is Ask);
        assert(applied(c, s2, now) == c1 && signals(s2) =~= seq![]);
        assert(s3.last() == Action::Ask(Request::Emit(Signal::ModifiedChanged)));
        assert(applied(c, s3, now) == c1 && signals(s3) =~= seq![Signal::ModifiedChanged]);
        assert(s4.last() is Ask);
        assert(applied(c, s4, now) == c1 && signals(s4) =~= signals(s3));
        assert(s5.last() == Action::Ask(
            Request::Emit(Signal::CollectionChanged(old(collection).path)),
        ));
        assert(applied(c, s5, now) == c1);
        assert(signals(s5) =~= signals(s4).push(Signal::CollectionChanged(old(collection).path)));
        assert(s6.last() is Ask);
        assert(applied(c, s6, now) == c1 && signals(s6) =~= signals(s5));
        assert(s.last() == Action::Ask(Request::Emit(Signal::LabelChanged)));
        assert(applied(c, s, now) == c1);
        assert(signals(s) =~= signals(s6).push(Signal::LabelChanged));
    }
}

/// An item may be deleted where it is there and open, and its collection too. What the keyring is
/// asked to delete are its attributes.
pub proof fn an_item_is_deleted_by_its_attributes<L, U>(
    collection: Collection<L, U>,
    path: &String,
    i: int,
    outcome: Result<Attributes, ServiceError>,
)
    requires
        call_ensures(Collection::<L, U>::delete_item, (&collection, path), outcome),
    ensures
        (forall|j: int|
            0 <= j < collection.items@.len() ==> (#[trigger] collection.items@[j]).path@ != path@)
            ==> (outcome matches Err(ServiceError::NoSuchObject(text)) && text@ == "Item `"@ + path@
            + "` does not exist."@),
        0 <= i < collection.items@.len() && collection.items@[i].path@ == path@ && (forall|j: int|
            0 <= j < i ==> (#[trigger] collection.items@[j]).path@ != path@) ==> match (
            collection.items@[i].inner,
            collection.keyring,
            outcome,
        ) {
            (
                FileItem::Unlocked(item),
                Some(KeyringState::Unlocked(_)),
                Ok(attributes),
            ) => attributes@ == item.attributes@,
            (FileItem::Unlocked(_), Some(KeyringState::Unlocked(_)), _) => false,
            (FileItem::Locked(_), _, Err(ServiceError::IsLocked(text))) => text@
                == "Cannot delete a locked item `"@ + path@ + "`"@,
            (FileItem::Unlocked(_), _, Err(ServiceError::IsLocked(text))) => text@
                == "Cannot delete an item `"@ + path@ + "`  in a locked collection "@,
            _ => false,
        },
{
    let items = collection@.items;
    if 0 <= i < items.len() && items[i].path@ == path@ && (forall|j: int|
        0 <= j < i ==> (#[trigger] collection.items@[j]).path@ != path@) {
        assert(is_first_at(items, path@, i)) by {
            assert forall|j: int| 0 <= j < i implies (#[trigger] items[j]).path@ != path@ by {
                assert(collection.items@[j].path@ != path@);
            }
        }
        assert forall|k: int| #[trigger] is_first_at(items, path@, k) implies k == i by {
            if k < i {
                assert(items[k].path@ != path@);
            } else if i < k {
                assert(items[i].path@ != path@);
            }
        }
    } else if forall|j: int|
        0 <= j < collection.items@.len() ==> (#[trigger] collection.items@[j]).path@ != path@ {
        assert forall|k: int| !(#[trigger] is_first_at(items, path@, k)) by {
            if is_first_at(items, path@, k) {
                assert(collection.items@[k].path@ != path@);
            }
        }
    }
}

/// A deletion that was written takes the items at the path out of the collection, keeps all others
/// in their order, sets the time of the change, and tells of both. One that was not does nothing,
/// and tells why.
pub proof fn a_written_deletion_is_told<L, U>(
    c: CollectionView<L, U>,
    path: String,
    deleted: Result<Unsaved<()>, FileError>,
    written: Result<(), FileError>,
    outcome: Result<Vec<Action>, ServiceError>,
    now: Timestamp,
)
    requires
        call_ensures(finish_item_deletion, (&path, deleted, written), outcome),
    ensures
        match (deleted, written) {
            (Ok(_), Ok(_)) => {
                &&& outcome matches Ok(script)
                &&& ({
                    let after = applied(c, script@, now);
                    &&& picked(c.items, elsewhere(c.items, path@), true, after.items)
                    &&& after.modified == now && after.item_index == c.item_index
                    &&& same_collection(c, after)
                })
                &&& signals(script@) == seq![Signal::ModifiedChanged, Signal::ItemsChanged]
                &&& only_signals(script@)
                &&& script@[0] is Forget && script@[1] is Touch
                &&& script@[2] == Action::Ask(Request::OpenEmitter(Place::Collection))
                &&& script@[4] == Action::Ask(Request::OpenEmitter(Place::Collection))
            },
            (Err(e), _) => tells_failure(outcome, "Failed to deleted item "@, e, "."@),
            (Ok(_), Err(e)) => tells_failure(outcome, "Failed to deleted item "@, e, "."@),
        },
{
    if deleted is Ok && written is Ok {
        item_deletion_does_what_it_says(c, path, now);
        dropping_a_path_keeps_the_others(c.items, path@);
        let s = outcome->Ok_0@;
        assert(s =~= seq![
            Action::Forget(path),
            Action::Touch,
            Action::Ask(Request::OpenEmitter(Place::Collection)),
            Action::Ask(Request::Emit(Signal::ModifiedChanged)),
            Action::Ask(Request::OpenEmitter(Place::Collection)),
            Action::Ask(Request::Emit(Signal::ItemsChanged)),
        ]);
        let s5 = s.drop_last();
        let s4 = s5.drop_last();
        let s3 = s4.drop_last();
        let s2 = s3.drop_last();
        let s1 = s2.drop_last();
        assert(s1.drop_last() =~= Seq::<Action>::empty());
        assert(signals(s1.drop_last()) =~= seq![]);
        assert(signals(s1) =~= seq![]);
        assert(signals(s2) =~= seq![]);
        assert(signals(s3) =~= seq![]);
        assert(s4.last() == Action::Ask(Request::Emit(Signal::ModifiedChanged)));
        assert(signals(s4) =~= seq![Signal::ModifiedChanged]);
        assert(signals(s5) =~= signals(s4));
        assert(s.last() == Action::Ask(Request::Emit(Signal::ItemsChanged)));
        assert(signals(s) =~= signals(s5).push(Signal::ItemsChanged));
    }
}

/// The outcome is an error in the words of an error of a keyring, between two pieces of text.
pub open spec fn tells_failure<T>(
    outcome: Result<T, ServiceError>,
    before: Seq<char>,
    e: FileError,
    after: Seq<char>,
) -> bool {
    outcome matches Err(ServiceError::Failed(text)) && exists|shown: Seq<char>| #[trigger]
        e.shown(shown) && text@ == before + shown + after
}

/// Tells of each item in the clear whether it has the wanted attributes.
pub open spec fn matching_items(items: Seq<Item>, wanted: Map<Seq<char>, Seq<char>>) -> Seq<bool> {
    Seq::new(
        items.len(),
        |i: int|
            match items[i].inner {
                FileItem::Unlocked(item) => forall|name: Seq<char>| #[trigger]
                    wanted.contains_key(name) ==> item.attributes@.contains_key(name)
                        && item.attributes@[name] == wanted[name],
                FileItem::Locked(_) => false,
            },
    )
}

/// The hits of a search in the clear are the items that match.
pub proof fn lemma_hits<C: KeyringCipher, L: LockedKeyring, U: UnlockedKeyring<L>>(
    before: CollectionView<L, U>,
    cipher: &C,
    attributes: &Attributes,
    after: CollectionView<L, U>,
    hits: Seq<bool>,
)
    requires
        !before.is_locked(),
        all_unlocked(before.items),
        searches(before, cipher, attributes, after, Ok(hits)),
    ensures
        hits == matching_items(before.items, attributes@),
{
    search_is_by_subset(before, cipher, attributes, after, hits);
    assert forall|i: int| 0 <= i < hits.len() implies hits[i] == #[trigger] matching_items(
        before.items,
        attributes@,
    )[i] by {
        let item = before.items[i];
        assert(item.inner is Unlocked);
        let all = attributes_of(item);
        let wanted = attributes@;
        if wanted.submap_of(all) {
            assert forall|name: Seq<char>| #[trigger] wanted.contains_key(name) implies all
                .contains_key(name) && all[name] == wanted[name] by {
                assert(wanted.submap_of(all));
                if !all.dom().contains(name) {
                    assert(wanted.dom().contains(name) ==> all.dom().contains(name));
                }
            }
        }
        if matching_items(before.items, attributes@)[i] {
            assert forall|name: Seq<char>| #[trigger] wanted.dom().contains(name) implies
                #[trigger] all.dom().contains(name) && wanted[name] == all[name] by {
                assert(wanted.contains_key(name));
                assert(all.contains_key(name));
            }
            assert(wanted.submap_of(all));
        }
    }
    assert(hits =~= matching_items(before.items, attributes@));
}

/// The paths are those of the items.
pub open spec fn are_paths(items: Seq<Item>, list: Seq<String>) -> bool {
    &&& list.len() == items.len()
    &&& forall|i: int| 0 <= i < list.len() ==> (#[trigger] list[i])@ == items[i].path@
}

/// The items are copies of the others, one for one.
pub open spec fn are_copies(items: Seq<Item>, list: Seq<Item>) -> bool {
    &&& list.len() == items.len()
    &&& forall|i: int|
        0 <= i < list.len() ==> (#[trigger] list[i]).path@ == items[i].path@ && list[i].inner@
            == items[i].inner@ && list[i].collection_path@ == items[i].collection_path@
}

/// A search in an unlocked collection whose items are in the clear finds those that have each of
/// the wanted attributes with the wanted value, all of them and no other, in their order. In a
/// locked collection it finds nothing. No search changes an item, nor anything else but what the
/// keyring has at hand.
pub proof fn a_search_finds_just_what_matches<
    C: KeyringCipher,
    L: LockedKeyring,
    U: UnlockedKeyring<L>,
>(
    collection: &mut Collection<L, U>,
    cipher: &C,
    attributes: &Attributes,
    list: Result<Vec<String>, ServiceError>,
    items: Result<Vec<Item>, ServiceError>,
)
    ensures
        call_ensures(
            Collection::<L, U>::search_items::<C>,
            (collection, cipher, attributes),
            list,
        ) ==> {
            &&& final(collection)@.items == old(collection)@.items
            &&& final(collection)@ == (CollectionView {
                keyring: final(collection)@.keyring,
                ..old(collection)@
            })
            &&& old(collection)@.is_locked() ==> final(collection)@ == old(collection)@ && (
            list matches Ok(found) && found@.len() == 0)
            &&& !old(collection)@.is_locked() && all_unlocked(old(collection)@.items) ==> (
            list matches Ok(found) ==> exists|those: Seq<Item>| #[trigger]
                picked(
                    old(collection)@.items,
                    matching_items(old(collection)@.items, attributes@),
                    true,
                    those,
                ) && are_paths(those, found@))
        },
        call_ensures(
            Collection::<L, U>::search_inner_items::<C>,
            (collection, cipher, attributes),
            items,
        ) ==> {
            &&& final(collection)@ == (CollectionView {
                keyring: final(collection)@.keyring,
                ..old(collection)@
            })
            &&& old(collection)@.is_locked() ==> final(collection)@ == old(collection)@ && (
            items matches Ok(found) && found@.len() == 0)
            &&& !old(collection)@.is_locked() && all_unlocked(old(collection)@.items) ==> (
            items matches Ok(found) ==> exists|those: Seq<Item>| #[trigger]
                picked(
                    old(collection)@.items,
                    matching_items(old(collection)@.items, attributes@),
                    true,
                    those,
                ) && are_copies(those, found@))
        },
{
    let before = old(collection)@;
    let after = final(collection)@;
    let flags = matching_items(before.items, attributes@);
    let those = selected(before.items, flags, true);
    a_selection_picks(before.items, flags, true);
    if call_ensures(
        Collection::<L, U>::search_items::<C>,
        (collection, cipher, attributes),
        list,
    ) {
        let outcome = choose|outcome: Result<Seq<bool>, ServiceError>| #[trigger]
            searches(before, cipher, attributes, after, outcome) && match outcome {
                Ok(hits) => list matches Ok(found) && found@ == paths(
                    selected(before.items, hits, true),
                ),
                Err(e) => list == Err::<Vec<String>, ServiceError>(e),
            };
        if before.is_locked() {
            a_locked_collection_finds_nothing(
                before,
                cipher,
                attributes,
                after,
                outcome,
            );
        } else if all_unlocked(before.items) && list is Ok {
            lemma_hits(before, cipher, attributes, after, outcome->Ok_0);
            assert(are_paths(those, list->Ok_0@));
        }
    }
    if call_ensures(
        Collection::<L, U>::search_inner_items::<C>,
        (collection, cipher, attributes),
        items,
    ) {
        let outcome = choose|outcome: Result<Seq<bool>, ServiceError>| #[trigger]
            searches(before, cipher, attributes, after, outcome) && match outcome {
                Ok(hits) => items matches Ok(found) && views(found@) == views(
                    selected(before.items, hits, true),
                ),
                Err(e) => items == Err::<Vec<Item>, ServiceError>(e),
            };
        if before.is_locked() {
            a_locked_collection_finds_nothing(
                before,
                cipher,
                attributes,
                after,
                outcome,
            );
            assert(views(items->Ok_0@).len() == 0);
        } else if all_unlocked(before.items) && items is Ok {
            lemma_hits(before, cipher, attributes, after, outcome->Ok_0);
            let found = items->Ok_0@;
            assert(views(found).len() == found.len() && views(those).len() == those.len());
            assert forall|i: int| 0 <= i < found.len() implies (#[trigger] found[i]).path@
                == those[i].path@ && found[i].inner@ == those[i].inner@ && found[i].collection_path@
                == those[i].collection_path@ by {
                assert(views(found)[i] == found[i]@);
                assert(views(those)[i] == those[i]@);
            }
            assert(are_copies(those, found));
        }
    }
}

/// A search fails only for want of the key of the keyring, and tells why.
pub proof fn a_search_fails_for_want_of_the_key<
    C: KeyringCipher,
    L: LockedKeyring,
    U: UnlockedKeyring<L>,
>(
    collection: &mut Collection<L, U>,
    cipher: &C,
    attributes: &Attributes,
    list: Result<Vec<String>, ServiceError>,
)
    requires
        call_ensures(
            Collection::<L, U>::search_items::<C>,
            (collection, cipher, attributes),
            list,
        ),
    ensures
        list matches Err(error) ==> (old(collection)@.keyring matches Some(
            KeyringState::Unlocked(keyring),
        ) && exists|e: CryptoError, shown: Seq<char>|
            key_answer(keyring.key_source(), cipher, &keyring.contents(), Err(e))
                && #[trigger] e.shown(shown) && (error matches ServiceError::Failed(text) && text@
                == "Failed to derive key: "@ + shown)),
{
    if list is Err {
        let before = old(collection)@;
        let after = final(collection)@;
        let outcome = choose|outcome: Result<Seq<bool>, ServiceError>| #[trigger]
            searches(before, cipher, attributes, after, outcome) && match outcome {
                Ok(hits) => list is Ok,
                Err(e) => list == Err::<Vec<String>, ServiceError>(e),
            };
        let keyring = before.keyring->0->Unlocked_0;
        let (told, key) = choose|told: U, key: Result<Key, CryptoError>| #[trigger]
            unlocked_key(keyring, cipher, told, key) && (match key {
                Ok(k) => false,
                Err(e) => outcome matches Err(error)
                    && is_key_failure(error, e),
            });
        let e = key->Err_0;
        assert(key_answer(keyring.key_source(), cipher, &keyring.contents(), Err(e)));
        let shown = choose|shown: Seq<char>| #[trigger]
            e.shown(shown) && is_failure(
                list->Err_0,
                "Failed to derive key: "@ + shown,
            );
        assert(e.shown(shown));
    }
}

} // verus!

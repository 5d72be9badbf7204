//! What holds of collections whatever is done with them.
use vstd::prelude::*;

use crate::attributes::Attributes;
use crate::crypto::error::Error as CryptoError;
use crate::file::api::created;
use crate::file::api::item_matched;
use crate::file::api::item_relocked;
use crate::file::api::selected;
use crate::file::api::Item as FileItem;
use crate::file::api::ItemView as FileItemView;
use crate::file::api::KeyringCipher;
use crate::file::api::UnlockedItem;
use crate::file::api::UnlockedItemView;
use crate::file::error::InvalidItemError;
use crate::file::laws::a_new_item_comes_last;
use crate::file::laws::selection_is_exact;
use crate::file::traits::key_answer;
use crate::file::traits::LockedKeyring;
use crate::file::traits::UnlockedKeyring;
use crate::object_path::child;
use crate::object_path::is_object_path;
use crate::object_path::lemma_child_is_path;
use crate::secret::Key;
use crate::server::collection::applied;
use crate::server::collection::apply;
use crate::server::collection::dispatches;
use crate::server::collection::good_until;
use crate::server::collection::item_hits;
use crate::server::collection::paths;
use crate::server::collection::publishes;
use crate::server::collection::publishes_all;
use crate::server::collection::searches;
use crate::server::collection::unlocked_key;
use crate::server::collection::without;
use crate::server::collection::CollectionView;
use crate::server::collection::KeyringState;
use crate::server::creation::creates;
use crate::server::creation::creation;
use crate::server::creation::failed_creation;
use crate::server::creation::is_new_item;
use crate::server::creation::keyring_stores;
use crate::server::creation::publication;
use crate::server::creation::replacement;
use crate::server::creation::replacements;
use crate::server::creation::StoreRequest;
use crate::server::deletion::deletion;
use crate::server::deletion::file_removal;
use crate::server::deletion::removals;
use crate::server::error::ServiceError;
use crate::server::item::Item;
use crate::server::script::Action;
use crate::server::script::Place;
use crate::server::script::Request;
use crate::server::script::Signal;
use crate::server::unlocking::installs;
use crate::server::unlocking::locks;
use crate::server::unlocking::relocked_until;
use crate::server::unlocking::relocks;
use crate::text::decimal;
use crate::text::lemma_decimal_injective;
use crate::time::Timestamp;

verus! {

/// Carrying out a script in two parts is carrying it out as a whole. So a script that goes
/// through to its end, with stops at its requests, has done all its actions.
pub proof fn scripts_compose<L, U>(
    c: CollectionView<L, U>,
    first: Seq<Action>,
    second: Seq<Action>,
    now: Timestamp,
)
    ensures
        applied(c, first + second, now) == applied(applied(c, first, now), second, now),
    decreases second.len(),
{
    if second.len() == 0 {
        assert(first + second =~= first);
    } else {
        scripts_compose(c, first, second.drop_last(), now);
        assert((first + second).drop_last() =~= first + second.drop_last());
        assert((first + second).last() == second.last());
    }
}

/// A locked collection finds nothing, and stays as it is.
pub proof fn a_locked_collection_finds_nothing<
    C: KeyringCipher,
    L: LockedKeyring,
    U: UnlockedKeyring<L>,
>(
    before: CollectionView<L, U>,
    cipher: &C,
    attributes: &Attributes,
    after: CollectionView<L, U>,
    outcome: Result<Seq<bool>, ServiceError>,
)
    requires
        before.is_locked(),
        searches(before, cipher, attributes, after, outcome),
    ensures
        after == before,
        outcome matches Ok(hits) && selected(before.items, hits, true) == Seq::<Item>::empty(),
{
    let hits = outcome->Ok_0;
    selection_is_exact(before.items, hits, true);
    if selected(before.items, hits, true).len() > 0 {
        let k = choose|k: int|
            0 <= k < before.items.len() && hits[k] == true && #[trigger] before.items[k]
                == selected(before.items, hits, true)[0];
        assert(!hits[k]);
    }
    assert(selected(before.items, hits, true) =~= Seq::<Item>::empty());
}

/// The attributes of an item in the clear.
pub open spec fn attributes_of(item: Item) -> Map<Seq<char>, Seq<char>> {
    match item.inner {
        FileItem::Unlocked(unlocked) => unlocked.attributes@,
        FileItem::Locked(_) => Map::empty(),
    }
}

/// All items are in the clear.
pub open spec fn all_unlocked(items: Seq<Item>) -> bool {
    forall|i: int| 0 <= i < items.len() ==> (#[trigger] items[i]).inner is Unlocked
}

/// All items are locked.
pub open spec fn all_locked(items: Seq<Item>) -> bool {
    forall|i: int| 0 <= i < items.len() ==> (#[trigger] items[i]).inner is Locked
}

/// A search finds an item in the clear by any part of its attributes, and by nothing else:
/// one attribute more than the item has, and it is not found.
pub proof fn search_is_by_subset<C: KeyringCipher, L: LockedKeyring, U: UnlockedKeyring<L>>(
    before: CollectionView<L, U>,
    cipher: &C,
    attributes: &Attributes,
    after: CollectionView<L, U>,
    hits: Seq<bool>,
)
    requires
        !before.is_locked(),
        all_unlocked(before.items),
        searches(before, cipher, attributes, after, Ok(hits)),
    ensures
        hits.len() == before.items.len(),
        forall|i: int|
            0 <= i < before.items.len() ==> hits[i] == attributes@.submap_of(
                attributes_of(#[trigger] before.items[i]),
            ),
{
    let (told, key) = choose|told: U, key: Result<Key, CryptoError>| #[trigger]
        unlocked_key(before.keyring->0->Unlocked_0, cipher, told, key) && (match key {
            Ok(k) => item_hits(cipher, before.items, attributes, &k, hits),
            Err(e) => false,
        });
    assert forall|i: int| 0 <= i < before.items.len() implies hits[i] == attributes@.submap_of(
        attributes_of(#[trigger] before.items[i]),
    ) by {
        assert(item_matched(cipher, before.items[i].inner, attributes, &key->Ok_0, hits[i]));
    }
}

/// The items that are at none of the paths.
pub open spec fn without_all(items: Seq<Item>, list: Seq<String>) -> Seq<Item>
    decreases list.len(),
{
    if list.len() == 0 {
        items
    } else {
        without(without_all(items, list.drop_last()), list.last()@)
    }
}

proof fn lemma_without(items: Seq<Item>, path: Seq<char>)
    ensures
        forall|i: int|
            0 <= i < without(items, path).len() ==> (#[trigger] without(items, path)[i]).path@
                != path && items.contains(without(items, path)[i]),
        forall|i: int|
            0 <= i < items.len() && (#[trigger] items[i]).path@ != path ==> without(
                items,
                path,
            ).contains(items[i]),
    decreases items.len(),
{
    reveal(Seq::filter);
    let kept = without(items, path);
    if items.len() > 0 {
        let rest = items.drop_last();
        lemma_without(rest, path);
        let before = without(rest, path);
        assert forall|i: int| 0 <= i < kept.len() implies (#[trigger] kept[i]).path@ != path
            && items.contains(kept[i]) by {
            if i < before.len() {
                assert(kept[i] == before[i]);
                let k = choose|k: int| 0 <= k < rest.len() && rest[k] == before[i];
                assert(items[k] == kept[i]);
            } else {
                assert(items[items.len() - 1] == kept[i]);
            }
        }
        assert forall|i: int|
            0 <= i < items.len() && (#[trigger] items[i]).path@ != path implies kept.contains(
            items[i],
        ) by {
            if i < rest.len() {
                assert(rest[i] == items[i]);
                let k = choose|k: int| 0 <= k < before.len() && before[k] == rest[i];
                assert(kept[k] == items[i]);
            } else {
                assert(kept[before.len() as int] == items[i]);
            }
        }
    }
}

proof fn lemma_without_all(items: Seq<Item>, list: Seq<String>)
    ensures
        forall|i: int, k: int|
            0 <= i < without_all(items, list).len() && 0 <= k < list.len() ==> (
            #[trigger] without_all(items, list)[i]).path@ != (#[trigger] list[k])@,
        forall|i: int|
            0 <= i < without_all(items, list).len() ==> items.contains(
                #[trigger] without_all(items, list)[i],
            ),
        forall|i: int|
            0 <= i < items.len() && (forall|k: int|
                0 <= k < list.len() ==> items[i].path@ != (#[trigger] list[k])@)
                ==> without_all(items, list).contains(#[trigger] items[i]),
    decreases list.len(),
{
    if list.len() > 0 {
        let rest = list.drop_last();
        let before = without_all(items, rest);
        let after = without_all(items, list);
        let path = list.last()@;
        lemma_without_all(items, rest);
        lemma_without(before, path);
        assert forall|i: int, k: int| 0 <= i < after.len() && 0 <= k < list.len() implies (
        #[trigger] after[i]).path@ != (#[trigger] list[k])@ by {
            if k < rest.len() {
                let j = choose|j: int| 0 <= j < before.len() && before[j] == after[i];
                assert(rest[k] == list[k]);
                assert(before[j].path@ != rest[k]@);
            }
        }
        assert forall|i: int| 0 <= i < after.len() implies items.contains(#[trigger] after[i]) by {
            let j = choose|j: int| 0 <= j < before.len() && before[j] == after[i];
            assert(items.contains(before[j]));
        }
        assert forall|i: int|
            0 <= i < items.len() && (forall|k: int|
                0 <= k < list.len() ==> items[i].path@ != (#[trigger] list[k])@)
            implies after.contains(#[trigger] items[i]) by {
            assert forall|k: int| 0 <= k < rest.len() implies items[i].path@ != (
            #[trigger] rest[k])@ by {
                assert(rest[k] == list[k]);
            }
            assert(items[i].path@ != list[list.len() - 1]@);
            let j = choose|j: int| 0 <= j < before.len() && before[j] == items[i];
            assert(before[j].path@ != path);
        }
    } else {
        assert forall|i: int| 0 <= i < items.len() implies items.contains(#[trigger] items[i]) by {
        }
    }
}

proof fn lemma_replacements<L, U>(c: CollectionView<L, U>, list: Seq<String>, now: Timestamp)
    ensures
        applied(c, replacements(list), now) == (CollectionView {
            items: without_all(c.items, list),
            ..c
        }),
    decreases list.len(),
{
    if list.len() == 0 {
        assert(replacements(list) =~= Seq::<Action>::empty());
    } else {
        let rest = list.drop_last();
        let before = applied(c, replacements(rest), now);
        lemma_replacements(c, rest, now);
        let last = replacement(list.last());
        scripts_compose(c, replacements(rest), last, now);
        assert(last.drop_last().drop_last().drop_last() =~= Seq::<Action>::empty());
        assert(applied(before, last.drop_last().drop_last().drop_last(), now) == before);
        assert(last.drop_last().drop_last().last() == Action::Forget(list.last()));
        let dropped = CollectionView { items: without(before.items, list.last()@), ..before };
        assert(applied(before, last.drop_last().drop_last(), now) == dropped);
        assert(last.drop_last().last() is Ask);
        assert(applied(before, last.drop_last(), now) == dropped);
        assert(last.last() is Ask);
        assert(applied(before, last, now) == dropped);
    }
}

proof fn lemma_publication<L, U>(c: CollectionView<L, U>, item: Item, now: Timestamp)
    ensures
        applied(c, publication(item), now) == (CollectionView {
            items: c.items.push(item),
            modified: now,
            ..c
        }),
{
    let s = publication(item);
    let s6 = s.drop_last();
    let s5 = s6.drop_last();
    let s4 = s5.drop_last();
    let s3 = s4.drop_last();
    let s2 = s3.drop_last();
    let s1 = s2.drop_last();
    let s0 = s1.drop_last();
    assert(s0 =~= Seq::<Action>::empty());
    assert(applied(c, s0, now) == c);
    assert(s1.last() == Action::Publish(item));
    let c1 = CollectionView { items: c.items.push(item), ..c };
    assert(applied(c, s1, now) == c1);
    assert(s2.last() is Ask);
    assert(applied(c, s2, now) == c1);
    assert(s3.last() is Touch);
    let c3 = CollectionView { modified: now, ..c1 };
    assert(applied(c, s3, now) == c3);
    assert(s4.last() is Ask);
    assert(applied(c, s4, now) == c3);
    assert(s5.last() is Ask);
    assert(applied(c, s5, now) == c3);
    assert(s6.last() is Ask);
    assert(applied(c, s6, now) == c3);
    assert(s.last() is Ask);
}

/// The script that creates an item drops the replaced items from the collection, puts the new
/// one at the end, and sets the time of the last change. It does nothing else.
pub proof fn creation_does_what_it_says<L, U>(
    c: CollectionView<L, U>,
    replaced: Seq<String>,
    item: Item,
    now: Timestamp,
)
    ensures
        applied(c, creation(replaced, item), now) == (CollectionView {
            items: without_all(c.items, replaced).push(item),
            modified: now,
            ..c
        }),
{
    let open = seq![Action::Ask(Request::OpenEmitter(Place::Collection))];
    assert(open.drop_last() =~= Seq::<Action>::empty());
    assert(applied(c, open.drop_last(), now) == c);
    assert(open.last() is Ask);
    assert(applied(c, open, now) == c);
    scripts_compose(c, open, replacements(replaced), now);
    lemma_replacements(c, replaced, now);
    scripts_compose(c, open + replacements(replaced), publication(item), now);
    lemma_publication(applied(c, replacements(replaced), now), item, now);
}

/// No two items are at the same path.
pub open spec fn distinct_item_paths(items: Seq<Item>) -> bool {
    forall|i: int, j: int|
        0 <= i < items.len() && 0 <= j < items.len() && (#[trigger] items[i]).path@ == (
        #[trigger] items[j]).path@ ==> i == j
}

/// An item that replaces others leaves none in the collection that has its attributes, besides
/// itself. Every item that lacks one of them stays.
pub proof fn replacing_leaves_one<C: KeyringCipher, L: LockedKeyring, U: UnlockedKeyring<L>>(
    before: CollectionView<L, U>,
    cipher: &C,
    inner: FileItem,
    attributes: &Attributes,
    after: CollectionView<L, U>,
    path: String,
    script: Seq<Action>,
    now: Timestamp,
)
    requires
        !before.is_locked(),
        all_unlocked(before.items),
        distinct_item_paths(before.items),
        creates(before, cipher, inner, attributes, true, after, path, script),
        forall|e: ServiceError| script != #[trigger] failed_creation(e),
    ensures
        ({
            let done = applied(after, script, now).items;
            &&& done.len() > 0
            &&& is_new_item(before, inner, done.last())
            &&& forall|i: int|
                0 <= i < done.len() - 1 ==> before.items.contains(#[trigger] done[i])
                    && !attributes@.submap_of(attributes_of(done[i]))
            &&& forall|i: int|
                0 <= i < before.items.len() && !attributes@.submap_of(
                    attributes_of(#[trigger] before.items[i]),
                ) ==> done.drop_last().contains(before.items[i])
        }),
{
    let numbered = CollectionView { item_index: (before.item_index + 1) as u32, ..before };
    let item = choose|item: Item| #[trigger]
        is_new_item(before, inner, item) && path@ == item.path@ && exists|
            outcome: Result<Seq<bool>, ServiceError>,
        | #[trigger]
            searches(numbered, cipher, attributes, after, outcome) && match outcome {
                Ok(hits) => script == creation(paths(selected(before.items, hits, true)), item),
                Err(e) => script == failed_creation(e),
            };
    let outcome = choose|outcome: Result<Seq<bool>, ServiceError>| #[trigger]
        searches(numbered, cipher, attributes, after, outcome) && match outcome {
            Ok(hits) => script == creation(paths(selected(before.items, hits, true)), item),
            Err(e) => script == failed_creation(e),
        };
    let hits = outcome->Ok_0;
    let gone = selected(before.items, hits, true);
    let list = paths(gone);
    search_is_by_subset(numbered, cipher, attributes, after, hits);
    assert(after.items == before.items);
    creation_does_what_it_says(after, list, item, now);
    let kept = without_all(before.items, list);
    let done = applied(after, script, now).items;
    assert(done == kept.push(item));
    assert(done.drop_last() =~= kept);
    lemma_without_all(before.items, list);
    selection_is_exact(before.items, hits, true);
    assert forall|i: int| 0 <= i < done.len() - 1 implies before.items.contains(#[trigger] done[i])
        && !attributes@.submap_of(attributes_of(done[i])) by {
        assert(done[i] == kept[i]);
        let k = choose|k: int| 0 <= k < before.items.len() && before.items[k] == kept[i];
        if hits[k] {
            assert(gone.contains(before.items[k]));
            let g = choose|g: int| 0 <= g < gone.len() && gone[g] == before.items[k];
            assert(list[g] == gone[g].path);
            assert(kept[i].path@ != list[g]@);
        }
        assert(hits[k] == attributes@.submap_of(attributes_of(before.items[k])));
    }
    assert forall|i: int|
        0 <= i < before.items.len() && !attributes@.submap_of(
            attributes_of(#[trigger] before.items[i]),
        ) implies done.drop_last().contains(before.items[i]) by {
        assert(!hits[i]);
        assert forall|g: int| 0 <= g < list.len() implies before.items[i].path@ != (
        #[trigger] list[g])@ by {
            assert(list[g] == gone[g].path);
            let k = choose|k: int|
                0 <= k < before.items.len() && hits[k] == true && #[trigger] before.items[k]
                    == gone[g];
            assert(k != i);
            if before.items[i].path@ == list[g]@ {
                assert(before.items[i].path@ == before.items[k].path@);
            }
        }
    }
}

/// An item that the keyring has stored comes into the collection with the label, the
/// attributes and the secret that the client gave it, at the path that the client is told. It is
/// the last of the items.
pub proof fn a_created_item_is_there<C: KeyringCipher, L: LockedKeyring, U: UnlockedKeyring<L>>(
    keyring: U,
    cipher: &C,
    request: StoreRequest,
    told: U,
    stored: UnlockedItem,
    before: CollectionView<L, U>,
    after: CollectionView<L, U>,
    path: String,
    script: Seq<Action>,
    now: Timestamp,
)
    requires
        keyring_stores(keyring, cipher, request, told, Ok(stored)),
        creates(
            before,
            cipher,
            FileItem::Unlocked(stored),
            &request.attributes,
            request.replace,
            after,
            path,
            script,
        ),
        forall|e: ServiceError| script != #[trigger] failed_creation(e),
    ensures
        ({
            let done = applied(after, script, now);
            &&& done.items.len() > 0
            &&& done.items.last().path@ == path@
            &&& path@ == child(before.path, before.item_index as nat)
            &&& done.items.last().inner@ == FileItemView::Unlocked(
                UnlockedItemView {
                    label: request.label@,
                    attributes: request.attributes@,
                    secret: request.secret@,
                },
            )
            &&& done.modified == now
        }),
{
    let numbered = CollectionView { item_index: (before.item_index + 1) as u32, ..before };
    let inner = FileItem::Unlocked(stored);
    let item = choose|item: Item| #[trigger]
        is_new_item(before, inner, item) && path@ == item.path@ && if request.replace {
            exists|outcome: Result<Seq<bool>, ServiceError>| #[trigger]
                searches(numbered, cipher, &request.attributes, after, outcome) && match outcome {
                    Ok(hits) => script == creation(
                        paths(selected(before.items, hits, true)),
                        item,
                    ),
                    Err(e) => script == failed_creation(e),
                }
        } else {
            after == numbered && script == creation(seq![], item)
        };
    if request.replace {
        let outcome = choose|outcome: Result<Seq<bool>, ServiceError>| #[trigger]
            searches(numbered, cipher, &request.attributes, after, outcome) && match outcome {
                Ok(hits) => script == creation(paths(selected(before.items, hits, true)), item),
                Err(e) => script == failed_creation(e),
            };
        let hits = outcome->Ok_0;
        creation_does_what_it_says(after, paths(selected(before.items, hits, true)), item, now);
    } else {
        creation_does_what_it_says(after, seq![], item, now);
    }
    let answer = choose|answer: Result<Key, CryptoError>| #[trigger]
        key_answer(keyring.key_source(), cipher, &keyring.contents(), answer) && match answer {
            Ok(key) => created(
                cipher,
                keyring.contents().items@,
                (UnlockedItemView {
                    label: request.label@,
                    attributes: request.attributes@,
                    secret: request.secret@,
                }),
                &request.attributes,
                &key,
                request.replace,
                told.contents().items@,
                Ok(stored),
            ),
            Err(e) => false,
        };
    let key = answer->Ok_0;
    a_new_item_comes_last(
        cipher,
        keyring.contents().items@,
        (UnlockedItemView {
            label: request.label@,
            attributes: request.attributes@,
            secret: request.secret@,
        }),
        &request.attributes,
        &key,
        request.replace,
        told.contents().items@,
        stored,
    );
}

/// The items of a collection are its children, each with a number of its own that was given out
/// before.
pub open spec fn numbered<L, U>(c: CollectionView<L, U>) -> bool {
    &&& distinct_item_paths(c.items)
    &&& forall|i: int|
        0 <= i < c.items.len() ==> has_number(c.path, (#[trigger] c.items[i]).path@, c.item_index)
}

/// The path is that of a child with a number below the bound.
pub open spec fn has_number(base: Seq<char>, path: Seq<char>, bound: u32) -> bool {
    exists|n: nat| n < bound && path == #[trigger] child(base, n)
}

/// Two children at the same path have the same number.
pub proof fn children_are_distinct(base: Seq<char>, a: nat, b: nat)
    requires
        child(base, a) == child(base, b),
    ensures
        a == b,
{
    let n = base.len() as int + 1;
    assert(child(base, a).skip(n) =~= decimal(a));
    assert(child(base, b).skip(n) =~= decimal(b));
    lemma_decimal_injective(a, b);
}

/// The items of a numbered collection are at valid paths.
pub proof fn item_paths_are_valid<L, U>(c: CollectionView<L, U>)
    requires
        c.wf(),
        numbered(c),
    ensures
        forall|i: int| 0 <= i < c.items.len() ==> is_object_path((#[trigger] c.items[i]).path@),
{
    assert forall|i: int| 0 <= i < c.items.len() implies is_object_path(
        (#[trigger] c.items[i]).path@,
    ) by {
        assert(has_number(c.path, c.items[i].path@, c.item_index));
        let n = choose|n: nat| n < c.item_index && c.items[i].path@ == #[trigger] child(c.path, n);
        lemma_child_is_path(c.path, n);
    }
}

proof fn lemma_without_distinct(items: Seq<Item>, path: Seq<char>)
    requires
        distinct_item_paths(items),
    ensures
        distinct_item_paths(without(items, path)),
    decreases items.len(),
{
    reveal(Seq::filter);
    if items.len() > 0 {
        let rest = items.drop_last();
        assert(distinct_item_paths(rest)) by {
            assert forall|i: int, j: int|
                0 <= i < rest.len() && 0 <= j < rest.len() && (#[trigger] rest[i]).path@ == (
                #[trigger] rest[j]).path@ implies i == j by {
                assert(rest[i] == items[i] && rest[j] == items[j]);
            }
        }
        lemma_without_distinct(rest, path);
        lemma_without(rest, path);
        let before = without(rest, path);
        let now = without(items, path);
        let last = items.len() - 1;
        assert forall|i: int, j: int|
            0 <= i < now.len() && 0 <= j < now.len() && (#[trigger] now[i]).path@ == (
            #[trigger] now[j]).path@ implies i == j by {
            if i < before.len() && j < before.len() {
                assert(now[i] == before[i] && now[j] == before[j]);
            } else if i < before.len() && j >= before.len() {
                let k = choose|k: int| 0 <= k < rest.len() && rest[k] == before[i];
                assert(items[k].path@ == items[last].path@);
            } else if j < before.len() && i >= before.len() {
                let k = choose|k: int| 0 <= k < rest.len() && rest[k] == before[j];
                assert(items[k].path@ == items[last].path@);
            }
        }
    }
}

proof fn lemma_without_all_distinct(items: Seq<Item>, list: Seq<String>)
    requires
        distinct_item_paths(items),
    ensures
        distinct_item_paths(without_all(items, list)),
    decreases list.len(),
{
    if list.len() > 0 {
        lemma_without_all_distinct(items, list.drop_last());
        lemma_without_distinct(without_all(items, list.drop_last()), list.last()@);
    }
}

/// A collection whose items are numbered stays so when an item is created, whatever it
/// replaces: the new item is at a path that no other item has.
pub proof fn creation_keeps_numbers<L, U>(
    before: CollectionView<L, U>,
    after: CollectionView<L, U>,
    inner: FileItem,
    replaced: Seq<String>,
    item: Item,
    now: Timestamp,
)
    requires
        numbered(before),
        before.item_index < u32::MAX,
        is_new_item(before, inner, item),
        after == (CollectionView {
            item_index: (before.item_index + 1) as u32,
            keyring: after.keyring,
            ..before
        }),
    ensures
        numbered(applied(after, creation(replaced, item), now)),
        forall|i: int|
            0 <= i < before.items.len() ==> (#[trigger] before.items[i]).path@ != item.path@,
{
    creation_does_what_it_says(after, replaced, item, now);
    let done = applied(after, creation(replaced, item), now);
    let kept = without_all(before.items, replaced);
    assert(done.items == kept.push(item));
    lemma_without_all(before.items, replaced);
    lemma_without_all_distinct(before.items, replaced);
    assert forall|i: int| 0 <= i < before.items.len() implies (#[trigger] before.items[i]).path@
        != item.path@ by {
        assert(has_number(before.path, before.items[i].path@, before.item_index));
        let n = choose|n: nat|
            n < before.item_index && before.items[i].path@ == #[trigger] child(before.path, n);
        if before.items[i].path@ == item.path@ {
            children_are_distinct(before.path, n, before.item_index as nat);
        }
    }
    assert forall|i: int| 0 <= i < done.items.len() implies has_number(
        done.path,
        (#[trigger] done.items[i]).path@,
        done.item_index,
    ) by {
        if i < kept.len() {
            assert(done.items[i] == kept[i]);
            let k = choose|k: int| 0 <= k < before.items.len() && before.items[k] == kept[i];
            assert(has_number(before.path, before.items[k].path@, before.item_index));
            let n = choose|n: nat|
                n < before.item_index && before.items[k].path@ == #[trigger] child(before.path, n);
            assert(done.items[i].path@ == child(done.path, n));
        } else {
            assert(done.items[i].path@ == child(done.path, before.item_index as nat));
        }
    }
    assert forall|i: int, j: int|
        0 <= i < done.items.len() && 0 <= j < done.items.len() && (#[trigger] done.items[i]).path@
            == (#[trigger] done.items[j]).path@ implies i == j by {
        if i < kept.len() && j < kept.len() {
            assert(done.items[i] == kept[i] && done.items[j] == kept[j]);
        } else if i < kept.len() && j >= kept.len() {
            assert(done.items[i] == kept[i]);
            let k = choose|k: int| 0 <= k < before.items.len() && before.items[k] == kept[i];
            assert(before.items[k].path@ != item.path@);
        } else if j < kept.len() && i >= kept.len() {
            assert(done.items[j] == kept[j]);
            let k = choose|k: int| 0 <= k < before.items.len() && before.items[k] == kept[j];
            assert(before.items[k].path@ != item.path@);
        }
    }
}

/// The script that deletes an item drops the items at its path from the collection, sets the
/// time of the last change, and does nothing else.
pub proof fn item_deletion_does_what_it_says<L, U>(
    c: CollectionView<L, U>,
    path: String,
    now: Timestamp,
)
    ensures
        applied(
            c,
            seq![
                Action::Forget(path),
                Action::Touch,
                Action::Ask(Request::OpenEmitter(Place::Collection)),
                Action::Ask(Request::Emit(Signal::ModifiedChanged)),
                Action::Ask(Request::OpenEmitter(Place::Collection)),
                Action::Ask(Request::Emit(Signal::ItemsChanged)),
            ],
            now,
        ) == (CollectionView { items: without(c.items, path@), modified: now, ..c }),
        numbered(c) ==> numbered(
            CollectionView { items: without(c.items, path@), modified: now, ..c },
        ),
{
    let s = seq![
        Action::Forget(path),
        Action::Touch,
        Action::Ask(Request::OpenEmitter(Place::Collection)),
        Action::Ask(Request::Emit(Signal::ModifiedChanged)),
        Action::Ask(Request::OpenEmitter(Place::Collection)),
        Action::Ask(Request::Emit(Signal::ItemsChanged)),
    ];
    let s5 = s.drop_last();
    let s4 = s5.drop_last();
    let s3 = s4.drop_last();
    let s2 = s3.drop_last();
    let s1 = s2.drop_last();
    let s0 = s1.drop_last();
    assert(s0 =~= Seq::<Action>::empty());
    assert(applied(c, s0, now) == c);
    assert(s1.last() == Action::Forget(path));
    let c1 = CollectionView { items: without(c.items, path@), ..c };
    assert(applied(c, s1, now) == c1);
    assert(s2.last() is Touch);
    let c2 = CollectionView { modified: now, ..c1 };
    assert(applied(c, s2, now) == c2);
    assert(s3.last() is Ask);
    assert(applied(c, s3, now) == c2);
    assert(s4.last() is Ask);
    assert(applied(c, s4, now) == c2);
    assert(s5.last() is Ask);
    assert(applied(c, s5, now) == c2);
    assert(s.last() is Ask);
    if numbered(c) {
        lemma_without(c.items, path@);
        lemma_without_distinct(c.items, path@);
        assert forall|i: int| 0 <= i < c2.items.len() implies has_number(
            c2.path,
            (#[trigger] c2.items[i]).path@,
            c2.item_index,
        ) by {
            let k = choose|k: int| 0 <= k < c.items.len() && c.items[k] == c2.items[i];
            assert(has_number(c.path, c.items[k].path@, c.item_index));
        }
    }
}

/// A deleted item is gone, and every item at another path is still there.
pub proof fn deleting_an_item_deletes_only_that<L, U>(c: CollectionView<L, U>, path: Seq<char>)
    ensures
        forall|i: int|
            0 <= i < without(c.items, path).len() ==> (
            #[trigger] without(c.items, path)[i]).path@ != path && c.items.contains(
                without(c.items, path)[i],
            ),
        forall|i: int|
            0 <= i < c.items.len() && (#[trigger] c.items[i]).path@ != path ==> without(
                c.items,
                path,
            ).contains(c.items[i]),
{
    lemma_without(c.items, path);
}

/// The script only asks.
pub open spec fn only_asks(script: Seq<Action>) -> bool {
    forall|i: int| 0 <= i < script.len() ==> (#[trigger] script[i]) is Ask
}

proof fn lemma_only_asks<L, U>(c: CollectionView<L, U>, script: Seq<Action>, now: Timestamp)
    requires
        only_asks(script),
    ensures
        applied(c, script, now) == c,
    decreases script.len(),
{
    if script.len() > 0 {
        let rest = script.drop_last();
        assert forall|i: int| 0 <= i < rest.len() implies (#[trigger] rest[i]) is Ask by {
            assert(rest[i] == script[i]);
        }
        lemma_only_asks(c, rest, now);
        assert(script[script.len() - 1] is Ask);
    }
}

/// Deleting a collection takes each of its items off the bus before it is itself struck off the
/// list, as the last step. Its file is deleted where it has one, and no other. The collection
/// itself is not changed.
pub proof fn collection_deletion_does_what_it_says<L, U>(
    c: CollectionView<L, U>,
    file: Option<std::path::PathBuf>,
    path: String,
    now: Timestamp,
)
    ensures
        applied(c, deletion(c.items, file, path), now) == c,
        forall|i: int|
            0 <= i < c.items.len() ==> deletion(c.items, file, path)[i] == Action::Ask(
                Request::RemoveObject((#[trigger] c.items[i]).path),
            ),
        forall|f: std::path::PathBuf|
            #[trigger] deletion(c.items, file, path).contains(Action::Ask(Request::RemoveFile(f)))
                <==> file == Some(f),
        deletion(c.items, file, path).contains(
            Action::Ask(Request::Emit(Signal::CollectionDeleted(path))),
        ),
        deletion(c.items, file, path).last() == Action::Ask(Request::Unregister(path)),
{
    let script = deletion(c.items, file, path);
    let n = c.items.len() as int;
    let f = file_removal(file).len() as int;
    assert forall|i: int| 0 <= i < script.len() implies (#[trigger] script[i]) is Ask by {
        if i < n {
            assert(script[i] == removals(c.items)[i]);
        }
    }
    lemma_only_asks(c, script, now);
    assert forall|i: int| 0 <= i < c.items.len() implies script[i] == Action::Ask(
        Request::RemoveObject((#[trigger] c.items[i]).path),
    ) by {
        assert(script[i] == removals(c.items)[i]);
    }
    assert forall|f: std::path::PathBuf|
        #[trigger] script.contains(Action::Ask(Request::RemoveFile(f))) <==> file == Some(f) by {
        let wanted = Action::Ask(Request::RemoveFile(f));
        if file == Some(f) {
            assert(script[n] == wanted);
        }
        if script.contains(wanted) {
            let i = choose|i: int| 0 <= i < script.len() && script[i] == wanted;
            if i < n {
                assert(script[i] == removals(c.items)[i]);
            }
        }
    }
    assert(script[n + f + 1] == Action::Ask(Request::Emit(Signal::CollectionDeleted(path))));
}

/// The items that a script publishes with its first `n` pairs of actions.
pub open spec fn published(script: Seq<Action>, n: int) -> Seq<Item> {
    Seq::new(n as nat, |i: int| script[2 * i]->Publish_0)
}

/// What the first pairs of actions of a script publish.
pub proof fn lemma_publishes_all<L, U>(
    c: CollectionView<L, U>,
    list: Seq<Result<FileItem, InvalidItemError>>,
    script: Seq<Action>,
    n: int,
    now: Timestamp,
)
    requires
        0 <= n <= list.len(),
        publishes_all(c.path, list, n, script),
    ensures
        applied(c, script.take(2 * n), now) == (CollectionView {
            items: c.items + published(script, n),
            ..c
        }),
    decreases n,
{
    if n == 0 {
        assert(script.take(0) =~= Seq::<Action>::empty());
        assert(c.items + published(script, 0) =~= c.items);
    } else {
        lemma_publishes_all(c, list, script, n - 1, now);
        assert(publishes(
            c.path,
            list[n - 1]->Ok_0,
            n,
            script[2 * (n - 1)],
            script[2 * (n - 1) + 1],
        ));
        let two = script.take(2 * n);
        let one = two.drop_last();
        assert(one.drop_last() =~= script.take(2 * (n - 1)));
        assert(one.last() == script[2 * (n - 1)]);
        assert(two.last() == script[2 * (n - 1) + 1]);
        let item = script[2 * (n - 1)]->Publish_0;
        assert(one.last() == Action::Publish(item));
        assert(applied(c, one, now) == apply(
            applied(c, script.take(2 * (n - 1)), now),
            Action::Publish(item),
            now,
        ));
        assert(two.last() is Ask);
        assert(applied(c, two, now) == applied(c, one, now));
        assert(c.items + published(script, n) =~= (c.items + published(script, n - 1)).push(
            script[2 * (n - 1)]->Publish_0,
        ));
    }
}

/// Dispatching the items of a keyring into a collection without items gives each the number of
/// its place, from one, and the next number to the next item. The collection is numbered then.
pub proof fn dispatching_numbers_the_items<L, U>(
    c: CollectionView<L, U>,
    list: Seq<Result<FileItem, InvalidItemError>>,
    script: Seq<Action>,
    now: Timestamp,
)
    requires
        c.items.len() == 0,
        list.len() < u32::MAX,
        dispatches(c.path, list, script),
        forall|i: int| 0 <= i < list.len() ==> (#[trigger] list[i]) is Ok,
    ensures
        ({
            let done = applied(c, script, now);
            &&& numbered(done)
            &&& done.items.len() == list.len()
            &&& done.item_index == list.len() + 1
            &&& forall|i: int|
                0 <= i < list.len() ==> (#[trigger] done.items[i]).inner == list[i]->Ok_0
                    && done.items[i].path@ == child(c.path, (i + 1) as nat)
        }),
{
    let n = choose|n: int| #[trigger]
        good_until(list, n) && script.len() == 2 * n + 1 && publishes_all(c.path, list, n, script)
            && script[2 * n] == (if n == list.len() {
            Action::SetIndex((n + 1) as u32)
        } else {
            Action::Fail(crate::server::error::Error::InvalidItem(list[n]->Err_0))
        });
    if n < list.len() {
        assert(list[n] is Ok);
    }
    lemma_publishes_all(c, list, script, n, now);
    assert(script.drop_last() =~= script.take(2 * n));
    assert(script.last() == script[2 * n]);
    let done = applied(c, script, now);
    let items = published(script, n);
    assert(done.items =~= items);
    assert forall|i: int| 0 <= i < list.len() implies (#[trigger] done.items[i]).inner
        == list[i]->Ok_0 && done.items[i].path@ == child(c.path, (i + 1) as nat) by {
        assert(publishes(c.path, list[i]->Ok_0, i + 1, script[2 * i], script[2 * i + 1]));
    }
    assert forall|i: int| 0 <= i < done.items.len() implies has_number(
        done.path,
        (#[trigger] done.items[i]).path@,
        done.item_index,
    ) by {
        assert(done.items[i].path@ == child(done.path, (i + 1) as nat));
    }
    assert forall|i: int, j: int|
        0 <= i < done.items.len() && 0 <= j < done.items.len() && (#[trigger] done.items[i]).path@
            == (#[trigger] done.items[j]).path@ implies i == j by {
        children_are_distinct(c.path, (i + 1) as nat, (j + 1) as nat);
    }
}

proof fn lemma_told_keeps<C: KeyringCipher, L: LockedKeyring, U: UnlockedKeyring<L>>(
    keyring: U,
    cipher: &C,
    told: U,
    key: Result<Key, CryptoError>,
)
    requires
        unlocked_key(keyring, cipher, told, key),
    ensures
        told.contents() == keyring.contents(),
        told.file() == keyring.file(),
        told.locked() == keyring.locked(),
{
    let answer = choose|answer: Result<Key, CryptoError>| #[trigger]
        key_answer(keyring.key_source(), cipher, &keyring.contents(), answer) && match answer {
            Ok(held) => told == keyring.holding(held),
            Err(e) => told == keyring,
        };
    if let Ok(held) = answer {
        keyring.holding_keeps(held);
    }
}

proof fn lemma_relocks_keeps<C: KeyringCipher, L: LockedKeyring, U: UnlockedKeyring<L>>(
    before: Seq<Item>,
    keyring: U,
    cipher: &C,
    locked: bool,
    after: Seq<Item>,
    told: U,
)
    requires
        relocks(before, keyring, cipher, locked, after, told, Ok(())),
    ensures
        told.contents() == keyring.contents(),
        told.file() == keyring.file(),
        told.locked() == keyring.locked(),
        after.len() == before.len(),
        forall|i: int|
            0 <= i < after.len() ==> ((#[trigger] after[i]).inner is Locked) == locked
                && after[i].path == before[i].path,
{
    if before.len() > 0 {
        let key = choose|key: Result<Key, CryptoError>| #[trigger]
            unlocked_key(keyring, cipher, told, key) && match key {
                Ok(k) => relocked_until(
                    cipher,
                    before,
                    &k,
                    locked,
                    before.len() as int,
                    after,
                ),
                Err(e) => false,
            };
        lemma_told_keeps(keyring, cipher, told, key);
        assert forall|i: int| 0 <= i < after.len() implies ((#[trigger] after[i]).inner is Locked)
            == locked && after[i].path == before[i].path by {
            assert(item_relocked(
                cipher,
                before[i].inner,
                &key->Ok_0,
                locked,
                Ok(after[i].inner),
            ));
        }
    }
}

/// A collection that was locked holds what it held, with every item locked. It counts as locked.
pub proof fn locking_locks_everything<C: KeyringCipher, L: LockedKeyring, U: UnlockedKeyring<L>>(
    before: CollectionView<L, U>,
    cipher: &C,
    keyring: U,
    after: CollectionView<L, U>,
)
    requires
        locks(before, cipher, keyring, after, Ok(())),
    ensures
        after.is_locked(),
        all_locked(after.items),
        paths(after.items) == paths(before.items),
        after.keyring == Some(KeyringState::<L, U>::Locked(keyring.locked())),
        after.keyring->0.contents() == keyring.contents(),
        after.keyring->0.file() == keyring.file(),
{
    let told = choose|told: U| #[trigger]
        relocks(before.items, keyring, cipher, true, after.items, told, Ok(())) && after.keyring
            == Some(KeyringState::<L, U>::Locked(told.locked()));
    lemma_relocks_keeps(before.items, keyring, cipher, true, after.items, told);
    keyring.locking_keeps();
    assert(paths(after.items) =~= paths(before.items));
}

/// A collection that took an unlocked keyring into use has every item in the clear. It counts
/// as unlocked, and holds what the keyring holds.
pub proof fn unlocking_unlocks_everything<
    C: KeyringCipher,
    L: LockedKeyring,
    U: UnlockedKeyring<L>,
>(before: CollectionView<L, U>, cipher: &C, keyring: U, after: CollectionView<L, U>)
    requires
        installs(before, cipher, keyring, after, Ok(())),
    ensures
        !after.is_locked(),
        all_unlocked(after.items),
        paths(after.items) == paths(before.items),
        after.keyring->0.contents() == keyring.contents(),
        after.keyring->0.file() == keyring.file(),
{
    let told = choose|told: U| #[trigger]
        relocks(before.items, keyring, cipher, false, after.items, told, Ok(())) && after.keyring
            == Some(KeyringState::<L, U>::Unlocked(told));
    lemma_relocks_keeps(before.items, keyring, cipher, false, after.items, told);
    assert(paths(after.items) =~= paths(before.items));
}

} // verus!

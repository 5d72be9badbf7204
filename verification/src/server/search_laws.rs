//! What a search in a collection finds.
use vstd::prelude::*;

use crate::attributes::Attributes;
use crate::crypto::error::Error as CryptoError;
use crate::file::api::item_matched;
use crate::file::api::matched;
use crate::file::api::selected;
use crate::file::api::Item as FileItem;
use crate::file::api::KeyringCipher;
use crate::file::api::UnlockedItem;
use crate::file::cipher::indexing;
use crate::file::cipher::same_key;
use crate::file::content_laws::selecting_none_or_all;
use crate::file::traits::key_answer;
use crate::file::traits::LockedKeyring;
use crate::file::traits::UnlockedKeyring;
use crate::secret::Key;
use crate::server::collection::applied;
use crate::server::collection::item_hits;
use crate::server::collection::paths;
use crate::server::collection::searches;
use crate::server::collection::unlocked_key;
use crate::server::collection::CollectionView;
use crate::server::collection::KeyringState;
use crate::server::creation::creates;
use crate::server::creation::creation;
use crate::server::creation::failed_creation;
use crate::server::creation::is_new_item;
use crate::server::creation::keyring_stores;
use crate::server::creation::StoreRequest;
use crate::server::error::ServiceError;
use crate::server::item::Item;
use crate::server::laws::a_created_item_is_there;
use crate::server::laws::a_locked_collection_finds_nothing;
use crate::server::laws::all_unlocked;
use crate::server::laws::attributes_of;
use crate::server::laws::creation_does_what_it_says;
use crate::server::laws::distinct_item_paths;
use crate::server::laws::replacing_leaves_one;
use crate::server::laws::search_is_by_subset;
use crate::server::script::Action;
use crate::time::Timestamp;

verus! {

/// The first elements are among the second ones, at these places.
pub open spec fn embeds<T>(short: Seq<T>, long: Seq<T>, at: Seq<int>) -> bool {
    &&& at.len() == short.len()
    &&& forall|i: int|
        0 <= i < at.len() ==> 0 <= #[trigger] at[i] < long.len() && long[at[i]] == short[i]
    &&& forall|i: int, j: int| 0 <= i < j < at.len() ==> #[trigger] at[i] < #[trigger] at[j]
}

/// The first elements are among the second ones, in their order and each once.
pub open spec fn is_subsequence<T>(short: Seq<T>, long: Seq<T>) -> bool {
    exists|at: Seq<int>| #[trigger] embeds(short, long, at)
}

/// Fewer flags select a part of what more flags select.
pub proof fn fewer_flags_select_a_part<T>(s: Seq<T>, few: Seq<bool>, many: Seq<bool>)
    requires
        forall|i: int| 0 <= i < s.len() && #[trigger] few[i] ==> many[i],
    ensures
        is_subsequence(selected(s, few, true), selected(s, many, true)),
    decreases s.len(),
{
    let short = selected(s, few, true);
    let long = selected(s, many, true);
    if s.len() == 0 {
        assert(embeds(short, long, Seq::<int>::empty()));
    } else {
        let rest = s.drop_last();
        let last = s.len() - 1;
        fewer_flags_select_a_part(rest, few, many);
        let short_before = selected(rest, few, true);
        let long_before = selected(rest, many, true);
        let at = choose|at: Seq<int>| #[trigger] embeds(short_before, long_before, at);
        if few[last] {
            assert(many[last]);
            let now = at.push(long_before.len() as int);
            assert(embeds(short, long, now));
        } else {
            assert(embeds(short, long, at));
        }
    }
}

/// What is selected is a part of the whole.
pub proof fn selections_are_parts<T>(s: Seq<T>, flags: Seq<bool>)
    ensures
        is_subsequence(selected(s, flags, true), s),
    decreases s.len(),
{
    let short = selected(s, flags, true);
    if s.len() == 0 {
        assert(embeds(short, s, Seq::<int>::empty()));
    } else {
        let rest = s.drop_last();
        selections_are_parts(rest, flags);
        let at = choose|at: Seq<int>| #[trigger] embeds(selected(rest, flags, true), rest, at);
        if flags[s.len() - 1] {
            assert(embeds(short, s, at.push(s.len() - 1)));
        } else {
            assert(embeds(short, s, at));
        }
    }
}

/// An unlocked collection is searched with the key of its keyring, which stays the same.
proof fn lemma_searched_with<C: KeyringCipher, L: LockedKeyring, U: UnlockedKeyring<L>>(
    before: CollectionView<L, U>,
    cipher: &C,
    attributes: &Attributes,
    after: CollectionView<L, U>,
    hits: Seq<bool>,
) -> (keys: (Key, Key))
    requires
        !before.is_locked(),
        searches(before, cipher, attributes, after, Ok(hits)),
    ensures
        item_hits(cipher, before.items, attributes, &keys.0, hits),
        keys.0@ == keys.1@,
        key_answer(
            before.keyring->0->Unlocked_0.key_source(),
            cipher,
            &before.keyring->0.contents(),
            Ok(keys.1),
        ),
        after.keyring->0->Unlocked_0 == before.keyring->0->Unlocked_0.holding(keys.1),
{
    let keyring = before.keyring->0->Unlocked_0;
    let (told, key) = choose|told: U, key: Result<Key, CryptoError>| #[trigger]
        unlocked_key(keyring, cipher, told, key) && after == (CollectionView {
            keyring: after.keyring,
            ..before
        }) && after.keyring == Some(
            KeyringState::<L, U>::Unlocked(told),
        ) && (match key {
            Ok(k) => item_hits(cipher, before.items, attributes, &k, hits),
            Err(e) => false,
        });
    let answer = choose|answer: Result<Key, CryptoError>| #[trigger]
        key_answer(keyring.key_source(), cipher, &keyring.contents(), answer) && match answer {
            Ok(held) => told == keyring.holding(held) && key->Ok_0@ == held@,
            Err(e) => false,
        };
    (key->Ok_0, answer->Ok_0)
}

/// A search finds items of the collection, in their order and each once: of items in the clear
/// just those that have the wanted attributes. A search with more attributes finds a part of what
/// one with fewer finds: of items in the clear whatever the cipher, and of locked ones with a
/// cipher that does its job. A locked collection finds nothing. No item is changed.
pub proof fn more_attributes_find_a_part<C: KeyringCipher, L: LockedKeyring, U: UnlockedKeyring<L>>(
    before: CollectionView<L, U>,
    cipher: &C,
    fewer: &Attributes,
    between: CollectionView<L, U>,
    first: Seq<bool>,
    more: &Attributes,
    after: CollectionView<L, U>,
    second: Seq<bool>,
)
    requires
        all_unlocked(before.items) || indexing(cipher),
        fewer@.submap_of(more@),
        searches(before, cipher, fewer, between, Ok(first)),
        searches(between, cipher, more, after, Ok(second)),
    ensures
        is_subsequence(selected(before.items, first, true), before.items),
        !before.is_locked() && all_unlocked(before.items) ==> forall|i: int|
            0 <= i < before.items.len() ==> first[i] == fewer@.submap_of(
                attributes_of(#[trigger] before.items[i]),
            ),
        is_subsequence(
            selected(before.items, second, true),
            selected(before.items, first, true),
        ),
        before.is_locked() ==> selected(before.items, first, true) == Seq::<Item>::empty(),
        before.is_locked() ==> selected(before.items, second, true) == Seq::<Item>::empty(),
        after.items == before.items,
{
    selections_are_parts(before.items, first);
    if before.is_locked() {
        a_locked_collection_finds_nothing(
            before,
            cipher,
            fewer,
            between,
            Ok::<Seq<bool>, ServiceError>(first),
        );
        a_locked_collection_finds_nothing(
            before,
            cipher,
            more,
            after,
            Ok::<Seq<bool>, ServiceError>(second),
        );
    } else {
        let (one, held) = lemma_searched_with(before, cipher, fewer, between, first);
        let (two, again) = lemma_searched_with(between, cipher, more, after, second);
        before.keyring->0->Unlocked_0.holding_keeps(held);
        if all_unlocked(before.items) {
            search_is_by_subset(before, cipher, fewer, between, first);
        }
        assert(same_key(one, two));
        assert forall|i: int|
            0 <= i < before.items.len() && #[trigger] second[i] implies first[i] by {
            assert(item_matched(cipher, before.items[i].inner, fewer, &one, first[i]));
            assert(item_matched(cipher, before.items[i].inner, more, &two, second[i]));
            match before.items[i].inner {
                FileItem::Unlocked(item) => {
                    let all = item.attributes@;
                    assert(more@.submap_of(all));
                    assert forall|name: Seq<char>| #[trigger]
                        fewer@.dom().contains(name) implies #[trigger] all.dom().contains(name)
                        && fewer@[name] == all[name] by {
                        assert(more@.dom().contains(name) && fewer@[name] == more@[name]);
                        assert(all.dom().contains(name) && more@[name] == all[name]);
                    }
                    assert(fewer@.submap_of(all));
                    assert(first[i]);
                },
                FileItem::Locked(item) => {
                    assert(matched(cipher, &item.inner, fewer, &one, first[i]));
                    assert(matched(cipher, &item.inner, more, &two, second[i]));
                    assert(indexing(cipher)) by {
                        assert(!(before.items[i].inner is Unlocked));
                    }
                    assert(first[i]);
                },
            }
        }
    }
    fewer_flags_select_a_part(before.items, second, first);
}

/// What the script of a creation leaves: the collection is still unlocked, and where nothing is
/// replaced, the new item comes behind all others.
proof fn lemma_created<C: KeyringCipher, L: LockedKeyring, U: UnlockedKeyring<L>>(
    before: CollectionView<L, U>,
    cipher: &C,
    inner: FileItem,
    attributes: &Attributes,
    replace: bool,
    after: CollectionView<L, U>,
    path: String,
    script: Seq<Action>,
    now: Timestamp,
)
    requires
        !before.is_locked(),
        creates(before, cipher, inner, attributes, replace, after, path, script),
        forall|e: ServiceError| script != #[trigger] failed_creation(e),
    ensures
        !applied(after, script, now).is_locked(),
        !replace ==> applied(after, script, now).items == before.items.push(
            applied(after, script, now).items.last(),
        ),
{
    let numbered = CollectionView { item_index: (before.item_index + 1) as u32, ..before };
    let item = choose|item: Item| #[trigger]
        is_new_item(before, inner, item) && path@ == item.path@ && if replace {
            exists|outcome: Result<Seq<bool>, ServiceError>| #[trigger]
                searches(numbered, cipher, attributes, after, outcome) && match outcome {
                    Ok(hits) => script == creation(
                        paths(selected(before.items, hits, true)),
                        item,
                    ),
                    Err(e) => script == failed_creation(e),
                }
        } else {
            after == numbered && script == creation(seq![], item)
        };
    if replace {
        let outcome = choose|outcome: Result<Seq<bool>, ServiceError>| #[trigger]
            searches(numbered, cipher, attributes, after, outcome) && match outcome {
                Ok(hits) => script == creation(paths(selected(before.items, hits, true)), item),
                Err(e) => script == failed_creation(e),
            };
        let hits = outcome->Ok_0;
        creation_does_what_it_says(after, paths(selected(before.items, hits, true)), item, now);
    } else {
        creation_does_what_it_says(after, seq![], item, now);
    }
}

/// A search by the attributes of an item that was created finds it, as the last. Where it
/// replaced the others with its attributes, the search finds it alone.
pub proof fn a_created_item_is_found<C: KeyringCipher, L: LockedKeyring, U: UnlockedKeyring<L>>(
    keyring: U,
    cipher: &C,
    request: StoreRequest,
    told: U,
    stored: UnlockedItem,
    before: CollectionView<L, U>,
    after: CollectionView<L, U>,
    path: String,
    script: Seq<Action>,
    now: Timestamp,
    searched: CollectionView<L, U>,
    hits: Seq<bool>,
)
    requires
        !before.is_locked(),
        all_unlocked(before.items),
        distinct_item_paths(before.items),
        keyring_stores(keyring, cipher, request, told, Ok(stored)),
        creates(
            before,
            cipher,
            FileItem::Unlocked(stored),
            &request.attributes,
            request.replace,
            after,
            path,
            script,
        ),
        forall|e: ServiceError| script != #[trigger] failed_creation(e),
        searches(applied(after, script, now), cipher, &request.attributes, searched, Ok(hits)),
    ensures
        ({
            let done = applied(after, script, now).items;
            let found = selected(done, hits, true);
            &&& found.len() > 0
            &&& found.last() == done.last()
            &&& found.last().path@ == path@
            &&& request.replace ==> found == seq![done.last()]
        }),
{
    let inner = FileItem::Unlocked(stored);
    let done = applied(after, script, now);
    a_created_item_is_there(
        keyring,
        cipher,
        request,
        told,
        stored,
        before,
        after,
        path,
        script,
        now,
    );
    lemma_created(
        before,
        cipher,
        inner,
        &request.attributes,
        request.replace,
        after,
        path,
        script,
        now,
    );
    if request.replace {
        replacing_leaves_one(
            before,
            cipher,
            inner,
            &request.attributes,
            after,
            path,
            script,
            now,
        );
    }
    let last = done.items.len() - 1;
    assert(done.items[last].inner is Unlocked);
    assert forall|i: int| 0 <= i < done.items.len() implies (
    #[trigger] done.items[i]).inner is Unlocked by {
        if i < last {
            if request.replace {
                assert(before.items.contains(done.items[i]));
            } else {
                assert(done.items[i] == before.items[i]);
            }
        }
    }
    search_is_by_subset(done, cipher, &request.attributes, searched, hits);
    assert(attributes_of(done.items[last]) == request.attributes@);
    assert(hits[last]);
    let rest = done.items.drop_last();
    let found = selected(done.items, hits, true);
    assert(found == selected(rest, hits, true).push(done.items[last]));
    if request.replace {
        assert forall|i: int| 0 <= i < rest.len() implies #[trigger] hits[i] != true by {
            assert(hits[i] == request.attributes@.submap_of(attributes_of(done.items[i])));
        }
        selecting_none_or_all(rest, hits, true);
        assert(found =~= seq![done.items[last]]);
    }
}

} // verus!

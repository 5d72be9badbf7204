//! What goes on the bus with the items of a keyring, and what goes off with a collection.
use vstd::prelude::*;

use crate::crypto::error::Error as CryptoError;
use crate::file::api::decrypts;
use crate::file::api::listed;
use crate::file::api::lists_attempt;
use crate::file::api::lists_opened;
use crate::file::api::EncryptedItem;
use crate::file::api::Item as FileItem;
use crate::file::api::ItemView as FileItemView;
use crate::file::api::KeyringCipher;
use crate::file::api::UnlockedItem;
use crate::file::api::UnlockedItemView;
use crate::file::call_laws::all_listed_locked;
use crate::file::call_laws::always_fails;
use crate::file::call_laws::any_contents;
use crate::file::call_laws::any_file;
use crate::file::call_laws::any_key;
use crate::file::call_laws::any_keyring_has_no_key;
use crate::file::call_laws::is_path;
use crate::file::call_laws::judged_by_the_cipher;
use crate::file::call_laws::tells_why;
use crate::file::cipher::faithful;
use crate::file::cipher::held_items_are_shown;
use crate::file::cipher::holds;
use crate::file::cipher::same_key;
use crate::file::cipher::shows;
use crate::file::cipher::shows_all;
use crate::file::cipher::what_is_held_comes_out;
use crate::file::error::Error as FileError;
use crate::file::error::InvalidItemError;
use crate::file::gpg_keyring::GpgLockedKeyring;
use crate::file::keyring_laws::any_keyring_holds;
use crate::file::keyring_laws::same_any_keyring;
use crate::file::loader::AnyLockedKeyring;
use crate::file::loader::AnyUnlockedKeyring;
use crate::file::password_keyring::PasswordLockedKeyring;
use crate::file::traits::key_answer;
use crate::file::traits::LockedKeyring;
use crate::file::traits::UnlockedKeyring;
use crate::object_path::child;
use crate::secret::Key;
use crate::secret::Secret;
use crate::server::collection::applied;
use crate::server::collection::dispatches;
use crate::server::collection::good_until;
use crate::server::collection::publishes;
use crate::server::collection::publishes_all;
use crate::server::collection::state_lists;
use crate::server::collection::unlocked_lists;
use crate::server::collection::Collection;
use crate::server::collection::CollectionView;
use crate::server::collection::KeyringState;
use crate::server::deletion::deletion;
use crate::server::error::Error;
use crate::server::item::Item;
use crate::server::laws::collection_deletion_does_what_it_says;
use crate::server::laws::lemma_publishes_all;
use crate::server::laws::published;
use crate::server::script::Action;
use crate::server::script::Place;
use crate::server::script::Request;
use crate::server::script::Signal;
use crate::server::script_laws::requests;
use crate::text::decimal;
use crate::text_laws::a_number_reads_as_it_was_written;
use crate::text_laws::writes;
use crate::time::Timestamp;

verus! {

/// The path is that of a child of the collection with this number.
pub open spec fn is_child_path(base: Seq<char>, n: nat, path: Seq<char>) -> bool {
    &&& path.len() > base.len() + 1
    &&& path.take(base.len() as int) == base
    &&& path[base.len() as int] == '/'
    &&& writes(path.skip(base.len() as int + 1), n)
}

/// The items were published, numbered from one, with what the entries show, and each was put on
/// the bus at its own path, in their order. Nothing else was asked for.
pub open spec fn dispatched(
    path: Seq<char>,
    inners: Seq<FileItemView>,
    items: Seq<Item>,
    asked: Seq<Request>,
) -> bool {
    &&& items.len() == inners.len()
    &&& asked.len() == items.len()
    &&& forall|i: int|
        0 <= i < items.len() ==> {
            &&& (#[trigger] items[i]).inner@ == inners[i]
            &&& items[i].collection_path@ == path
            &&& is_child_path(path, (i + 1) as nat, items[i].path@)
            &&& asked[i] matches Request::ExposeItem(p) && p@ == items[i].path@
        }
}

proof fn lemma_asked(
    path: Seq<char>,
    list: Seq<Result<FileItem, InvalidItemError>>,
    script: Seq<Action>,
    n: int,
)
    requires
        0 <= n <= list.len(),
        publishes_all(path, list, n, script),
    ensures
        requests(script.take(2 * n)).len() == n,
        forall|i: int|
            0 <= i < n ==> Action::Ask(#[trigger] requests(script.take(2 * n))[i]) == script[2 * i
                + 1],
    decreases n,
{
    if n == 0 {
        assert(script.take(0) =~= Seq::<Action>::empty());
    } else {
        lemma_asked(path, list, script, n - 1);
        let before = requests(script.take(2 * (n - 1)));
        assert(publishes(
            path,
            list[n - 1]->Ok_0,
            n,
            script[2 * (n - 1)],
            script[2 * (n - 1) + 1],
        ));
        let two = script.take(2 * n);
        let one = two.drop_last();
        assert(one.drop_last() =~= script.take(2 * (n - 1)));
        assert(one.last() == script[2 * (n - 1)]);
        assert(two.last() == script[2 * (n - 1) + 1]);
        assert(requests(one) == before);
        let now = requests(two);
        assert(now == before.push(now[n - 1]));
        assert forall|i: int| 0 <= i < n implies Action::Ask(#[trigger] now[i]) == script[2 * i
            + 1] by {
            if i < n - 1 {
                assert(now[i] == before[i]);
            }
        }
    }
}

proof fn lemma_child(path: Seq<char>, n: nat)
    ensures
        is_child_path(path, n, child(path, n)),
{
    let whole = child(path, n);
    a_number_reads_as_it_was_written(n);
    assert(whole.take(path.len() as int) =~= path);
    assert(whole.skip(path.len() as int + 1) =~= decimal(n));
}

proof fn lemma_dispatched<L, U>(
    c: CollectionView<L, U>,
    list: Seq<Result<FileItem, InvalidItemError>>,
    inners: Seq<FileItemView>,
    script: Seq<Action>,
    now: Timestamp,
)
    requires
        list.len() < u32::MAX,
        list.len() == inners.len(),
        forall|i: int|
            0 <= i < list.len() ==> ((#[trigger] list[i]) matches Ok(inner) && inner@ == inners[i]),
        dispatches(c.path, list, script),
    ensures
        ({
            let after = applied(c, script, now);
            &&& exists|items: Seq<Item>| #[trigger]
                dispatched(c.path, inners, items, requests(script)) && after.items == c.items
                    + items
            &&& after == (CollectionView {
                items: after.items,
                item_index: (list.len() + 1) as u32,
                ..c
            })
        }),
{
    let n = choose|n: int| #[trigger]
        good_until(list, n) && script.len() == 2 * n + 1 && publishes_all(c.path, list, n, script)
            && script[2 * n] == (if n == list.len() {
            Action::SetIndex((n + 1) as u32)
        } else {
            Action::Fail(Error::InvalidItem(list[n]->Err_0))
        });
    if n < list.len() {
        assert(list[n] is Ok);
    }
    lemma_publishes_all(c, list, script, n, now);
    lemma_asked(c.path, list, script, n);
    assert(script.drop_last() =~= script.take(2 * n));
    assert(script.last() == script[2 * n]);
    let items = published(script, n);
    let asked = requests(script);
    assert(asked == requests(script.take(2 * n)));
    assert forall|i: int| 0 <= i < items.len() implies {
        &&& (#[trigger] items[i]).inner@ == inners[i]
        &&& items[i].collection_path@ == c.path
        &&& is_child_path(c.path, (i + 1) as nat, items[i].path@)
        &&& asked[i] matches Request::ExposeItem(p) && p@ == items[i].path@
    } by {
        assert(list[i] matches Ok(inner) && inner@ == inners[i]);
        assert(publishes(c.path, list[i]->Ok_0, i + 1, script[2 * i], script[2 * i + 1]));
        assert(items[i] == script[2 * i]->Publish_0);
        assert(Action::Ask(asked[i]) == script[2 * i + 1]);
        lemma_child(c.path, (i + 1) as nat);
    }
    assert(dispatched(c.path, inners, items, asked));
}

/// The items of a locked keyring as they are published: locked.
pub open spec fn locked_views(items: Seq<EncryptedItem>) -> Seq<FileItemView> {
    items.map_values(|item: EncryptedItem| FileItemView::Locked(item@))
}

/// The items of an unlocked keyring as they are published: in the clear.
pub open spec fn unlocked_views(contents: Seq<UnlockedItemView>) -> Seq<FileItemView> {
    contents.map_values(|item: UnlockedItemView| FileItemView::Unlocked(item))
}

/// Dispatching the items of a locked keyring publishes each of them locked, at its number from one,
/// on the bus at just that path, and leaves the next number to the next item.
pub proof fn locked_items_are_dispatched<C: KeyringCipher, P, N>(
    collection: &mut Collection<AnyLockedKeyring<P, N>, AnyUnlockedKeyring<P, N>>,
    cipher: &C,
    keyring: AnyLockedKeyring<P, N>,
    items: Seq<EncryptedItem>,
    outcome: Result<Vec<Action>, Error>,
    now: Timestamp,
)
    requires
        old(collection)@.wf(),
        old(collection)@.keyring == Some(
            KeyringState::<AnyLockedKeyring<P, N>, AnyUnlockedKeyring<P, N>>::Locked(keyring),
        ),
        items == (match keyring {
            AnyLockedKeyring::Password(k) => k.inner.items@,
            AnyLockedKeyring::Gpg(k) => k.inner.items@,
        }),
        items.len() < u32::MAX,
        call_ensures(
            Collection::<AnyLockedKeyring<P, N>, AnyUnlockedKeyring<P, N>>::dispatch_items::<C>,
            (collection, cipher),
            outcome,
        ),
    ensures
        final(collection)@ == old(collection)@,
        outcome matches Ok(script) && ({
            let after = applied(old(collection)@, script@, now);
            &&& exists|new: Seq<Item>| #[trigger]
                dispatched(
                    old(collection)@.path,
                    locked_views(items),
                    new,
                    requests(script@),
                ) && after.items == old(collection)@.items + new
            &&& after.item_index == items.len() + 1
            &&& after == (CollectionView {
                items: after.items,
                item_index: after.item_index,
                ..old(collection)@
            })
        }),
{
    let before = old(collection)@;
    let (told, list) = choose|
        told: KeyringState<AnyLockedKeyring<P, N>, AnyUnlockedKeyring<P, N>>,
        list: Result<Vec<Result<FileItem, InvalidItemError>>, FileError>,
    | #[trigger]
        state_lists(before.keyring->0, cipher, told, list) && final(collection)@ == (
        CollectionView { keyring: Some(told), ..before }) && match list {
            Ok(entries) => outcome matches Ok(script) && dispatches(
                before.path,
                entries@,
                script@,
            ),
            Err(e) => outcome == Err::<Vec<Action>, Error>(Error::File(e)),
        };
    let entries = list->Ok_0@;
    let inners = locked_views(items);
    assert forall|i: int| 0 <= i < entries.len() implies ((#[trigger] entries[i]) matches Ok(inner)
        && inner@ == inners[i]) by {
        assert(entries[i] matches Ok(inner) && inner@ == FileItemView::Locked(items[i]@));
    }
    lemma_dispatched(before, entries, inners, outcome->Ok_0@, now);
}

/// Dispatching the items of an unlocked keyring publishes each of them in the clear, with what it
/// holds, at its number from one, on the bus at just that path, and leaves the next number to the
/// next item. A keyring without its key has nothing to dispatch, and says so.
pub proof fn unlocked_items_are_dispatched<C: KeyringCipher, P, N>(
    collection: &mut Collection<AnyLockedKeyring<P, N>, AnyUnlockedKeyring<P, N>>,
    cipher: &C,
    keyring: AnyUnlockedKeyring<P, N>,
    key: Key,
    contents: Seq<UnlockedItemView>,
    missing: CryptoError,
    outcome: Result<Vec<Action>, Error>,
    now: Timestamp,
)
    requires
        old(collection)@.wf(),
        old(collection)@.keyring == Some(
            KeyringState::<AnyLockedKeyring<P, N>, AnyUnlockedKeyring<P, N>>::Unlocked(keyring),
        ),
        any_contents(keyring).items@.len() < u32::MAX,
        call_ensures(
            Collection::<AnyLockedKeyring<P, N>, AnyUnlockedKeyring<P, N>>::dispatch_items::<C>,
            (collection, cipher),
            outcome,
        ),
    ensures
        faithful(cipher) && any_keyring_holds(cipher, keyring, key, contents) ==> {
            &&& final(collection)@.keyring matches Some(KeyringState::Unlocked(told))
                && same_any_keyring(keyring, told) && any_keyring_holds(
                cipher,
                told,
                key,
                contents,
            )
            &&& final(collection)@ == (CollectionView {
                keyring: final(collection)@.keyring,
                ..old(collection)@
            })
            &&& outcome matches Ok(script) && ({
                let after = applied(final(collection)@, script@, now);
                &&& exists|new: Seq<Item>| #[trigger]
                    dispatched(
                        old(collection)@.path,
                        unlocked_views(contents),
                        new,
                        requests(script@),
                    ) && after.items == old(collection)@.items + new
                &&& after.item_index == contents.len() + 1
                &&& after == (CollectionView {
                    items: after.items,
                    item_index: after.item_index,
                    ..final(collection)@
                })
            })
        },
        any_keyring_has_no_key(cipher, keyring, missing) ==> final(collection)@ == old(collection)@
            && outcome == Err::<Vec<Action>, Error>(Error::File(FileError::Crypto(missing))),
{
    let before = old(collection)@;
    let (told, list) = choose|
        told: KeyringState<AnyLockedKeyring<P, N>, AnyUnlockedKeyring<P, N>>,
        list: Result<Vec<Result<FileItem, InvalidItemError>>, FileError>,
    | #[trigger]
        state_lists(before.keyring->0, cipher, told, list) && final(collection)@ == (
        CollectionView { keyring: Some(told), ..before }) && match list {
            Ok(entries) => outcome matches Ok(script) && dispatches(
                before.path,
                entries@,
                script@,
            ),
            Err(e) => outcome == Err::<Vec<Action>, Error>(Error::File(e)),
        };
    let u = told->Unlocked_0;
    assert(unlocked_lists(keyring, cipher, u, list));
    let answer = choose|answer: Result<Key, CryptoError>| #[trigger]
        key_answer(keyring.key_source(), cipher, &keyring.contents(), answer) && match answer {
            Ok(held) => {
                &&& u == keyring.holding(held)
                &&& list matches Ok(entries) && lists_opened(
                    cipher,
                    keyring.contents().items@,
                    &held,
                    entries@,
                )
            },
            Err(e) => {
                &&& u == keyring
                &&& list == Err::<Vec<Result<FileItem, InvalidItemError>>, FileError>(
                    FileError::Crypto(e),
                )
            },
        };
    if faithful(cipher) && any_keyring_holds(cipher, keyring, key, contents) {
        assert(answer is Ok && same_key(key, answer->Ok_0));
        let held = answer->Ok_0;
        let entries = list->Ok_0@;
        let inners = unlocked_views(contents);
        held_items_are_shown(
            cipher,
            keyring.contents().items@,
            key,
            contents,
            &held,
            entries,
        );
        assert forall|i: int| 0 <= i < entries.len() implies ((#[trigger] entries[i]) matches Ok(
            inner,
        ) && inner@ == inners[i]) by {
            assert(shows(entries[i], contents[i]));
        }
        lemma_dispatched(final(collection)@, entries, inners, outcome->Ok_0@, now);
    }
}

/// An item that does not open ends the dispatch, with the reason and the names of its attributes.
/// The items before it are on the bus by then, and no other.
pub proof fn a_dispatch_ends_at_what_does_not_open<C: KeyringCipher, P, N>(
    collection: &mut Collection<AnyLockedKeyring<P, N>, AnyUnlockedKeyring<P, N>>,
    cipher: &C,
    keyring: AnyUnlockedKeyring<P, N>,
    contents: Seq<UnlockedItemView>,
    e: FileError,
    outcome: Result<Vec<Action>, Error>,
)
    requires
        faithful(cipher),
        old(collection)@.wf(),
        old(collection)@.keyring == Some(
            KeyringState::<AnyLockedKeyring<P, N>, AnyUnlockedKeyring<P, N>>::Unlocked(keyring),
        ),
        any_key(keyring) is Some,
        contents.len() < any_contents(keyring).items@.len() < u32::MAX,
        forall|i: int|
            0 <= i < contents.len() ==> holds(
                cipher,
                #[trigger] any_contents(keyring).items@[i],
                any_key(keyring)->0,
                contents[i],
            ),
        always_fails(
            cipher,
            any_contents(keyring).items@[contents.len() as int],
            any_key(keyring)->0,
            e,
        ),
        call_ensures(
            Collection::<AnyLockedKeyring<P, N>, AnyUnlockedKeyring<P, N>>::dispatch_items::<C>,
            (collection, cipher),
            outcome,
        ),
    ensures
        outcome matches Ok(script) && script@.len() == 2 * contents.len() + 1 && requests(
            script@,
        ).len() == contents.len() && (script@.last() matches Action::Fail(Error::InvalidItem(why))
            && tells_why(any_contents(keyring).items@[contents.len() as int], e, Err(why))),
{
    let before = old(collection)@;
    let items = any_contents(keyring).items@;
    let held = any_key(keyring)->0;
    let n = contents.len() as int;
    let (told, list) = choose|
        told: KeyringState<AnyLockedKeyring<P, N>, AnyUnlockedKeyring<P, N>>,
        list: Result<Vec<Result<FileItem, InvalidItemError>>, FileError>,
    | #[trigger]
        state_lists(before.keyring->0, cipher, told, list) && final(collection)@ == (
        CollectionView { keyring: Some(told), ..before }) && match list {
            Ok(entries) => outcome matches Ok(script) && dispatches(
                before.path,
                entries@,
                script@,
            ),
            Err(e) => outcome == Err::<Vec<Action>, Error>(Error::File(e)),
        };
    let u = told->Unlocked_0;
    assert(unlocked_lists(keyring, cipher, u, list));
    let answer = choose|answer: Result<Key, CryptoError>| #[trigger]
        key_answer(keyring.key_source(), cipher, &keyring.contents(), answer) && match answer {
            Ok(k) => list matches Ok(entries) && lists_opened(
                cipher,
                keyring.contents().items@,
                &k,
                entries@,
            ),
            Err(_) => list is Err,
        };
    assert(answer == Ok::<Key, CryptoError>(held));
    let entries = list->Ok_0@;
    let script = outcome->Ok_0@;
    assert forall|i: int| 0 <= i < n implies (#[trigger] entries[i]) is Ok by {
        assert(lists_attempt(cipher, items[i], &held, entries[i]));
        let opened = choose|opened: Result<UnlockedItem, FileError>| #[trigger]
            decrypts(cipher, &items[i], &held, opened)
                && listed(items[i], opened, entries[i]);
        assert(holds(cipher, items[i], held, contents[i]));
        what_is_held_comes_out(cipher, items[i], held, contents[i], &held, opened);
    }
    assert(lists_attempt(cipher, items[n], &held, entries[n]));
    let opened = choose|opened: Result<UnlockedItem, FileError>| #[trigger]
        decrypts(cipher, &items[n], &held, opened) && listed(
            items[n],
            opened,
            entries[n],
        );
    assert(call_ensures(C::decrypt, (cipher, &items[n], &held), opened));
    assert(opened == Err::<UnlockedItem, FileError>(e));
    let m = choose|m: int| #[trigger]
        good_until(entries, m) && script.len() == 2 * m + 1 && publishes_all(
            before.path,
            entries,
            m,
            script,
        ) && script[2 * m] == (if m == entries.len() {
            Action::SetIndex((m + 1) as u32)
        } else {
            Action::Fail(Error::InvalidItem(entries[m]->Err_0))
        });
    if m < n {
        assert(entries[m] is Ok);
    }
    if n < m {
        assert(entries[n] is Ok);
    }
    assert(m == n);
    lemma_asked(before.path, entries, script, n);
    assert(script.drop_last() =~= script.take(2 * n));
    assert(script.last() == script[2 * n]);
    let why = entries[n]->Err_0;
    let names = why.attribute_names@;
    let shown = names.map_values(|t: String| t@);
    assert(shown == items[n].names());
    assert(shown.len() == names.len());
    assert forall|j: int| 0 <= j < names.len() implies (#[trigger] names[j])@
        == items[n].hashed_attributes@[j].0@ by {
        assert(shown[j] == names[j]@);
        assert(items[n].names()[j] == items[n].hashed_attributes@[j].0@);
    }
}

/// Deleting an unlocked collection takes its items off the bus, one after the other, deletes its
/// file where it has one, tells that the collection is deleted, and then takes the collection off
/// the bus and off the list. The collection itself is not changed, and nothing else is asked for.
pub proof fn a_deleted_collection_leaves_nothing_behind<P, N>(
    collection: Collection<AnyLockedKeyring<P, N>, AnyUnlockedKeyring<P, N>>,
    keyring: AnyUnlockedKeyring<P, N>,
    script: Vec<Action>,
    now: Timestamp,
)
    requires
        collection@.keyring == Some(
            KeyringState::<AnyLockedKeyring<P, N>, AnyUnlockedKeyring<P, N>>::Unlocked(keyring),
        ),
        call_ensures(
            Collection::<AnyLockedKeyring<P, N>, AnyUnlockedKeyring<P, N>>::delete_unlocked,
            (&collection,),
            script,
        ),
    ensures
        applied(collection@, script@, now) == collection@,
        ({
            let asked = requests(script@);
            let n = collection.items@.len() as int;
            let f: int = if any_file(keyring) is Some {
                1
            } else {
                0
            };
            &&& asked.len() == n + f + 4
            &&& forall|i: int|
                0 <= i < n ==> #[trigger] asked[i] == Request::RemoveObject(
                    collection.items@[i].path,
                )
            &&& any_file(keyring) matches Some(file) ==> asked[n] == Request::RemoveFile(file)
            &&& asked[n + f] == Request::OpenEmitter(Place::Service)
            &&& asked[n + f + 1] == Request::Emit(Signal::CollectionDeleted(collection.path))
            &&& asked[n + f + 2] == Request::RemoveObject(collection.path)
            &&& asked[n + f + 3] == Request::Unregister(collection.path)
        }),
{
    let file = any_file(keyring);
    assert(script@ == deletion(collection.items@, file, collection.path));
    collection_deletion_does_what_it_says(
        collection@,
        file,
        collection.path,
        now,
    );
    lemma_all_asks(script@);
}

proof fn lemma_all_asks(script: Seq<Action>)
    ensures
        (forall|i: int| 0 <= i < script.len() ==> (#[trigger] script[i]) is Ask) ==> requests(
            script,
        ).len() == script.len() && forall|i: int|
            0 <= i < script.len() ==> Action::Ask(#[trigger] requests(script)[i]) == script[i],
    decreases script.len(),
{
    if script.len() > 0 && (forall|i: int|
        0 <= i < script.len() ==> (#[trigger] script[i]) is Ask) {
        let rest = script.drop_last();
        assert forall|i: int| 0 <= i < rest.len() implies (#[trigger] rest[i]) is Ask by {
            assert(rest[i] == script[i]);
        }
        lemma_all_asks(rest);
        let now = requests(script);
        assert(script[script.len() - 1] is Ask);
        assert forall|i: int| 0 <= i < script.len() implies Action::Ask(#[trigger] now[i])
            == script[i] by {
            if i < rest.len() {
                assert(now[i] == requests(rest)[i]);
                assert(rest[i] == script[i]);
            }
        }
    }
}

/// What a keyring of a collection tells is what the keyring inside tells. An unlocked one takes any
/// secret, since it needs none.
pub proof fn a_keyring_tells_the_same_in_a_collection<C: KeyringCipher, P, N>(
    password: PasswordLockedKeyring<P>,
    gpg: GpgLockedKeyring<N>,
    unlocked: AnyUnlockedKeyring<P, N>,
    cipher: &C,
    secret: &Secret,
    valid: Result<bool, FileError>,
    path: Option<&std::path::PathBuf>,
    time: Timestamp,
    locked: bool,
    text: String,
)
    ensures
        call_ensures(
            KeyringState::<
                AnyLockedKeyring<P, N>,
                AnyUnlockedKeyring<P, N>,
            >::validate_secret::<C>,
            (&KeyringState::Locked(AnyLockedKeyring::Password(password)), cipher, secret),
            valid,
        ) ==> judged_by_the_cipher(cipher, password.inner, secret, valid),
        call_ensures(
            KeyringState::<
                AnyLockedKeyring<P, N>,
                AnyUnlockedKeyring<P, N>,
            >::validate_secret::<C>,
            (&KeyringState::Locked(AnyLockedKeyring::Gpg(gpg)), cipher, secret),
            valid,
        ) ==> valid == Ok::<bool, FileError>(true),
        call_ensures(
            KeyringState::<
                AnyLockedKeyring<P, N>,
                AnyUnlockedKeyring<P, N>,
            >::validate_secret::<C>,
            (&KeyringState::Unlocked(unlocked), cipher, secret),
            valid,
        ) ==> valid == Ok::<bool, FileError>(true),
        call_ensures(
            KeyringState::<AnyLockedKeyring<P, N>, AnyUnlockedKeyring<P, N>>::path,
            (&KeyringState::Locked(AnyLockedKeyring::Password(password)),),
            path,
        ) ==> is_path(password.path, path),
        call_ensures(
            KeyringState::<AnyLockedKeyring<P, N>, AnyUnlockedKeyring<P, N>>::path,
            (&KeyringState::Locked(AnyLockedKeyring::Gpg(gpg)),),
            path,
        ) ==> is_path(gpg.path, path),
        call_ensures(
            KeyringState::<AnyLockedKeyring<P, N>, AnyUnlockedKeyring<P, N>>::path,
            (&KeyringState::Unlocked(unlocked),),
            path,
        ) ==> is_path(any_file(unlocked), path),
        call_ensures(
            KeyringState::<AnyLockedKeyring<P, N>, AnyUnlockedKeyring<P, N>>::modified_time,
            (&KeyringState::Locked(AnyLockedKeyring::Password(password)),),
            time,
        ) ==> time == password.inner.modified_time,
        call_ensures(
            KeyringState::<AnyLockedKeyring<P, N>, AnyUnlockedKeyring<P, N>>::modified_time,
            (&KeyringState::Locked(AnyLockedKeyring::Gpg(gpg)),),
            time,
        ) ==> time == gpg.inner.modified_time,
        call_ensures(
            KeyringState::<AnyLockedKeyring<P, N>, AnyUnlockedKeyring<P, N>>::modified_time,
            (&KeyringState::Unlocked(unlocked),),
            time,
        ) ==> time == any_contents(unlocked).modified_time,
        call_ensures(
            KeyringState::<AnyLockedKeyring<P, N>, AnyUnlockedKeyring<P, N>>::is_locked,
            (&KeyringState::Unlocked(unlocked),),
            locked,
        ) ==> !locked,
        call_ensures(
            KeyringState::<AnyLockedKeyring<P, N>, AnyUnlockedKeyring<P, N>>::is_locked,
            (&KeyringState::Locked(AnyLockedKeyring::Password(password)),),
            locked,
        ) ==> locked,
        call_ensures(
            KeyringState::<AnyLockedKeyring<P, N>, AnyUnlockedKeyring<P, N>>::debug_text,
            (&KeyringState::Unlocked(unlocked),),
            text,
        ) ==> text@ == "KeyringState::Unlocked"@,
        call_ensures(
            KeyringState::<AnyLockedKeyring<P, N>, AnyUnlockedKeyring<P, N>>::debug_text,
            (&KeyringState::Locked(AnyLockedKeyring::Password(password)),),
            text,
        ) ==> text@ == "KeyringState::Locked"@,
{
}

/// A keyring of a collection lists its items locked while it is locked, and in the clear, with what
/// they hold, while it is not.
pub proof fn a_keyring_lists_the_same_in_a_collection<C: KeyringCipher, P, N>(
    state: &mut KeyringState<AnyLockedKeyring<P, N>, AnyUnlockedKeyring<P, N>>,
    cipher: &C,
    key: Key,
    contents: Seq<UnlockedItemView>,
    list: Result<Vec<Result<FileItem, InvalidItemError>>, FileError>,
)
    requires
        faithful(cipher),
        call_ensures(
            KeyringState::<AnyLockedKeyring<P, N>, AnyUnlockedKeyring<P, N>>::items::<C>,
            (state, cipher),
            list,
        ),
    ensures
        match *old(state) {
            KeyringState::Locked(AnyLockedKeyring::Password(k)) => *final(state) == *old(state) && (
            list matches Ok(entries) && all_listed_locked(k.inner.items@, entries@)),
            KeyringState::Locked(AnyLockedKeyring::Gpg(k)) => *final(state) == *old(state) && (
            list matches Ok(entries) && all_listed_locked(k.inner.items@, entries@)),
            KeyringState::Unlocked(k) => any_keyring_holds(cipher, k, key, contents) ==> (
            list matches Ok(entries) && shows_all(entries@, contents)),
        },
{
    if let KeyringState::Unlocked(k) = *old(state) {
        if any_keyring_holds(cipher, k, key, contents) {
            let u = (*final(state))->Unlocked_0;
            let answer = choose|answer: Result<Key, CryptoError>| #[trigger]
                key_answer(k.key_source(), cipher, &k.contents(), answer) && match answer {
                    Ok(held) => list matches Ok(entries) && lists_opened(
                        cipher,
                        k.contents().items@,
                        &held,
                        entries@,
                    ),
                    Err(e) => list is Err,
                };
            assert(answer is Ok && same_key(key, answer->Ok_0));
            held_items_are_shown(
                cipher,
                k.contents().items@,
                key,
                contents,
                &answer->Ok_0,
                list->Ok_0@,
            );
        }
    }
}

} // verus!

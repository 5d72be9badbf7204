//! What a call on an unlocked keyring does to what its items hold, and what it gives, with a
//! cipher that does its job. A keyring of either kind does the same, alone or behind the loader.
use vstd::prelude::*;

use crate::attributes::Attributes;
use crate::crypto::error::Error as CryptoError;
use crate::file::api::created;
use crate::file::api::lists_opened;
use crate::file::api::removed;
use crate::file::api::selected;
use crate::file::api::Item;
use crate::file::api::Keyring;
use crate::file::api::KeyringCipher;
use crate::file::api::UnlockedItem;
use crate::file::api::UnlockedItemView;
use crate::file::cipher::faithful;
use crate::file::cipher::having;
use crate::file::cipher::held_items_are_shown;
use crate::file::cipher::hold;
use crate::file::cipher::honest;
use crate::file::cipher::indexing;
use crate::file::cipher::key_of_secret;
use crate::file::cipher::plain_views;
use crate::file::cipher::same_key;
use crate::file::cipher::shows_all;
use crate::file::content_laws::a_deletion_goes_by_the_attributes;
use crate::file::content_laws::a_new_item_is_held_under;
use crate::file::content_laws::a_search_goes_by_the_attributes;
use crate::file::content_laws::contents_after;
use crate::file::error::Error;
use crate::file::error::InvalidItemError;
use crate::file::gpg_keyring::GpgLockedKeyring;
use crate::file::gpg_keyring::GpgUnlockedKeyring;
use crate::file::laws::a_selection_picks;
use crate::file::laws::picked;
use crate::file::loader::AnyLockedKeyring;
use crate::file::loader::AnyUnlockedKeyring;
use crate::file::password_keyring::PasswordLockedKeyring;
use crate::file::password_keyring::PasswordUnlockedKeyring;
use crate::file::storage::in_memory;
use crate::file::storage::Unsaved;
use crate::file::traits::key_answer;
use crate::file::traits::searched;
use crate::file::traits::UnlockedKeyring;
use crate::secret::Key;
use crate::secret::Secret;

verus! {

/// The items of a password-based keyring hold the contents under a key, and the keyring has that
/// key, or gets it from its secret.
pub open spec fn password_keyring_holds<C: KeyringCipher, P>(
    cipher: &C,
    keyring: PasswordUnlockedKeyring<P>,
    key: Key,
    contents: Seq<UnlockedItemView>,
) -> bool {
    &&& hold(cipher, keyring.inner.items@, key, contents)
    &&& match keyring.key {
        Some(held) => same_key(key, held),
        None => honest(cipher) && key_of_secret(
            cipher,
            keyring.inner.salt@,
            keyring.secret@,
            key,
        ),
    }
}

/// The items of a GPG-based keyring hold the contents under a key, and the keyring has that key.
pub open spec fn gpg_keyring_holds<C: KeyringCipher, N>(
    cipher: &C,
    keyring: GpgUnlockedKeyring<N>,
    key: Key,
    contents: Seq<UnlockedItemView>,
) -> bool {
    &&& hold(cipher, keyring.inner.items@, key, contents)
    &&& keyring.key matches Some(held) && same_key(key, held)
}

/// The items of a keyring of either kind hold the contents under a key, and the keyring has that
/// key, or gets it from its secret.
pub open spec fn any_keyring_holds<C: KeyringCipher, P, N>(
    cipher: &C,
    keyring: AnyUnlockedKeyring<P, N>,
    key: Key,
    contents: Seq<UnlockedItemView>,
) -> bool {
    match keyring {
        AnyUnlockedKeyring::Password(k) => password_keyring_holds(cipher, k, key, contents),
        AnyUnlockedKeyring::Gpg(k) => gpg_keyring_holds(cipher, k, key, contents),
    }
}

/// The keyrings differ in nothing but their items and the key that they have at hand.
pub open spec fn same_password_keyring<P>(
    a: PasswordUnlockedKeyring<P>,
    b: PasswordUnlockedKeyring<P>,
) -> bool {
    &&& a.path == b.path && a.mtime == b.mtime && a.secret == b.secret && a.label == b.label
    &&& a.secret_provider == b.secret_provider
    &&& a.inner.salt == b.inner.salt && a.inner.modified_time == b.inner.modified_time
    &&& a.inner.gpg_config == b.inner.gpg_config
}

/// The keyrings differ in nothing but their items and the key that they have at hand.
pub open spec fn same_gpg_keyring<N>(a: GpgUnlockedKeyring<N>, b: GpgUnlockedKeyring<N>) -> bool {
    &&& a.path == b.path && a.mtime == b.mtime && a.label == b.label
    &&& a.gpg_key_id == b.gpg_key_id && a.notifier == b.notifier
    &&& a.inner.salt == b.inner.salt && a.inner.modified_time == b.inner.modified_time
    &&& a.inner.gpg_config == b.inner.gpg_config
}

/// The keyrings are of one kind, and differ in nothing but their items and the key that they have
/// at hand.
pub open spec fn same_any_keyring<P, N>(
    a: AnyUnlockedKeyring<P, N>,
    b: AnyUnlockedKeyring<P, N>,
) -> bool {
    match (a, b) {
        (AnyUnlockedKeyring::Password(x), AnyUnlockedKeyring::Password(y)) => {
            same_password_keyring(x, y)
        },
        (AnyUnlockedKeyring::Gpg(x), AnyUnlockedKeyring::Gpg(y)) => same_gpg_keyring(x, y),
        _ => false,
    }
}

/// The keyring gives the key that its items lie under.
pub proof fn lemma_password_answer<C: KeyringCipher, P>(
    cipher: &C,
    keyring: PasswordUnlockedKeyring<P>,
    key: Key,
    contents: Seq<UnlockedItemView>,
    answer: Result<Key, CryptoError>,
)
    requires
        password_keyring_holds(cipher, keyring, key, contents),
        key_answer(keyring.key_source(), cipher, &keyring.contents(), answer),
    ensures
        answer matches Ok(held) && same_key(key, held),
{
}

/// A password-based keyring lists what its items hold, in the clear and in their order.
pub proof fn a_password_keyring_lists_what_it_holds<C: KeyringCipher, P>(
    keyring: &mut PasswordUnlockedKeyring<P>,
    cipher: &C,
    key: Key,
    contents: Seq<UnlockedItemView>,
    list: Result<Vec<Result<Item, InvalidItemError>>, Error>,
)
    requires
        faithful(cipher),
        password_keyring_holds(cipher, *old(keyring), key, contents),
        call_ensures(
            <PasswordUnlockedKeyring<P> as UnlockedKeyring<PasswordLockedKeyring<P>>>::items::<C>,
            (keyring, cipher),
            list,
        ),
    ensures
        list matches Ok(entries) && shows_all(entries@, contents),
        password_keyring_holds(cipher, *final(keyring), key, contents),
        same_password_keyring(*old(keyring), *final(keyring)),
{
    let before = *old(keyring);
    let answer = choose|answer: Result<Key, CryptoError>| #[trigger]
        key_answer(before.key_source(), cipher, &before.contents(), answer) && (answer matches Ok(
            held,
        ) ==> *final(keyring) == before.holding(held) && (list matches Ok(entries) && lists_opened(
            cipher,
            before.contents().items@,
            &held,
            entries@,
        )));
    lemma_password_answer(cipher, before, key, contents, answer);
    let held = answer->Ok_0;
    let entries = list->Ok_0@;
    held_items_are_shown(cipher, before.contents().items@, key, contents, &held, entries);
}

/// A search in a password-based keyring finds the items that have the wanted attributes, all of
/// them and no other, in their order. It changes nothing.
pub proof fn a_password_keyring_finds_by_attributes<C: KeyringCipher, P>(
    keyring: &mut PasswordUnlockedKeyring<P>,
    cipher: &C,
    key: Key,
    contents: Seq<UnlockedItemView>,
    attributes: &Attributes,
    found: Result<Vec<UnlockedItem>, Error>,
)
    requires
        faithful(cipher),
        indexing(cipher),
        password_keyring_holds(cipher, *old(keyring), key, contents),
        call_ensures(
            <PasswordUnlockedKeyring<P> as UnlockedKeyring<PasswordLockedKeyring<P>>>::search_items::<C>,
            (keyring, cipher, attributes),
            found,
        ),
    ensures
        found matches Ok(list) && picked(
            contents,
            having(contents, attributes@),
            true,
            plain_views(list@),
        ),
        password_keyring_holds(cipher, *final(keyring), key, contents),
        same_password_keyring(*old(keyring), *final(keyring)),
{
    let before = *old(keyring);
    let answer = choose|answer: Result<Key, CryptoError>| #[trigger]
        key_answer(before.key_source(), cipher, &before.contents(), answer) && (answer matches Ok(
            held,
        ) ==> *final(keyring) == before.holding(held) && searched(
            cipher,
            before.contents(),
            attributes,
            &held,
            found,
        ));
    lemma_password_answer(cipher, before, key, contents, answer);
    let held = answer->Ok_0;
    a_search_goes_by_the_attributes(
        cipher,
        before.contents(),
        key,
        contents,
        attributes,
        &held,
        found,
    );
    a_selection_picks(contents, having(contents, attributes@), true);
}

/// An item that was created in a password-based keyring has the given label, attributes and secret,
/// and comes behind the others. Those stay as they are, but for the ones with its attributes
/// where it replaces them.
pub proof fn a_password_keyring_takes_a_new_item<C: KeyringCipher, P>(
    keyring: &mut PasswordUnlockedKeyring<P>,
    cipher: &C,
    key: Key,
    contents: Seq<UnlockedItemView>,
    label: &str,
    attributes: &Attributes,
    secret: Secret,
    replace: bool,
    outcome: Result<Unsaved<UnlockedItem>, Error>,
)
    requires
        faithful(cipher),
        indexing(cipher),
        password_keyring_holds(cipher, *old(keyring), key, contents),
        call_ensures(
            <PasswordUnlockedKeyring<P> as UnlockedKeyring<PasswordLockedKeyring<P>>>::create_item::<C>,
            (keyring, cipher, label, attributes, secret, replace),
            outcome,
        ),
        outcome is Ok,
    ensures
        ({
            let item = outcome->Ok_0@;
            item.label@ == label@ && item.attributes@ == attributes@ && item.secret@ == secret@
        }),
        exists|kept: Seq<UnlockedItemView>| #[trigger]
            password_keyring_holds(cipher, *final(keyring), key, kept.push(outcome->Ok_0@@)) && (
            if replace {
                picked(contents, having(contents, attributes@), false, kept)
            } else {
                kept == contents
            }),
        same_password_keyring(*old(keyring), *final(keyring)),
{
    lemma_password_creation(
        *old(keyring),
        cipher,
        key,
        contents,
        (UnlockedItemView { label: label@, attributes: attributes@, secret: secret@ }),
        attributes,
        replace,
        *final(keyring),
        outcome->Ok_0@,
    );
}

/// What a creation that the keyring was asked for leaves.
pub proof fn lemma_password_creation<C: KeyringCipher, P>(
    before: PasswordUnlockedKeyring<P>,
    cipher: &C,
    key: Key,
    contents: Seq<UnlockedItemView>,
    new: UnlockedItemView,
    attributes: &Attributes,
    replace: bool,
    after: PasswordUnlockedKeyring<P>,
    item: UnlockedItem,
)
    requires
        faithful(cipher),
        indexing(cipher),
        password_keyring_holds(cipher, before, key, contents),
        new.attributes == attributes@,
        exists|answer: Result<Key, CryptoError>| #[trigger]
            key_answer(before.key_source(), cipher, &before.contents(), answer) && match answer {
                Ok(held) => after == before.holding(held).storing(after.contents())
                    && after.contents() == (Keyring {
                    items: after.contents().items,
                    ..before.contents()
                }) && created(
                    cipher,
                    before.contents().items@,
                    new,
                    attributes,
                    &held,
                    replace,
                    after.contents().items@,
                    Ok(item),
                ),
                Err(_) => false,
            },
    ensures
        item@ == new,
        exists|kept: Seq<UnlockedItemView>| #[trigger]
            password_keyring_holds(cipher, after, key, kept.push(item@)) && (if replace {
                picked(contents, having(contents, attributes@), false, kept)
            } else {
                kept == contents
            }),
        same_password_keyring(before, after),
{
    let answer = choose|answer: Result<Key, CryptoError>| #[trigger]
        key_answer(before.key_source(), cipher, &before.contents(), answer) && match answer {
            Ok(held) => after == before.holding(held).storing(after.contents())
                && after.contents() == (Keyring {
                items: after.contents().items,
                ..before.contents()
            }) && created(
                cipher,
                before.contents().items@,
                new,
                attributes,
                &held,
                replace,
                after.contents().items@,
                Ok(item),
            ),
            Err(_) => false,
        };
    lemma_password_answer(cipher, before, key, contents, answer);
    let held = answer->Ok_0;
    a_new_item_is_held_under(
        cipher,
        before.contents().items@,
        key,
        &held,
        contents,
        new,
        attributes,
        replace,
        after.contents().items@,
        item,
    );
    a_selection_picks(contents, having(contents, attributes@), false);
    let kept = contents_after(contents, new, replace).drop_last();
    assert(kept.push(item@) =~= contents_after(contents, new, replace));
    assert(password_keyring_holds(cipher, after, key, kept.push(item@)));
    if replace {
        assert(kept =~= selected(contents, having(contents, attributes@), false));
    } else {
        assert(kept =~= contents);
    }
}

/// A deletion in a password-based keyring leaves the items that lack one of the wanted attributes,
/// all of them and no other, in their order.
pub proof fn a_password_keyring_deletes_by_attributes<C: KeyringCipher, P>(
    keyring: &mut PasswordUnlockedKeyring<P>,
    cipher: &C,
    key: Key,
    contents: Seq<UnlockedItemView>,
    attributes: &Attributes,
    outcome: Result<Unsaved<()>, Error>,
)
    requires
        faithful(cipher),
        indexing(cipher),
        password_keyring_holds(cipher, *old(keyring), key, contents),
        call_ensures(
            <PasswordUnlockedKeyring<P> as UnlockedKeyring<PasswordLockedKeyring<P>>>::delete::<C>,
            (keyring, cipher, attributes),
            outcome,
        ),
    ensures
        outcome is Ok,
        exists|kept: Seq<UnlockedItemView>| #[trigger]
            password_keyring_holds(cipher, *final(keyring), key, kept) && picked(
                contents,
                having(contents, attributes@),
                false,
                kept,
            ),
        same_password_keyring(*old(keyring), *final(keyring)),
{
    lemma_password_deletion(
        *old(keyring),
        cipher,
        key,
        contents,
        attributes,
        *final(keyring),
        in_memory(outcome),
    );
}

/// What a deletion that the keyring was asked for leaves.
pub proof fn lemma_password_deletion<C: KeyringCipher, P>(
    before: PasswordUnlockedKeyring<P>,
    cipher: &C,
    key: Key,
    contents: Seq<UnlockedItemView>,
    attributes: &Attributes,
    after: PasswordUnlockedKeyring<P>,
    outcome: Result<(), Error>,
)
    requires
        faithful(cipher),
        indexing(cipher),
        password_keyring_holds(cipher, before, key, contents),
        exists|answer: Result<Key, CryptoError>| #[trigger]
            key_answer(before.key_source(), cipher, &before.contents(), answer) && (
            answer matches Ok(held) ==> after == before.holding(held).storing(after.contents())
                && after.contents() == (Keyring {
                items: after.contents().items,
                ..before.contents()
            }) && removed(
                cipher,
                before.contents().items@,
                attributes,
                &held,
                after.contents().items@,
                outcome,
            )),
    ensures
        outcome is Ok,
        exists|kept: Seq<UnlockedItemView>| #[trigger]
            password_keyring_holds(cipher, after, key, kept) && picked(
                contents,
                having(contents, attributes@),
                false,
                kept,
            ),
        same_password_keyring(before, after),
{
    let answer = choose|answer: Result<Key, CryptoError>| #[trigger]
        key_answer(before.key_source(), cipher, &before.contents(), answer) && (answer matches Ok(
            held,
        ) ==> after == before.holding(held).storing(after.contents()) && after.contents() == (
        Keyring { items: after.contents().items, ..before.contents() }) && removed(
            cipher,
            before.contents().items@,
            attributes,
            &held,
            after.contents().items@,
            outcome,
        ));
    lemma_password_answer(cipher, before, key, contents, answer);
    let held = answer->Ok_0;
    a_deletion_goes_by_the_attributes(
        cipher,
        before.contents().items@,
        key,
        contents,
        attributes,
        &held,
        after.contents().items@,
        outcome,
    );
    a_selection_picks(contents, having(contents, attributes@), false);
    let kept = selected(contents, having(contents, attributes@), false);
    assert(password_keyring_holds(cipher, after, key, kept));
}

/// The keyring gives the key that its items lie under.
pub proof fn lemma_gpg_answer<C: KeyringCipher, N>(
    cipher: &C,
    keyring: GpgUnlockedKeyring<N>,
    key: Key,
    contents: Seq<UnlockedItemView>,
    answer: Result<Key, CryptoError>,
)
    requires
        gpg_keyring_holds(cipher, keyring, key, contents),
        key_answer(keyring.key_source(), cipher, &keyring.contents(), answer),
    ensures
        answer matches Ok(held) && same_key(key, held),
{
}

/// A GPG-based keyring lists what its items hold, in the clear and in their order.
pub proof fn a_gpg_keyring_lists_what_it_holds<C: KeyringCipher, N>(
    keyring: &mut GpgUnlockedKeyring<N>,
    cipher: &C,
    key: Key,
    contents: Seq<UnlockedItemView>,
    list: Result<Vec<Result<Item, InvalidItemError>>, Error>,
)
    requires
        faithful(cipher),
        gpg_keyring_holds(cipher, *old(keyring), key, contents),
        call_ensures(
            <GpgUnlockedKeyring<N> as UnlockedKeyring<GpgLockedKeyring<N>>>::items::<C>,
            (keyring, cipher),
            list,
        ),
    ensures
        list matches Ok(entries) && shows_all(entries@, contents),
        gpg_keyring_holds(cipher, *final(keyring), key, contents),
        same_gpg_keyring(*old(keyring), *final(keyring)),
{
    let before = *old(keyring);
    let answer = choose|answer: Result<Key, CryptoError>| #[trigger]
        key_answer(before.key_source(), cipher, &before.contents(), answer) && (answer matches Ok(
            held,
        ) ==> *final(keyring) == before.holding(held) && (list matches Ok(entries) && lists_opened(
            cipher,
            before.contents().items@,
            &held,
            entries@,
        )));
    lemma_gpg_answer(cipher, before, key, contents, answer);
    let held = answer->Ok_0;
    let entries = list->Ok_0@;
    held_items_are_shown(cipher, before.contents().items@, key, contents, &held, entries);
}

/// A search in a GPG-based keyring finds the items that have the wanted attributes, all of them
/// and no other, in their order. It changes nothing.
pub proof fn a_gpg_keyring_finds_by_attributes<C: KeyringCipher, N>(
    keyring: &mut GpgUnlockedKeyring<N>,
    cipher: &C,
    key: Key,
    contents: Seq<UnlockedItemView>,
    attributes: &Attributes,
    found: Result<Vec<UnlockedItem>, Error>,
)
    requires
        faithful(cipher),
        indexing(cipher),
        gpg_keyring_holds(cipher, *old(keyring), key, contents),
        call_ensures(
            <GpgUnlockedKeyring<N> as UnlockedKeyring<GpgLockedKeyring<N>>>::search_items::<C>,
            (keyring, cipher, attributes),
            found,
        ),
    ensures
        found matches Ok(list) && picked(
            contents,
            having(contents, attributes@),
            true,
            plain_views(list@),
        ),
        gpg_keyring_holds(cipher, *final(keyring), key, contents),
        same_gpg_keyring(*old(keyring), *final(keyring)),
{
    let before = *old(keyring);
    let answer = choose|answer: Result<Key, CryptoError>| #[trigger]
        key_answer(before.key_source(), cipher, &before.contents(), answer) && (answer matches Ok(
            held,
        ) ==> *final(keyring) == before.holding(held) && searched(
            cipher,
            before.contents(),
            attributes,
            &held,
            found,
        ));
    lemma_gpg_answer(cipher, before, key, contents, answer);
    let held = answer->Ok_0;
    a_search_goes_by_the_attributes(
        cipher,
        before.contents(),
        key,
        contents,
        attributes,
        &held,
        found,
    );
    a_selection_picks(contents, having(contents, attributes@), true);
}

/// An item that was created in a GPG-based keyring has the given label, attributes and secret,
/// and comes behind the others. Those stay as they are, but for the ones with its attributes
/// where it replaces them.
pub proof fn a_gpg_keyring_takes_a_new_item<C: KeyringCipher, N>(
    keyring: &mut GpgUnlockedKeyring<N>,
    cipher: &C,
    key: Key,
    contents: Seq<UnlockedItemView>,
    label: &str,
    attributes: &Attributes,
    secret: Secret,
    replace: bool,
    outcome: Result<Unsaved<UnlockedItem>, Error>,
)
    requires
        faithful(cipher),
        indexing(cipher),
        gpg_keyring_holds(cipher, *old(keyring), key, contents),
        call_ensures(
            <GpgUnlockedKeyring<N> as UnlockedKeyring<GpgLockedKeyring<N>>>::create_item::<C>,
            (keyring, cipher, label, attributes, secret, replace),
            outcome,
        ),
        outcome is Ok,
    ensures
        ({
            let item = outcome->Ok_0@;
            item.label@ == label@ && item.attributes@ == attributes@ && item.secret@ == secret@
        }),
        exists|kept: Seq<UnlockedItemView>| #[trigger]
            gpg_keyring_holds(cipher, *final(keyring), key, kept.push(outcome->Ok_0@@)) && (
            if replace {
                picked(contents, having(contents, attributes@), false, kept)
            } else {
                kept == contents
            }),
        same_gpg_keyring(*old(keyring), *final(keyring)),
{
    lemma_gpg_creation(
        *old(keyring),
        cipher,
        key,
        contents,
        (UnlockedItemView { label: label@, attributes: attributes@, secret: secret@ }),
        attributes,
        replace,
        *final(keyring),
        outcome->Ok_0@,
    );
}

/// What a creation that the keyring was asked for leaves.
pub proof fn lemma_gpg_creation<C: KeyringCipher, N>(
    before: GpgUnlockedKeyring<N>,
    cipher: &C,
    key: Key,
    contents: Seq<UnlockedItemView>,
    new: UnlockedItemView,
    attributes: &Attributes,
    replace: bool,
    after: GpgUnlockedKeyring<N>,
    item: UnlockedItem,
)
    requires
        faithful(cipher),
        indexing(cipher),
        gpg_keyring_holds(cipher, before, key, contents),
        new.attributes == attributes@,
        exists|answer: Result<Key, CryptoError>| #[trigger]
            key_answer(before.key_source(), cipher, &before.contents(), answer) && match answer {
                Ok(held) => after == before.holding(held).storing(after.contents())
                    && after.contents() == (Keyring {
                    items: after.contents().items,
                    ..before.contents()
                }) && created(
                    cipher,
                    before.contents().items@,
                    new,
                    attributes,
                    &held,
                    replace,
                    after.contents().items@,
                    Ok(item),
                ),
                Err(_) => false,
            },
    ensures
        item@ == new,
        exists|kept: Seq<UnlockedItemView>| #[trigger]
            gpg_keyring_holds(cipher, after, key, kept.push(item@)) && (if replace {
                picked(contents, having(contents, attributes@), false, kept)
            } else {
                kept == contents
            }),
        same_gpg_keyring(before, after),
{
    let answer = choose|answer: Result<Key, CryptoError>| #[trigger]
        key_answer(before.key_source(), cipher, &before.contents(), answer) && match answer {
            Ok(held) => after == before.holding(held).storing(after.contents())
                && after.contents() == (Keyring {
                items: after.contents().items,
                ..before.contents()
            }) && created(
                cipher,
                before.contents().items@,
                new,
                attributes,
                &held,
                replace,
                after.contents().items@,
                Ok(item),
            ),
            Err(_) => false,
        };
    lemma_gpg_answer(cipher, before, key, contents, answer);
    let held = answer->Ok_0;
    a_new_item_is_held_under(
        cipher,
        before.contents().items@,
        key,
        &held,
        contents,
        new,
        attributes,
        replace,
        after.contents().items@,
        item,
    );
    a_selection_picks(contents, having(contents, attributes@), false);
    let kept = contents_after(contents, new, replace).drop_last();
    assert(kept.push(item@) =~= contents_after(contents, new, replace));
    assert(gpg_keyring_holds(cipher, after, key, kept.push(item@)));
    if replace {
        assert(kept =~= selected(contents, having(contents, attributes@), false));
    } else {
        assert(kept =~= contents);
    }
}

/// A deletion in a GPG-based keyring leaves the items that lack one of the wanted attributes, all
/// of them and no other, in their order.
pub proof fn a_gpg_keyring_deletes_by_attributes<C: KeyringCipher, N>(
    keyring: &mut GpgUnlockedKeyring<N>,
    cipher: &C,
    key: Key,
    contents: Seq<UnlockedItemView>,
    attributes: &Attributes,
    outcome: Result<Unsaved<()>, Error>,
)
    requires
        faithful(cipher),
        indexing(cipher),
        gpg_keyring_holds(cipher, *old(keyring), key, contents),
        call_ensures(
            <GpgUnlockedKeyring<N> as UnlockedKeyring<GpgLockedKeyring<N>>>::delete::<C>,
            (keyring, cipher, attributes),
            outcome,
        ),
    ensures
        outcome is Ok,
        exists|kept: Seq<UnlockedItemView>| #[trigger]
            gpg_keyring_holds(cipher, *final(keyring), key, kept) && picked(
                contents,
                having(contents, attributes@),
                false,
                kept,
            ),
        same_gpg_keyring(*old(keyring), *final(keyring)),
{
    lemma_gpg_deletion(
        *old(keyring),
        cipher,
        key,
        contents,
        attributes,
        *final(keyring),
        in_memory(outcome),
    );
}

/// What a deletion that the keyring was asked for leaves.
pub proof fn lemma_gpg_deletion<C: KeyringCipher, N>(
    before: GpgUnlockedKeyring<N>,
    cipher: &C,
    key: Key,
    contents: Seq<UnlockedItemView>,
    attributes: &Attributes,
    after: GpgUnlockedKeyring<N>,
    outcome: Result<(), Error>,
)
    requires
        faithful(cipher),
        indexing(cipher),
        gpg_keyring_holds(cipher, before, key, contents),
        exists|answer: Result<Key, CryptoError>| #[trigger]
            key_answer(before.key_source(), cipher, &before.contents(), answer) && (
            answer matches Ok(held) ==> after == before.holding(held).storing(after.contents())
                && after.contents() == (Keyring {
                items: after.contents().items,
                ..before.contents()
            }) && removed(
                cipher,
                before.contents().items@,
                attributes,
                &held,
                after.contents().items@,
                outcome,
            )),
    ensures
        outcome is Ok,
        exists|kept: Seq<UnlockedItemView>| #[trigger]
            gpg_keyring_holds(cipher, after, key, kept) && picked(
                contents,
                having(contents, attributes@),
                false,
                kept,
            ),
        same_gpg_keyring(before, after),
{
    let answer = choose|answer: Result<Key, CryptoError>| #[trigger]
        key_answer(before.key_source(), cipher, &before.contents(), answer) && (answer matches Ok(
            held,
        ) ==> after == before.holding(held).storing(after.contents()) && after.contents() == (
        Keyring { items: after.contents().items, ..before.contents() }) && removed(
            cipher,
            before.contents().items@,
            attributes,
            &held,
            after.contents().items@,
            outcome,
        ));
    lemma_gpg_answer(cipher, before, key, contents, answer);
    let held = answer->Ok_0;
    a_deletion_goes_by_the_attributes(
        cipher,
        before.contents().items@,
        key,
        contents,
        attributes,
        &held,
        after.contents().items@,
        outcome,
    );
    a_selection_picks(contents, having(contents, attributes@), false);
    let kept = selected(contents, having(contents, attributes@), false);
    assert(gpg_keyring_holds(cipher, after, key, kept));
}

/// The keyring gives the key that its items lie under.
pub proof fn lemma_any_answer<C: KeyringCipher, P, N>(
    cipher: &C,
    keyring: AnyUnlockedKeyring<P, N>,
    key: Key,
    contents: Seq<UnlockedItemView>,
    answer: Result<Key, CryptoError>,
)
    requires
        any_keyring_holds(cipher, keyring, key, contents),
        key_answer(keyring.key_source(), cipher, &keyring.contents(), answer),
    ensures
        answer matches Ok(held) && same_key(key, held),
{
}

/// A loaded keyring lists what its items hold, in the clear and in their order.
pub proof fn a_any_keyring_lists_what_it_holds<C: KeyringCipher, P, N>(
    keyring: &mut AnyUnlockedKeyring<P, N>,
    cipher: &C,
    key: Key,
    contents: Seq<UnlockedItemView>,
    list: Result<Vec<Result<Item, InvalidItemError>>, Error>,
)
    requires
        faithful(cipher),
        any_keyring_holds(cipher, *old(keyring), key, contents),
        call_ensures(
            <AnyUnlockedKeyring<P, N> as UnlockedKeyring<AnyLockedKeyring<P, N>>>::items::<C>,
            (keyring, cipher),
            list,
        ),
    ensures
        list matches Ok(entries) && shows_all(entries@, contents),
        any_keyring_holds(cipher, *final(keyring), key, contents),
        same_any_keyring(*old(keyring), *final(keyring)),
{
    let before = *old(keyring);
    let answer = choose|answer: Result<Key, CryptoError>| #[trigger]
        key_answer(before.key_source(), cipher, &before.contents(), answer) && (answer matches Ok(
            held,
        ) ==> *final(keyring) == before.holding(held) && (list matches Ok(entries) && lists_opened(
            cipher,
            before.contents().items@,
            &held,
            entries@,
        )));
    lemma_any_answer(cipher, before, key, contents, answer);
    let held = answer->Ok_0;
    let entries = list->Ok_0@;
    held_items_are_shown(cipher, before.contents().items@, key, contents, &held, entries);
}

/// A search in a loaded keyring finds the items that have the wanted attributes, all of them
/// and no other, in their order. It changes nothing.
pub proof fn a_any_keyring_finds_by_attributes<C: KeyringCipher, P, N>(
    keyring: &mut AnyUnlockedKeyring<P, N>,
    cipher: &C,
    key: Key,
    contents: Seq<UnlockedItemView>,
    attributes: &Attributes,
    found: Result<Vec<UnlockedItem>, Error>,
)
    requires
        faithful(cipher),
        indexing(cipher),
        any_keyring_holds(cipher, *old(keyring), key, contents),
        call_ensures(
            <AnyUnlockedKeyring<P, N> as UnlockedKeyring<AnyLockedKeyring<P, N>>>::search_items::<C>,
            (keyring, cipher, attributes),
            found,
        ),
    ensures
        found matches Ok(list) && picked(
            contents,
            having(contents, attributes@),
            true,
            plain_views(list@),
        ),
        any_keyring_holds(cipher, *final(keyring), key, contents),
        same_any_keyring(*old(keyring), *final(keyring)),
{
    let before = *old(keyring);
    let answer = choose|answer: Result<Key, CryptoError>| #[trigger]
        key_answer(before.key_source(), cipher, &before.contents(), answer) && (answer matches Ok(
            held,
        ) ==> *final(keyring) == before.holding(held) && searched(
            cipher,
            before.contents(),
            attributes,
            &held,
            found,
        ));
    lemma_any_answer(cipher, before, key, contents, answer);
    let held = answer->Ok_0;
    a_search_goes_by_the_attributes(
        cipher,
        before.contents(),
        key,
        contents,
        attributes,
        &held,
        found,
    );
    a_selection_picks(contents, having(contents, attributes@), true);
}

/// An item that was created in a loaded keyring has the given label, attributes and secret,
/// and comes behind the others. Those stay as they are, but for the ones with its attributes
/// where it replaces them.
pub proof fn a_any_keyring_takes_a_new_item<C: KeyringCipher, P, N>(
    keyring: &mut AnyUnlockedKeyring<P, N>,
    cipher: &C,
    key: Key,
    contents: Seq<UnlockedItemView>,
    label: &str,
    attributes: &Attributes,
    secret: Secret,
    replace: bool,
    outcome: Result<Unsaved<UnlockedItem>, Error>,
)
    requires
        faithful(cipher),
        indexing(cipher),
        any_keyring_holds(cipher, *old(keyring), key, contents),
        call_ensures(
            <AnyUnlockedKeyring<P, N> as UnlockedKeyring<AnyLockedKeyring<P, N>>>::create_item::<C>,
            (keyring, cipher, label, attributes, secret, replace),
            outcome,
        ),
        outcome is Ok,
    ensures
        ({
            let item = outcome->Ok_0@;
            item.label@ == label@ && item.attributes@ == attributes@ && item.secret@ == secret@
        }),
        exists|kept: Seq<UnlockedItemView>| #[trigger]
            any_keyring_holds(cipher, *final(keyring), key, kept.push(outcome->Ok_0@@)) && (
            if replace {
                picked(contents, having(contents, attributes@), false, kept)
            } else {
                kept == contents
            }),
        same_any_keyring(*old(keyring), *final(keyring)),
{
    lemma_any_creation(
        *old(keyring),
        cipher,
        key,
        contents,
        (UnlockedItemView { label: label@, attributes: attributes@, secret: secret@ }),
        attributes,
        replace,
        *final(keyring),
        outcome->Ok_0@,
    );
}

/// What a creation that the keyring was asked for leaves.
pub proof fn lemma_any_creation<C: KeyringCipher, P, N>(
    before: AnyUnlockedKeyring<P, N>,
    cipher: &C,
    key: Key,
    contents: Seq<UnlockedItemView>,
    new: UnlockedItemView,
    attributes: &Attributes,
    replace: bool,
    after: AnyUnlockedKeyring<P, N>,
    item: UnlockedItem,
)
    requires
        faithful(cipher),
        indexing(cipher),
        any_keyring_holds(cipher, before, key, contents),
        new.attributes == attributes@,
        exists|answer: Result<Key, CryptoError>| #[trigger]
            key_answer(before.key_source(), cipher, &before.contents(), answer) && match answer {
                Ok(held) => after == before.holding(held).storing(after.contents())
                    && after.contents() == (Keyring {
                    items: after.contents().items,
                    ..before.contents()
                }) && created(
                    cipher,
                    before.contents().items@,
                    new,
                    attributes,
                    &held,
                    replace,
                    after.contents().items@,
                    Ok(item),
                ),
                Err(_) => false,
            },
    ensures
        item@ == new,
        exists|kept: Seq<UnlockedItemView>| #[trigger]
            any_keyring_holds(cipher, after, key, kept.push(item@)) && (if replace {
                picked(contents, having(contents, attributes@), false, kept)
            } else {
                kept == contents
            }),
        same_any_keyring(before, after),
{
    let answer = choose|answer: Result<Key, CryptoError>| #[trigger]
        key_answer(before.key_source(), cipher, &before.contents(), answer) && match answer {
            Ok(held) => after == before.holding(held).storing(after.contents())
                && after.contents() == (Keyring {
                items: after.contents().items,
                ..before.contents()
            }) && created(
                cipher,
                before.contents().items@,
                new,
                attributes,
                &held,
                replace,
                after.contents().items@,
                Ok(item),
            ),
            Err(_) => false,
        };
    lemma_any_answer(cipher, before, key, contents, answer);
    let held = answer->Ok_0;
    a_new_item_is_held_under(
        cipher,
        before.contents().items@,
        key,
        &held,
        contents,
        new,
        attributes,
        replace,
        after.contents().items@,
        item,
    );
    a_selection_picks(contents, having(contents, attributes@), false);
    let kept = contents_after(contents, new, replace).drop_last();
    assert(kept.push(item@) =~= contents_after(contents, new, replace));
    assert(any_keyring_holds(cipher, after, key, kept.push(item@)));
    if replace {
        assert(kept =~= selected(contents, having(contents, attributes@), false));
    } else {
        assert(kept =~= contents);
    }
}

/// A deletion in a loaded keyring leaves the items that lack one of the wanted attributes, all
/// of them and no other, in their order.
pub proof fn a_any_keyring_deletes_by_attributes<C: KeyringCipher, P, N>(
    keyring: &mut AnyUnlockedKeyring<P, N>,
    cipher: &C,
    key: Key,
    contents: Seq<UnlockedItemView>,
    attributes: &Attributes,
    outcome: Result<Unsaved<()>, Error>,
)
    requires
        faithful(cipher),
        indexing(cipher),
        any_keyring_holds(cipher, *old(keyring), key, contents),
        call_ensures(
            <AnyUnlockedKeyring<P, N> as UnlockedKeyring<AnyLockedKeyring<P, N>>>::delete::<C>,
            (keyring, cipher, attributes),
            outcome,
        ),
    ensures
        outcome is Ok,
        exists|kept: Seq<UnlockedItemView>| #[trigger]
            any_keyring_holds(cipher, *final(keyring), key, kept) && picked(
                contents,
                having(contents, attributes@),
                false,
                kept,
            ),
        same_any_keyring(*old(keyring), *final(keyring)),
{
    lemma_any_deletion(
        *old(keyring),
        cipher,
        key,
        contents,
        attributes,
        *final(keyring),
        in_memory(outcome),
    );
}

/// What a deletion that the keyring was asked for leaves.
pub proof fn lemma_any_deletion<C: KeyringCipher, P, N>(
    before: AnyUnlockedKeyring<P, N>,
    cipher: &C,
    key: Key,
    contents: Seq<UnlockedItemView>,
    attributes: &Attributes,
    after: AnyUnlockedKeyring<P, N>,
    outcome: Result<(), Error>,
)
    requires
        faithful(cipher),
        indexing(cipher),
        any_keyring_holds(cipher, before, key, contents),
        exists|answer: Result<Key, CryptoError>| #[trigger]
            key_answer(before.key_source(), cipher, &before.contents(), answer) && (
            answer matches Ok(held) ==> after == before.holding(held).storing(after.contents())
                && after.contents() == (Keyring {
                items: after.contents().items,
                ..before.contents()
            }) && removed(
                cipher,
                before.contents().items@,
                attributes,
                &held,
                after.contents().items@,
                outcome,
            )),
    ensures
        outcome is Ok,
        exists|kept: Seq<UnlockedItemView>| #[trigger]
            any_keyring_holds(cipher, after, key, kept) && picked(
                contents,
                having(contents, attributes@),
                false,
                kept,
            ),
        same_any_keyring(before, after),
{
    let answer = choose|answer: Result<Key, CryptoError>| #[trigger]
        key_answer(before.key_source(), cipher, &before.contents(), answer) && (answer matches Ok(
            held,
        ) ==> after == before.holding(held).storing(after.contents()) && after.contents() == (
        Keyring { items: after.contents().items, ..before.contents() }) && removed(
            cipher,
            before.contents().items@,
            attributes,
            &held,
            after.contents().items@,
            outcome,
        ));
    lemma_any_answer(cipher, before, key, contents, answer);
    let held = answer->Ok_0;
    a_deletion_goes_by_the_attributes(
        cipher,
        before.contents().items@,
        key,
        contents,
        attributes,
        &held,
        after.contents().items@,
        outcome,
    );
    a_selection_picks(contents, having(contents, attributes@), false);
    let kept = selected(contents, having(contents, attributes@), false);
    assert(any_keyring_holds(cipher, after, key, kept));
}

} // verus!

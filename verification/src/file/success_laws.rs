//! What succeeds where nothing outside fails.
use vstd::prelude::*;

use crate::attributes::Attributes;
use crate::crypto::error::Error as CryptoError;
use crate::crypto::gpg::SessionKey;
use crate::file::api::all_opened;
use crate::file::api::all_sealed;
use crate::file::api::created;
use crate::file::api::derives;
use crate::file::api::encrypts;
use crate::file::api::made_room;
use crate::file::api::stored;
use crate::file::api::EncryptedItem;
use crate::file::api::Keyring;
use crate::file::api::KeyringCipher;
use crate::file::api::UnlockedItem;
use crate::file::api::UnlockedItemView;
use crate::file::cipher::faithful;
use crate::file::cipher::held_items_come_out;
use crate::file::cipher::hold;
use crate::file::cipher::indexing;
use crate::file::cipher::same_key;
use crate::file::content_laws::a_deletion_goes_by_the_attributes;
use crate::file::error::Error;
use crate::file::gpg_keyring::rotated;
use crate::file::gpg_keyring::GpgLockedKeyring;
use crate::file::gpg_keyring::GpgUnlockedKeyring;
use crate::file::gpg_keyring::SaveRequest;
use crate::file::keyring_laws::any_keyring_holds;
use crate::file::keyring_laws::gpg_keyring_holds;
use crate::file::keyring_laws::lemma_any_answer;
use crate::file::keyring_laws::lemma_gpg_answer;
use crate::file::keyring_laws::lemma_password_answer;
use crate::file::keyring_laws::password_keyring_holds;
use crate::file::loader::AnyLockedKeyring;
use crate::file::loader::AnyUnlockedKeyring;
use crate::file::password_keyring::resealed;
use crate::file::password_keyring::secret_changed;
use crate::file::password_keyring::PasswordLockedKeyring;
use crate::file::password_keyring::PasswordUnlockedKeyring;
use crate::file::storage::in_memory;
use crate::file::storage::DumpRequest;
use crate::file::storage::Unsaved;
use crate::file::traits::key_answer;
use crate::file::traits::UnlockedKeyring;
use crate::secret::Key;
use crate::secret::Secret;

verus! {

/// Whatever the cipher is asked to seal, it seals.
pub open spec fn always_seals<C: KeyringCipher>(cipher: &C) -> bool {
    forall|item: UnlockedItem, key: Key, sealed: Result<EncryptedItem, Error>| #[trigger]
        call_ensures(C::encrypt, (cipher, &item, &key), sealed) ==> sealed is Ok
}

/// Whatever the cipher is asked to derive, it derives.
pub open spec fn always_derives<C: KeyringCipher>(cipher: &C) -> bool {
    forall|keyring: Keyring, secret: Secret, derived: Result<Key, CryptoError>| #[trigger]
        call_ensures(C::derive_key, (cipher, &keyring, &secret), derived) ==> derived is Ok
}

/// What can be sealed is created.
pub proof fn lemma_created<C: KeyringCipher>(
    cipher: &C,
    before: Seq<EncryptedItem>,
    key: Key,
    held: &Key,
    contents: Seq<UnlockedItemView>,
    new: UnlockedItemView,
    attributes: &Attributes,
    replace: bool,
    after: Seq<EncryptedItem>,
    outcome: Result<UnlockedItem, Error>,
)
    requires
        faithful(cipher),
        indexing(cipher),
        always_seals(cipher),
        hold(cipher, before, key, contents),
        same_key(key, *held),
        created(cipher, before, new, attributes, held, replace, after, outcome),
    ensures
        outcome is Ok,
{
    let (kept, room) = choose|kept: Seq<EncryptedItem>, room: Result<(), Error>| #[trigger]
        made_room(cipher, before, attributes, held, replace, kept, room) && match room {
            Ok(_) => stored(cipher, kept, new, held, after, outcome),
            Err(e) => after == kept && outcome == Err::<UnlockedItem, Error>(e),
        };
    if replace {
        a_deletion_goes_by_the_attributes(
            cipher,
            before,
            key,
            contents,
            attributes,
            held,
            kept,
            room,
        );
    }
    if let Err(e) = outcome {
        let item = choose|item: UnlockedItem|
            item@ == new && #[trigger] encrypts(cipher, &item, held, Err(e));
        assert(call_ensures(C::encrypt, (cipher, &item, held), Err(e)));
    }
}

proof fn lemma_sealed<C: KeyringCipher>(
    cipher: &C,
    items: Seq<UnlockedItem>,
    key: Key,
    sealed: Seq<EncryptedItem>,
    outcome: Result<(), Error>,
)
    requires
        always_seals(cipher),
        all_sealed(cipher, items, &key, sealed, outcome),
    ensures
        outcome is Ok,
{
    if let Err(e) = outcome {
        let item = items[sealed.len() as int];
        assert(encrypts(cipher, &item, &key, Err(e)));
        assert(call_ensures(C::encrypt, (cipher, &item, &key), Err(e)));
    }
}

/// What can be sealed is created among the contents of a keyring, and sealed behind them.
pub proof fn contents_take_what_can_be_sealed<C: KeyringCipher>(
    keyring: &mut Keyring,
    cipher: &C,
    key: &Key,
    contents: Seq<UnlockedItemView>,
    label: &str,
    attributes: &Attributes,
    secret: Secret,
    replace: bool,
    outcome: Result<UnlockedItem, Error>,
    items: Vec<UnlockedItem>,
    sealed: Result<(), Error>,
)
    requires
        faithful(cipher),
        indexing(cipher),
        always_seals(cipher),
        hold(cipher, old(keyring).items@, *key, contents),
    ensures
        call_ensures(
            Keyring::create_item::<C>,
            (keyring, cipher, label, attributes, secret, replace, key),
            outcome,
        ) ==> outcome is Ok,
        call_ensures(Keyring::seal_all::<C>, (keyring, cipher, &items, key), sealed)
            ==> sealed is Ok,
{
    if call_ensures(
        Keyring::create_item::<C>,
        (keyring, cipher, label, attributes, secret, replace, key),
        outcome,
    ) {
        lemma_created(
            cipher,
            old(keyring).items@,
            *key,
            key,
            contents,
            (UnlockedItemView { label: label@, attributes: attributes@, secret: secret@ }),
            attributes,
            replace,
            final(keyring).items@,
            outcome,
        );
    }
    if call_ensures(Keyring::seal_all::<C>, (keyring, cipher, &items, key), sealed) {
        lemma_sealed(
            cipher,
            items@,
            *key,
            final(keyring).items@.skip(old(keyring).items@.len() as int),
            sealed,
        );
    }
}

/// The secret of a password-based keyring is changed where a key can be derived and the items can
/// be sealed, alone or behind the loader.
pub proof fn a_secret_can_be_changed<C: KeyringCipher, P, N>(
    keyring: &mut PasswordUnlockedKeyring<P>,
    any: &mut AnyUnlockedKeyring<P, N>,
    cipher: &C,
    key: Key,
    contents: Seq<UnlockedItemView>,
    secret: Secret,
    outcome: Result<Unsaved<()>, Error>,
)
    requires
        faithful(cipher),
        always_seals(cipher),
        always_derives(cipher),
        password_keyring_holds(cipher, *old(keyring), key, contents),
        *old(any) == AnyUnlockedKeyring::<P, N>::Password(*old(keyring)),
    ensures
        call_ensures(
            PasswordUnlockedKeyring::<P>::change_secret::<C>,
            (keyring, cipher, secret),
            outcome,
        ) ==> outcome is Ok,
        call_ensures(
            AnyUnlockedKeyring::<P, N>::change_secret::<C>,
            (any, cipher, secret),
            outcome,
        ) ==> outcome is Ok,
{
    if call_ensures(
        PasswordUnlockedKeyring::<P>::change_secret::<C>,
        (keyring, cipher, secret),
        outcome,
    ) {
        lemma_changed(
            *old(keyring),
            cipher,
            key,
            contents,
            secret,
            *final(keyring),
            in_memory(outcome),
        );
    }
    if call_ensures(AnyUnlockedKeyring::<P, N>::change_secret::<C>, (any, cipher, secret), outcome) {
        lemma_changed(
            *old(keyring),
            cipher,
            key,
            contents,
            secret,
            (*final(any))->Password_0,
            in_memory(outcome),
        );
    }
}

proof fn lemma_changed<C: KeyringCipher, P>(
    before: PasswordUnlockedKeyring<P>,
    cipher: &C,
    key: Key,
    contents: Seq<UnlockedItemView>,
    secret: Secret,
    after: PasswordUnlockedKeyring<P>,
    outcome: Result<(), Error>,
)
    requires
        faithful(cipher),
        always_seals(cipher),
        always_derives(cipher),
        password_keyring_holds(cipher, before, key, contents),
        secret_changed(before, cipher, secret, after, outcome),
    ensures
        outcome is Ok,
{
    let answer = choose|answer: Result<Key, CryptoError>| #[trigger]
        key_answer(before.key_source(), cipher, &before.contents(), answer) && match answer {
            Ok(held) => exists|opened: Result<Seq<UnlockedItem>, Error>| #[trigger]
                all_opened(cipher, before.inner.items@, &held, opened) && match opened {
                    Ok(items) => resealed(before, cipher, secret, items, after, outcome),
                    Err(e) => after == before.holding(held) && outcome == Err::<(), Error>(e),
                },
            Err(e) => after == before && outcome == Err::<(), Error>(Error::Crypto(e)),
        };
    lemma_password_answer(cipher, before, key, contents, answer);
    let held = answer->Ok_0;
    let opened = choose|opened: Result<Seq<UnlockedItem>, Error>| #[trigger]
        all_opened(cipher, before.inner.items@, &held, opened) && match opened {
            Ok(items) => resealed(before, cipher, secret, items, after, outcome),
            Err(e) => after == before.holding(held) && outcome == Err::<(), Error>(e),
        };
    held_items_come_out(cipher, before.inner.items@, key, contents, &held, opened);
    let items = opened->Ok_0;
    let (empty, derived) = choose|empty: Keyring, derived: Result<Key, CryptoError>| #[trigger]
        derives(cipher, &empty, &secret, derived) && match derived {
            Ok(k) => all_sealed(cipher, items, &k, after.inner.items@, outcome),
            Err(e) => outcome == Err::<(), Error>(Error::Crypto(e)),
        };
    assert(call_ensures(C::derive_key, (cipher, &empty, &secret), derived));
    lemma_sealed(cipher, items, derived->Ok_0, after.inner.items@, outcome);
}

/// The key of a GPG-based keyring is rotated, and the keyring written, where GPG has encrypted the
/// new key and the items can be sealed.
pub proof fn a_key_can_be_rotated<C: KeyringCipher, N>(
    keyring: &mut GpgUnlockedKeyring<N>,
    cipher: &C,
    key: Key,
    contents: Seq<UnlockedItemView>,
    master_key: &SessionKey,
    request: &SaveRequest,
    encrypted: Vec<u8>,
    outcome: Result<(), Error>,
    written: Result<Option<DumpRequest<'_>>, Error>,
)
    requires
        faithful(cipher),
        always_seals(cipher),
        gpg_keyring_holds(cipher, *old(keyring), key, contents),
    ensures
        call_ensures(
            GpgUnlockedKeyring::<N>::rotate_key::<C>,
            (keyring, cipher, master_key, Ok(encrypted)),
            outcome,
        ) ==> outcome is Ok,
        call_ensures(
            GpgUnlockedKeyring::<N>::write::<C>,
            (keyring, cipher, request, Ok(encrypted)),
            written,
        ) ==> written is Ok,
{
    assert forall|bytes: Seq<u8>, after: GpgUnlockedKeyring<N>, done: Result<(), Error>| #[trigger]
        rotated(*old(keyring), cipher, bytes, Ok(encrypted), after, done) implies done is Ok by {
        let before = *old(keyring);
        let held = before.key->0;
        let opened = choose|opened: Result<Seq<UnlockedItem>, Error>| #[trigger]
            all_opened(cipher, before.inner.items@, &held, opened) && match opened {
                Ok(items) => exists|new_key: Key| #[trigger]
                    all_sealed(cipher, items, &new_key, after.inner.items@, done),
                Err(e) => done == Err::<(), Error>(e),
            };
        held_items_come_out(cipher, before.inner.items@, key, contents, &held, opened);
        let items = opened->Ok_0;
        let new_key = choose|new_key: Key| #[trigger]
            all_sealed(cipher, items, &new_key, after.inner.items@, done);
        lemma_sealed(cipher, items, new_key, after.inner.items@, done);
    }
}

/// A password-based keyring takes every item that can be sealed.
pub proof fn a_password_keyring_takes_what_can_be_sealed<C: KeyringCipher, P>(
    keyring: &mut PasswordUnlockedKeyring<P>,
    cipher: &C,
    key: Key,
    contents: Seq<UnlockedItemView>,
    label: &str,
    attributes: &Attributes,
    secret: Secret,
    replace: bool,
    outcome: Result<Unsaved<UnlockedItem>, Error>,
)
    requires
        faithful(cipher),
        indexing(cipher),
        always_seals(cipher),
        password_keyring_holds(cipher, *old(keyring), key, contents),
        call_ensures(
            <PasswordUnlockedKeyring<P> as UnlockedKeyring<PasswordLockedKeyring<P>>>::create_item::<C>,
            (keyring, cipher, label, attributes, secret, replace),
            outcome,
        ),
    ensures
        outcome is Ok,
{
    let before = *old(keyring);
    let new = UnlockedItemView {
        label: label@,
        attributes: attributes@,
        secret: secret@,
    };
    let answer = choose|answer: Result<Key, CryptoError>| #[trigger]
        key_answer(before.key_source(), cipher, &before.contents(), answer) && (answer matches Ok(
            held,
        ) ==> created(
            cipher,
            before.contents().items@,
            new,
            attributes,
            &held,
            replace,
            final(keyring).contents().items@,
            in_memory(outcome),
        ));
    lemma_password_answer(cipher, before, key, contents, answer);
    lemma_created(
        cipher,
        before.contents().items@,
        key,
        &answer->Ok_0,
        contents,
        new,
        attributes,
        replace,
        final(keyring).contents().items@,
        in_memory(outcome),
    );
}

/// A GPG-based keyring takes every item that can be sealed.
pub proof fn a_gpg_keyring_takes_what_can_be_sealed<C: KeyringCipher, N>(
    keyring: &mut GpgUnlockedKeyring<N>,
    cipher: &C,
    key: Key,
    contents: Seq<UnlockedItemView>,
    label: &str,
    attributes: &Attributes,
    secret: Secret,
    replace: bool,
    outcome: Result<Unsaved<UnlockedItem>, Error>,
)
    requires
        faithful(cipher),
        indexing(cipher),
        always_seals(cipher),
        gpg_keyring_holds(cipher, *old(keyring), key, contents),
        call_ensures(
            <GpgUnlockedKeyring<N> as UnlockedKeyring<GpgLockedKeyring<N>>>::create_item::<C>,
            (keyring, cipher, label, attributes, secret, replace),
            outcome,
        ),
    ensures
        outcome is Ok,
{
    let before = *old(keyring);
    let new = UnlockedItemView {
        label: label@,
        attributes: attributes@,
        secret: secret@,
    };
    let answer = choose|answer: Result<Key, CryptoError>| #[trigger]
        key_answer(before.key_source(), cipher, &before.contents(), answer) && (answer matches Ok(
            held,
        ) ==> created(
            cipher,
            before.contents().items@,
            new,
            attributes,
            &held,
            replace,
            final(keyring).contents().items@,
            in_memory(outcome),
        ));
    lemma_gpg_answer(cipher, before, key, contents, answer);
    lemma_created(
        cipher,
        before.contents().items@,
        key,
        &answer->Ok_0,
        contents,
        new,
        attributes,
        replace,
        final(keyring).contents().items@,
        in_memory(outcome),
    );
}

/// A loaded keyring takes every item that can be sealed.
pub proof fn a_any_keyring_takes_what_can_be_sealed<C: KeyringCipher, P, N>(
    keyring: &mut AnyUnlockedKeyring<P, N>,
    cipher: &C,
    key: Key,
    contents: Seq<UnlockedItemView>,
    label: &str,
    attributes: &Attributes,
    secret: Secret,
    replace: bool,
    outcome: Result<Unsaved<UnlockedItem>, Error>,
)
    requires
        faithful(cipher),
        indexing(cipher),
        always_seals(cipher),
        any_keyring_holds(cipher, *old(keyring), key, contents),
        call_ensures(
            <AnyUnlockedKeyring<P, N> as UnlockedKeyring<AnyLockedKeyring<P, N>>>::create_item::<C>,
            (keyring, cipher, label, attributes, secret, replace),
            outcome,
        ),
    ensures
        outcome is Ok,
{
    let before = *old(keyring);
    let new = UnlockedItemView {
        label: label@,
        attributes: attributes@,
        secret: secret@,
    };
    let answer = choose|answer: Result<Key, CryptoError>| #[trigger]
        key_answer(before.key_source(), cipher, &before.contents(), answer) && (answer matches Ok(
            held,
        ) ==> created(
            cipher,
            before.contents().items@,
            new,
            attributes,
            &held,
            replace,
            final(keyring).contents().items@,
            in_memory(outcome),
        ));
    lemma_any_answer(cipher, before, key, contents, answer);
    lemma_created(
        cipher,
        before.contents().items@,
        key,
        &answer->Ok_0,
        contents,
        new,
        attributes,
        replace,
        final(keyring).contents().items@,
        in_memory(outcome),
    );
}

} // verus!

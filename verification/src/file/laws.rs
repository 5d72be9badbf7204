//! What holds of keyrings whatever is done with them.
use vstd::prelude::*;

use crate::attributes::Attributes;
use crate::crypto::error::Error as CryptoError;
use crate::crypto::gpg::SessionKey;
use crate::file::api::all_opened;
use crate::file::api::all_sealed;
use crate::file::api::created;
use crate::file::api::decrypts;
use crate::file::api::derives;
use crate::file::api::encrypts;
use crate::file::api::hits_of;
use crate::file::api::lists_locked;
use crate::file::api::lists_opened;
use crate::file::api::matched;
use crate::file::api::removed;
use crate::file::api::selected;
use crate::file::api::validates;
use crate::file::api::EncryptedItem;
use crate::file::api::Item;
use crate::file::api::ItemView;
use crate::file::api::Keyring;
use crate::file::api::KeyringCipher;
use crate::file::api::UnlockedItem;
use crate::file::api::UnlockedItemView;
use crate::file::cipher::discerning;
use crate::file::cipher::faithful;
use crate::file::cipher::held_items_are_shown;
use crate::file::cipher::held_items_come_out;
use crate::file::cipher::held_items_open;
use crate::file::cipher::hold;
use crate::file::cipher::honest;
use crate::file::cipher::key_of_secret;
use crate::file::cipher::opened_items_hold;
use crate::file::cipher::opens_all;
use crate::file::cipher::plain_views;
use crate::file::cipher::refuses;
use crate::file::cipher::refuses_all;
use crate::file::cipher::same_key;
use crate::file::cipher::sealed_items_hold;
use crate::file::cipher::settled;
use crate::file::cipher::shows_all;
use crate::file::error::Error;
use crate::file::error::InvalidItemError;
use crate::file::gpg_keyring::gpg_loaded;
use crate::file::gpg_keyring::master_key_answer;
use crate::file::gpg_keyring::rotated;
use crate::file::gpg_keyring::unlocks_with_gpg;
use crate::file::gpg_keyring::GpgLockedKeyring;
use crate::file::gpg_keyring::GpgUnlockedKeyring;
use crate::file::password_keyring::answered;
use crate::file::password_keyring::asked_again;
use crate::file::password_keyring::open_answer;
use crate::file::password_keyring::opened;
use crate::file::password_keyring::password_loaded;
use crate::file::password_keyring::resealed;
use crate::file::password_keyring::secret_changed;
use crate::file::password_keyring::unlock_answer;
use crate::file::password_keyring::unlocks_with_secret;
use crate::file::password_keyring::NoOpSecretProvider;
use crate::file::password_keyring::PasswordLockedKeyring;
use crate::file::password_keyring::PasswordUnlockedKeyring;
use crate::file::password_keyring::UnlockStep;
use crate::file::storage::contents_or_fresh;
use crate::file::storage::is_absent;
use crate::file::storage::KeyringFile;
use crate::file::traits::accepts;
use crate::file::traits::key_answer;
use crate::file::traits::LockedKeyring;
use crate::file::traits::SecretProvider;
use crate::file::traits::SecretRule;
use crate::file::traits::UnlockedKeyring;
use crate::secret::Key;
use crate::secret::Secret;

verus! {

/// The stored items were opened with one key, and what was inside is stored again under
/// another, one for one and in the same order.
pub open spec fn resealed_alike<C: KeyringCipher>(
    cipher: &C,
    before: Seq<EncryptedItem>,
    old_key: &Key,
    plain: Seq<UnlockedItem>,
    new_key: &Key,
    after: Seq<EncryptedItem>,
) -> bool {
    &&& plain.len() == before.len()
    &&& after.len() == before.len()
    &&& forall|i: int|
        0 <= i < before.len() ==> #[trigger] decrypts(cipher, &before[i], old_key, Ok(plain[i]))
    &&& forall|i: int|
        0 <= i < before.len() ==> #[trigger] encrypts(cipher, &plain[i], new_key, Ok(after[i]))
}

/// Changing the secret of a keyring loses no item: each is opened with the old key and sealed
/// with the new one, in its place.
pub proof fn changing_the_secret_keeps_the_items<C: KeyringCipher, P>(
    before: PasswordUnlockedKeyring<P>,
    cipher: &C,
    secret: Secret,
    after: PasswordUnlockedKeyring<P>,
)
    requires
        secret_changed(before, cipher, secret, after, Ok(())),
    ensures
        after.secret == secret,
        after.key is Some,
        after.path == before.path,
        after.label == before.label,
        exists|old_key: Key, plain: Seq<UnlockedItem>| #[trigger]
            resealed_alike(
                cipher,
                before.inner.items@,
                &old_key,
                plain,
                &after.key->0,
                after.inner.items@,
            ),
{
    let answer = choose|answer: Result<Key, CryptoError>| #[trigger]
        key_answer(before.key_source(), cipher, &before.contents(), answer) && match answer {
            Ok(key) => exists|opened: Result<Seq<UnlockedItem>, Error>| #[trigger]
                all_opened(cipher, before.inner.items@, &key, opened) && match opened {
                    Ok(items) => resealed(
                        before,
                        cipher,
                        secret,
                        items,
                        after,
                        Ok(()),
                    ),
                    Err(e) => after == before.holding(key) && Ok::<(), Error>(()) == Err::<
                        (),
                        Error,
                    >(e),
                },
            Err(e) => after == before && Ok::<(), Error>(()) == Err::<(), Error>(Error::Crypto(e)),
        };
    let key = answer->Ok_0;
    let opened = choose|opened: Result<Seq<UnlockedItem>, Error>| #[trigger]
        all_opened(cipher, before.inner.items@, &key, opened) && match opened {
            Ok(items) => resealed(
                before,
                cipher,
                secret,
                items,
                after,
                Ok(()),
            ),
            Err(e) => false,
        };
    let plain = opened->Ok_0;
    assert(all_sealed(cipher, plain, &after.key->0, after.inner.items@, Ok(())));
    assert(resealed_alike(
        cipher,
        before.inner.items@,
        &key,
        plain,
        &after.key->0,
        after.inner.items@,
    ));
}

/// Rotating the master key of a keyring loses no item: each is opened with the old key and
/// sealed with the new one, in its place. The configuration names the same GPG key.
pub proof fn rotating_the_key_keeps_the_items<C: KeyringCipher, N>(
    before: GpgUnlockedKeyring<N>,
    cipher: &C,
    master_key: Seq<u8>,
    encrypted: Result<Vec<u8>, CryptoError>,
    after: GpgUnlockedKeyring<N>,
)
    requires
        rotated(before, cipher, master_key, encrypted, after, Ok(())),
    ensures
        before.key is Some,
        after.key matches Some(k) && k@.bytes == master_key,
        after.inner.gpg_config matches Some(config) && config.gpg_key_id == before.gpg_key_id
            && encrypted == Ok::<Vec<u8>, CryptoError>(config.encrypted_master_key),
        exists|plain: Seq<UnlockedItem>| #[trigger]
            resealed_alike(
                cipher,
                before.inner.items@,
                &before.key->0,
                plain,
                &after.key->0,
                after.inner.items@,
            ),
{
    let old_key = before.key->0;
    let opened = choose|opened: Result<Seq<UnlockedItem>, Error>| #[trigger]
        all_opened(cipher, before.inner.items@, &old_key, opened) && match opened {
            Ok(items) => exists|new_key: Key| #[trigger]
                all_sealed(cipher, items, &new_key, after.inner.items@, Ok(())) && after.key
                    == Some(new_key),
            Err(e) => false,
        };
    let plain = opened->Ok_0;
    assert(all_sealed(cipher, plain, &after.key->0, after.inner.items@, Ok(())));
    assert(resealed_alike(
        cipher,
        before.inner.items@,
        &old_key,
        plain,
        &after.key->0,
        after.inner.items@,
    ));
}

/// A keyring that is locked and unlocked again holds what it held.
pub proof fn relocking_keeps_a_password_keyring<P>(
    keyring: PasswordUnlockedKeyring<P>,
    key: Key,
    secret: Secret,
)
    ensures
        keyring.locked().unlocked(key, secret) == (PasswordUnlockedKeyring {
            key: Some(key),
            secret,
            ..keyring
        }),
{
}

/// A keyring that is unlocked and locked again is the keyring that it was.
pub proof fn unlocking_keeps_a_password_keyring<P>(
    keyring: PasswordLockedKeyring<P>,
    key: Key,
    secret: Secret,
)
    ensures
        keyring.unlocked(key, secret).locked() == keyring,
{
}

/// A keyring that is unlocked and locked again is the keyring that it was.
pub proof fn unlocking_keeps_a_gpg_keyring<N>(keyring: GpgLockedKeyring<N>, key: Key)
    ensures
        keyring.unlocked(key).locked() == keyring,
{
}

/// A wrong password does no harm: the keyring is the same for the next attempt.
pub proof fn a_rejected_secret_changes_nothing<C: KeyringCipher, P>(
    keyring: PasswordLockedKeyring<P>,
    cipher: &C,
    answer: Result<Secret, Error>,
    again: PasswordLockedKeyring<P>,
)
    requires
        answered(keyring, cipher, answer, UnlockStep::Rejected(again)),
    ensures
        again == keyring,
        answer matches Ok(secret) && unlock_answer(
            cipher,
            &keyring.inner,
            &secret,
            Err(Error::IncorrectSecret),
        ),
{
}

/// Every secret is valid for an empty keyring.
pub proof fn an_empty_keyring_accepts_any_secret<C: KeyringCipher>(
    cipher: &C,
    keyring: &Keyring,
    secret: &Secret,
    valid: Result<bool, Error>,
)
    requires
        keyring.items@.len() == 0,
        accepts(SecretRule::ByCipher, cipher, keyring, secret, valid),
    ensures
        valid == Ok::<bool, Error>(true),
{
}

/// A key that was derived once is not derived again: it stays what it is.
pub proof fn the_key_is_settled<C: KeyringCipher, L: LockedKeyring, U: UnlockedKeyring<L>>(
    keyring: U,
    cipher: &C,
    key: Key,
    again: Result<Key, CryptoError>,
)
    requires
        key_answer(
            keyring.holding(key).key_source(),
            cipher,
            &keyring.holding(key).contents(),
            again,
        ),
    ensures
        again == Ok::<Key, CryptoError>(key),
{
    keyring.holding_keeps(key);
}

/// A keyring that was changed has the key with which it was changed.
pub proof fn a_change_keeps_the_key<C: KeyringCipher, L: LockedKeyring, U: UnlockedKeyring<L>>(
    keyring: U,
    cipher: &C,
    key: Key,
    contents: Keyring,
    again: Result<Key, CryptoError>,
)
    requires
        key_answer(
            keyring.holding(key).storing(contents).key_source(),
            cipher,
            &keyring.holding(key).storing(contents).contents(),
            again,
        ),
    ensures
        again == Ok::<Key, CryptoError>(key),
        keyring.holding(key).storing(contents).contents() == contents,
{
    keyring.holding_keeps(key);
    keyring.holding(key).storing_keeps(contents);
}

/// A password-based keyring never comes out of a file of the GPG kind, and a GPG-based one
/// never of another.
pub proof fn keyrings_are_loaded_by_kind<P, N>(
    path: std::path::PathBuf,
    label: Seq<char>,
    secret_provider: P,
    notifier: Option<N>,
    file: KeyringFile,
    fresh: Keyring,
    password: PasswordLockedKeyring<P>,
    gpg: GpgLockedKeyring<N>,
)
    ensures
        password_loaded(path, label, secret_provider, file, fresh, Ok(password))
            ==> password.inner.gpg_config is None,
        gpg_loaded(path, label, notifier, file, Ok(gpg)) ==> gpg.inner.gpg_config is Some,
        !(password_loaded(path, label, secret_provider, file, fresh, Ok(password)) && gpg_loaded(
            path,
            label,
            notifier,
            file,
            Ok(gpg),
        )),
{
}

/// The elements that are selected and those that are not are all the elements. Each selected
/// one is an element with that flag, and each element with that flag is selected.
pub proof fn selection_is_exact<T>(s: Seq<T>, flags: Seq<bool>, wanted: bool)
    ensures
        selected(s, flags, wanted).len() + selected(s, flags, !wanted).len() == s.len(),
        forall|i: int|
            0 <= i < selected(s, flags, wanted).len() ==> exists|k: int|
                0 <= k < s.len() && flags[k] == wanted && #[trigger] s[k] == (
                #[trigger] selected(s, flags, wanted)[i]),
        forall|k: int|
            0 <= k < s.len() && flags[k] == wanted ==> selected(s, flags, wanted).contains(
                #[trigger] s[k],
            ),
    decreases s.len(),
{
    if s.len() > 0 {
        let rest = s.drop_last();
        selection_is_exact(rest, flags, wanted);
        let before = selected(rest, flags, wanted);
        let now = selected(s, flags, wanted);
        let n = s.len() - 1;
        assert forall|i: int| 0 <= i < now.len() implies exists|k: int|
            0 <= k < s.len() && flags[k] == wanted && #[trigger] s[k] == (#[trigger] now[i]) by {
            if i < before.len() {
                assert(now[i] == before[i]);
                let k = choose|k: int|
                    0 <= k < rest.len() && flags[k] == wanted && #[trigger] rest[k] == before[i];
                assert(s[k] == rest[k]);
            } else {
                assert(s[n] == now[i]);
            }
        }
        assert forall|k: int| 0 <= k < s.len() && flags[k] == wanted implies now.contains(
            #[trigger] s[k],
        ) by {
            if k < n {
                assert(rest[k] == s[k]);
                let i = choose|i: int| 0 <= i < before.len() && before[i] == rest[k];
                assert(now[i] == s[k]);
            } else {
                assert(now[before.len() as int] == s[k]);
            }
        }
    }
}

/// The elements were picked out of the whole at these places: in their order, each once, just
/// those whose flag is as wanted.
pub open spec fn picked_at<T>(
    s: Seq<T>,
    flags: Seq<bool>,
    wanted: bool,
    picked: Seq<T>,
    at: Seq<int>,
) -> bool {
    &&& at.len() == picked.len()
    &&& forall|i: int|
        0 <= i < at.len() ==> 0 <= #[trigger] at[i] < s.len() && s[at[i]] == picked[i]
            && flags[at[i]] == wanted
    &&& forall|i: int, j: int| 0 <= i < j < at.len() ==> #[trigger] at[i] < #[trigger] at[j]
    &&& forall|k: int| 0 <= k < s.len() && #[trigger] flags[k] == wanted ==> at.contains(k)
}

/// The elements are those of the whole whose flag is as wanted, in their order and each once.
pub open spec fn picked<T>(s: Seq<T>, flags: Seq<bool>, wanted: bool, picked: Seq<T>) -> bool {
    exists|at: Seq<int>| #[trigger] picked_at(s, flags, wanted, picked, at)
}

/// A selection picks the elements whose flag is as wanted, in their order and each once.
pub proof fn a_selection_picks<T>(s: Seq<T>, flags: Seq<bool>, wanted: bool)
    ensures
        picked(s, flags, wanted, selected(s, flags, wanted)),
    decreases s.len(),
{
    let now = selected(s, flags, wanted);
    if s.len() == 0 {
        assert(picked_at(s, flags, wanted, now, Seq::<int>::empty()));
    } else {
        let rest = s.drop_last();
        let last = s.len() - 1;
        a_selection_picks(rest, flags, wanted);
        let before = selected(rest, flags, wanted);
        let at = choose|at: Seq<int>| #[trigger] picked_at(rest, flags, wanted, before, at);
        if flags[last] == wanted {
            let more = at.push(last);
            assert(more[at.len() as int] == last);
            assert forall|k: int| 0 <= k < s.len() && #[trigger] flags[k] == wanted implies more
                .contains(k) by {
                if k < last {
                    let i = choose|i: int| 0 <= i < at.len() && at[i] == k;
                    assert(more[i] == k);
                }
            }
            assert(picked_at(s, flags, wanted, now, more));
        } else {
            assert(picked_at(s, flags, wanted, now, at));
        }
    }
}

/// Deleting by attributes deletes just the items that match them. No item that is left
/// matched, and every item that did not match is left.
pub proof fn deletion_is_exact<C: KeyringCipher>(
    cipher: &C,
    before: Seq<EncryptedItem>,
    attributes: &Attributes,
    key: &Key,
    after: Seq<EncryptedItem>,
)
    requires
        removed(cipher, before, attributes, key, after, Ok(())),
    ensures
        exists|hits: Seq<bool>| #[trigger]
            hits_of(cipher, before, attributes, key, hits) && (forall|k: int|
                0 <= k < before.len() && !hits[k] ==> after.contains(#[trigger] before[k])) && (
            forall|i: int|
                0 <= i < after.len() ==> matched(
                    cipher,
                    &#[trigger] after[i],
                    attributes,
                    key,
                    false,
                )),
{
    let hits = choose|hits: Seq<bool>| #[trigger]
        hits_of(cipher, before, attributes, key, hits) && after == selected(before, hits, false);
    selection_is_exact(before, hits, false);
    assert forall|i: int| 0 <= i < after.len() implies matched(
        cipher,
        &#[trigger] after[i],
        attributes,
        key,
        false,
    ) by {
        let k = choose|k: int|
            0 <= k < before.len() && hits[k] == false && #[trigger] before[k] == after[i];
        assert(matched(cipher, &before[k], attributes, key, hits[k]));
    }
}

/// A new item is stored behind all others. Without `replace` those are the items that were
/// there before.
pub proof fn a_new_item_comes_last<C: KeyringCipher>(
    cipher: &C,
    before: Seq<EncryptedItem>,
    new: UnlockedItemView,
    attributes: &Attributes,
    key: &Key,
    replace: bool,
    after: Seq<EncryptedItem>,
    item: UnlockedItem,
)
    requires
        created(cipher, before, new, attributes, key, replace, after, Ok(item)),
    ensures
        item@ == new,
        after.len() > 0,
        encrypts(cipher, &item, key, Ok(after.last())),
        !replace ==> after.drop_last() == before,
        replace ==> removed(cipher, before, attributes, key, after.drop_last(), Ok(())),
{
}

/// With a faithful cipher, items that were sealed again under another key read as before: the
/// list of the items is the same, whatever the key. This is so after the secret of a keyring
/// was changed and after its key was rotated.
pub proof fn resealed_items_read_as_before<C: KeyringCipher>(
    cipher: &C,
    before: Seq<EncryptedItem>,
    old_key: &Key,
    plain: Seq<UnlockedItem>,
    new_key: &Key,
    after: Seq<EncryptedItem>,
    first: Seq<Result<Item, InvalidItemError>>,
    second: Seq<Result<Item, InvalidItemError>>,
)
    requires
        faithful(cipher),
        resealed_alike(cipher, before, old_key, plain, new_key, after),
        lists_opened(cipher, before, old_key, first),
        lists_opened(cipher, after, new_key, second),
    ensures
        shows_all(first, plain_views(plain)),
        shows_all(second, plain_views(plain)),
{
    opened_items_hold(cipher, before, old_key, plain);
    sealed_items_hold(cipher, plain, new_key, after);
    held_items_are_shown(cipher, before, *old_key, plain_views(plain), old_key, first);
    held_items_are_shown(cipher, after, *new_key, plain_views(plain), new_key, second);
}

/// Resealing keeps what the items hold.
proof fn lemma_resealed_items_hold<C: KeyringCipher>(
    cipher: &C,
    before: Seq<EncryptedItem>,
    old_key: Key,
    contents: Seq<UnlockedItemView>,
    plain: Seq<UnlockedItem>,
    new_key: Key,
    after: Seq<EncryptedItem>,
)
    requires
        faithful(cipher),
        hold(cipher, before, old_key, contents),
        all_opened(cipher, before, &old_key, Ok(plain)),
        all_sealed(cipher, plain, &new_key, after, Ok(())),
    ensures
        hold(cipher, after, new_key, contents),
{
    held_items_come_out(cipher, before, old_key, contents, &old_key, Ok(plain));
    sealed_items_hold(cipher, plain, &new_key, after);
}

/// With a cipher that does its job, a password-based keyring that is locked and unlocked again
/// with its secret is unlocked, and shows the items that it showed.
pub proof fn relocking_shows_the_same_items<C: KeyringCipher, P>(
    keyring: PasswordUnlockedKeyring<P>,
    cipher: &C,
    key: Key,
    contents: Seq<UnlockedItemView>,
    secret: &Secret,
    outcome: Result<PasswordUnlockedKeyring<P>, Error>,
)
    requires
        faithful(cipher),
        honest(cipher),
        key_of_secret(cipher, keyring.inner.salt@, keyring.secret@, key),
        hold(cipher, keyring.inner.items@, key, contents),
        secret@ == keyring.secret@,
        unlocks_with_secret(keyring.locked(), cipher, secret, outcome),
    ensures
        outcome matches Ok(again) && again == (PasswordUnlockedKeyring {
            key: again.key,
            secret: again.secret,
            ..keyring
        }) && again.secret@ == secret@ && again.key is Some && same_key(key, again.key->0)
            && forall|list: Seq<Result<Item, InvalidItemError>>| #[trigger]
            lists_opened(cipher, again.inner.items@, &again.key->0, list) ==> shows_all(
                list,
                contents,
            ),
{
    let locked = keyring.locked();
    let checked = choose|checked: Result<Key, Error>| #[trigger]
        unlock_answer(cipher, &locked.inner, secret, checked) && match checked {
            Ok(k) => outcome matches Ok(unlocked) && unlocked == locked.unlocked(
                k,
                unlocked.secret,
            ) && unlocked.secret@ == secret@,
            Err(e) => outcome == Err::<PasswordUnlockedKeyring<P>, Error>(e),
        };
    lemma_secret_unlocks(cipher, keyring.inner, key, contents, *secret, checked);
    let again = checked->Ok_0;
    assert forall|list: Seq<Result<Item, InvalidItemError>>| #[trigger]
        lists_opened(cipher, keyring.inner.items@, &again, list) implies shows_all(
        list,
        contents,
    ) by {
        held_items_are_shown(cipher, keyring.inner.items@, key, contents, &again, list);
    }
}

/// The secret of the key that the items lie under opens them.
proof fn lemma_secret_unlocks<C: KeyringCipher>(
    cipher: &C,
    keyring: Keyring,
    key: Key,
    contents: Seq<UnlockedItemView>,
    secret: Secret,
    answer: Result<Key, Error>,
)
    requires
        faithful(cipher),
        honest(cipher),
        key_of_secret(cipher, keyring.salt@, secret@, key),
        hold(cipher, keyring.items@, key, contents),
        unlock_answer(cipher, &keyring, &secret, answer),
    ensures
        answer matches Ok(k) && same_key(key, k),
{
    let derived = choose|derived: Result<Key, CryptoError>| #[trigger]
        derives(cipher, &keyring, &secret, derived) && match derived {
            Ok(k) => exists|valid: Result<(), Error>| #[trigger]
                validates(cipher, &keyring, &k, valid) && match valid {
                    Ok(_) => answer == Ok::<Key, Error>(k),
                    Err(e) => answer == Err::<Key, Error>(e),
                },
            Err(e) => answer == Err::<Key, Error>(Error::Crypto(e)),
        };
    let k = derived->Ok_0;
    held_items_open(cipher, keyring.items@, key, contents, k);
}

/// The key that a keyring has at hand is the one that its secret gives.
pub open spec fn has_its_own_key<C: KeyringCipher, P>(
    cipher: &C,
    keyring: PasswordUnlockedKeyring<P>,
) -> bool {
    keyring.key matches Some(key) ==> key_of_secret(
        cipher,
        keyring.inner.salt@,
        keyring.secret@,
        key,
    )
}

/// A keyring that was unlocked with a secret has the key of that secret at hand. It keeps its
/// own key when the key is asked for, and has the key of the new secret after a change.
pub proof fn keyrings_have_their_own_key<C: KeyringCipher, P>(
    locked: PasswordLockedKeyring<P>,
    cipher: &C,
    secret: Secret,
    before: PasswordUnlockedKeyring<P>,
    key: Key,
    after: PasswordUnlockedKeyring<P>,
)
    ensures
        unlocks_with_secret(locked, cipher, &secret, Ok(after)) ==> has_its_own_key(cipher, after),
        has_its_own_key(cipher, before) && key_answer(
            before.key_source(),
            cipher,
            &before.contents(),
            Ok(key),
        ) ==> has_its_own_key(cipher, before.holding(key)),
        secret_changed(before, cipher, secret, after, Ok(())) ==> has_its_own_key(cipher, after),
{
    if unlocks_with_secret(locked, cipher, &secret, Ok(after)) {
        assert(unlock_answer(cipher, &locked.inner, &secret, Ok(after.key->0)));
        assert(derives(cipher, &locked.inner, &secret, Ok(after.key->0)));
    }
    if secret_changed(before, cipher, secret, after, Ok(())) {
        lemma_changed_key(before, cipher, secret, after);
    }
}

/// With an honest cipher, a keyring that has its own key gives the one key of its secret.
pub proof fn there_is_one_key<C: KeyringCipher, P>(
    keyring: PasswordUnlockedKeyring<P>,
    cipher: &C,
    key: Key,
    answer: Key,
)
    requires
        honest(cipher),
        has_its_own_key(cipher, keyring),
        key_of_secret(cipher, keyring.inner.salt@, keyring.secret@, key),
        key_answer(keyring.key_source(), cipher, &keyring.contents(), Ok(answer)),
    ensures
        same_key(key, answer),
{
    let (like, given, derived) = choose|like: Keyring, given: Secret, derived: Key| #[trigger]
        call_ensures(C::derive_key, (cipher, &like, &given), Ok(derived)) && like.salt@
            == keyring.inner.salt@ && given@ == keyring.secret@ && same_key(derived, key);
    if keyring.key is Some {
        assert(key_of_secret(cipher, like.salt@, given@, answer));
    }
    assert(key_of_secret(cipher, keyring.inner.salt@, keyring.secret@, key));
}

proof fn lemma_changed_key<C: KeyringCipher, P>(
    before: PasswordUnlockedKeyring<P>,
    cipher: &C,
    secret: Secret,
    after: PasswordUnlockedKeyring<P>,
) -> (found: (Key, Seq<UnlockedItem>))
    requires
        secret_changed(before, cipher, secret, after, Ok(())),
    ensures
        key_answer(before.key_source(), cipher, &before.contents(), Ok(found.0)),
        all_opened(cipher, before.inner.items@, &found.0, Ok(found.1)),
        after.key is Some,
        all_sealed(cipher, found.1, &after.key->0, after.inner.items@, Ok(())),
        key_of_secret(cipher, after.inner.salt@, secret@, after.key->0),
        after.secret == secret,
{
    let outcome = Ok::<(), Error>(());
    let answer = choose|answer: Result<Key, CryptoError>| #[trigger]
        key_answer(before.key_source(), cipher, &before.contents(), answer) && match answer {
            Ok(key) => exists|opened: Result<Seq<UnlockedItem>, Error>| #[trigger]
                all_opened(cipher, before.inner.items@, &key, opened) && match opened {
                    Ok(items) => resealed(before, cipher, secret, items, after, outcome),
                    Err(e) => after == before.holding(key) && outcome == Err::<(), Error>(e),
                },
            Err(e) => after == before && outcome == Err::<(), Error>(Error::Crypto(e)),
        };
    let key = answer->Ok_0;
    let opened = choose|opened: Result<Seq<UnlockedItem>, Error>| #[trigger]
        all_opened(cipher, before.inner.items@, &key, opened) && match opened {
            Ok(items) => resealed(before, cipher, secret, items, after, outcome),
            Err(e) => false,
        };
    let plain = opened->Ok_0;
    let (empty, derived) = choose|empty: Keyring, derived: Result<Key, CryptoError>| #[trigger]
        derives(cipher, &empty, &secret, derived) && empty == (Keyring {
            items: empty.items,
            ..after.inner
        }) && match derived {
            Ok(k) => {
                &&& after.key == Some(k)
                &&& all_sealed(cipher, plain, &k, after.inner.items@, outcome)
            },
            Err(e) => false,
        };
    assert(derives(cipher, &empty, &secret, Ok(after.key->0)));
    (key, plain)
}

/// With a cipher that does its job, a change of the secret keeps what the items hold. The new
/// secret is valid then, and unlocks the keyring once it is locked. A secret that gives another
/// key, as the old one should, is not valid, unless there are no items.
pub proof fn the_changed_secret_is_the_valid_one<C: KeyringCipher, P>(
    before: PasswordUnlockedKeyring<P>,
    cipher: &C,
    key: Key,
    contents: Seq<UnlockedItemView>,
    secret: Secret,
    after: PasswordUnlockedKeyring<P>,
    given: Secret,
    valid: Result<bool, Error>,
    unlocked: Result<PasswordUnlockedKeyring<P>, Error>,
    other: Secret,
    other_key: Key,
    other_valid: Result<bool, Error>,
)
    requires
        faithful(cipher),
        honest(cipher),
        has_its_own_key(cipher, before),
        key_of_secret(cipher, before.inner.salt@, before.secret@, key),
        hold(cipher, before.inner.items@, key, contents),
        secret_changed(before, cipher, secret, after, Ok(())),
        given@ == secret@,
        accepts(SecretRule::ByCipher, cipher, &after.inner, &given, valid),
        unlocks_with_secret(after.locked(), cipher, &given, unlocked),
        key_of_secret(cipher, after.inner.salt@, other@, other_key),
        accepts(SecretRule::ByCipher, cipher, &after.inner, &other, other_valid),
    ensures
        after.secret == secret,
        after.key matches Some(k) && key_of_secret(cipher, after.inner.salt@, secret@, k) && hold(
            cipher,
            after.inner.items@,
            k,
            contents,
        ),
        valid == Ok::<bool, Error>(true),
        unlocked matches Ok(again) && again.inner == after.inner && again.key is Some
            && same_key(after.key->0, again.key->0) && forall|
            list: Seq<Result<Item, InvalidItemError>>,
        | #[trigger]
            lists_opened(cipher, again.inner.items@, &again.key->0, list) ==> shows_all(
                list,
                contents,
            ),
        discerning(cipher) && !same_key(after.key->0, other_key) && contents.len() > 0
            ==> other_valid == Ok::<bool, Error>(false),
{
    let (old_key, plain) = lemma_changed_key(before, cipher, secret, after);
    let new_key = after.key->0;
    there_is_one_key(before, cipher, key, old_key);
    held_items_come_out(cipher, before.inner.items@, key, contents, &old_key, Ok(plain));
    sealed_items_hold(cipher, plain, &new_key, after.inner.items@);
    held_items_open(cipher, after.inner.items@, new_key, contents, new_key);
    relocking_shows_the_same_items(after, cipher, new_key, contents, &given, unlocked);
    if discerning(cipher) && !same_key(new_key, other_key) && contents.len() > 0 {
        let items = after.inner.items@;
        assert forall|i: int| 0 <= i < items.len() implies refuses(
            cipher,
            #[trigger] items[i],
            other_key,
        ) by {
            assert(encrypts(cipher, &plain[i], &new_key, Ok(items[i])));
        }
        assert(refuses_all(cipher, items, other_key));
    }
}

/// Two outcomes of unlocking a GPG-based keyring are alike: the same error, or the same keyring
/// with keys that are alike.
pub open spec fn unlocked_alike<N>(
    one: Result<GpgUnlockedKeyring<N>, Error>,
    two: Result<GpgUnlockedKeyring<N>, Error>,
) -> bool {
    match (one, two) {
        (Ok(a), Ok(b)) => a.key is Some && b.key is Some && a.key->0@ == b.key->0@ && a == (
        GpgUnlockedKeyring { key: a.key, ..b }),
        (Err(a), Err(b)) => a == b,
        _ => false,
    }
}

/// A GPG-based keyring is unlocked alike with and without a secret, whatever the secret, given
/// that GPG answers alike.
pub proof fn gpg_keyrings_ignore_the_secret<C: KeyringCipher, N>(
    keyring: GpgLockedKeyring<N>,
    cipher: &C,
    first: Result<SessionKey, Error>,
    second: Result<SessionKey, Error>,
    one: Result<GpgUnlockedKeyring<N>, Error>,
    two: Result<GpgUnlockedKeyring<N>, Error>,
)
    requires
        settled(cipher),
        match (first, second) {
            (Ok(a), Ok(b)) => a@ == b@,
            (Err(a), Err(b)) => a == b,
            _ => false,
        },
        unlocks_with_gpg(keyring, cipher, first, one),
        unlocks_with_gpg(keyring, cipher, second, two),
    ensures
        unlocked_alike(one, two),
{
}

/// A GPG-based keyring that is saved gets the new master key, whether or not it has a file. With
/// a faithful cipher its items hold what they held.
pub proof fn a_save_rotates_the_key<C: KeyringCipher, N>(
    before: GpgUnlockedKeyring<N>,
    cipher: &C,
    contents: Seq<UnlockedItemView>,
    master_key: Seq<u8>,
    encrypted: Result<Vec<u8>, CryptoError>,
    after: GpgUnlockedKeyring<N>,
)
    requires
        faithful(cipher),
        before.key matches Some(key) ==> hold(cipher, before.inner.items@, key, contents),
        rotated(before, cipher, master_key, encrypted, after, Ok(())),
    ensures
        after.key matches Some(key) && key@.bytes == master_key && hold(
            cipher,
            after.inner.items@,
            key,
            contents,
        ),
        after.path == before.path,
{
    let (old_key, plain) = lemma_rotated(before, cipher, master_key, encrypted, after);
    lemma_resealed_items_hold(
        cipher,
        before.inner.items@,
        old_key,
        contents,
        plain,
        after.key->0,
        after.inner.items@,
    );
}

proof fn lemma_rotated<C: KeyringCipher, N>(
    before: GpgUnlockedKeyring<N>,
    cipher: &C,
    master_key: Seq<u8>,
    encrypted: Result<Vec<u8>, CryptoError>,
    after: GpgUnlockedKeyring<N>,
) -> (found: (Key, Seq<UnlockedItem>))
    requires
        rotated(before, cipher, master_key, encrypted, after, Ok(())),
    ensures
        before.key == Some(found.0),
        all_opened(cipher, before.inner.items@, &found.0, Ok(found.1)),
        after.key is Some,
        after.key->0@.bytes == master_key,
        all_sealed(cipher, found.1, &after.key->0, after.inner.items@, Ok(())),
{
    let old_key = before.key->0;
    let opened = choose|opened: Result<Seq<UnlockedItem>, Error>| #[trigger]
        all_opened(cipher, before.inner.items@, &old_key, opened) && match opened {
            Ok(items) => exists|new_key: Key| #[trigger]
                all_sealed(cipher, items, &new_key, after.inner.items@, Ok(())) && after.key
                    == Some(new_key),
            Err(e) => false,
        };
    (old_key, opened->Ok_0)
}

/// A GPG-based keyring that was saved is read back from its file, which holds the contents that
/// were to be dumped. With a cipher that does its job,
/// it is loaded from what was dumped and unlocked with the new master key, has that key, and
/// shows the items that it showed.
pub proof fn a_saved_keyring_is_read_back<C: KeyringCipher, N>(
    before: GpgUnlockedKeyring<N>,
    cipher: &C,
    contents: Seq<UnlockedItemView>,
    master_key: SessionKey,
    encrypted: Result<Vec<u8>, CryptoError>,
    after: GpgUnlockedKeyring<N>,
    path: std::path::PathBuf,
    mtime: Option<std::time::SystemTime>,
    label: Seq<char>,
    notifier: Option<N>,
    loaded: Result<GpgLockedKeyring<N>, Error>,
    unlocked: Result<GpgUnlockedKeyring<N>, Error>,
    list: Seq<Result<Item, InvalidItemError>>,
)
    requires
        faithful(cipher),
        honest(cipher),
        before.key matches Some(key) ==> hold(cipher, before.inner.items@, key, contents),
        before.path == Some(path),
        rotated(before, cipher, master_key@, encrypted, after, Ok(())),
        gpg_loaded(
            path,
            label,
            notifier,
            KeyringFile::Loaded { mtime, keyring: after.inner },
            loaded,
        ),
        loaded matches Ok(locked) ==> unlocks_with_gpg(locked, cipher, Ok(master_key), unlocked),
        unlocked matches Ok(u) ==> lists_opened(cipher, u.inner.items@, &u.key->0, list),
    ensures
        loaded is Ok,
        unlocked matches Ok(u) && u.path == before.path && u.inner == after.inner && u.gpg_key_id
            == before.gpg_key_id && (u.key matches Some(key) && key@.bytes == master_key@),
        shows_all(list, contents),
{
    a_save_rotates_the_key(
        before,
        cipher,
        contents,
        master_key@,
        encrypted,
        after,
    );
    rotating_the_key_keeps_the_items(before, cipher, master_key@, encrypted, after);
    let locked = loaded->Ok_0;
    let new_key = after.key->0;
    let checked = choose|checked: Result<Key, Error>| #[trigger]
        master_key_answer(cipher, &locked.inner, Ok(master_key), checked) && unlocked == (
        match checked {
            Ok(key) => Ok::<GpgUnlockedKeyring<N>, Error>(locked.unlocked(key)),
            Err(e) => Err(e),
        });
    let (key, valid) = choose|key: Key, valid: Result<(), Error>| #[trigger]
        validates(cipher, &locked.inner, &key, valid) && key@.bytes == master_key@ && checked == (
        match valid {
            Ok(_) => Ok::<Key, Error>(key),
            Err(e) => Err(e),
        });
    held_items_open(cipher, after.inner.items@, new_key, contents, key);
    held_items_are_shown(cipher, after.inner.items@, new_key, contents, &key, list);
}

/// A named keyring that has no file yet is opened with any secret from which a key can be
/// derived. With an honest cipher, one that has a file is opened with a secret that opens all its
/// items, and not with one that opens none.
pub proof fn a_named_keyring_is_opened_by_its_secret<C: KeyringCipher>(
    cipher: &C,
    name: Seq<char>,
    secret: Secret,
    key: Key,
    path: std::path::PathBuf,
    file: KeyringFile,
    fresh: Keyring,
    mtime: Option<std::time::SystemTime>,
    contents: Keyring,
    outcome: Result<PasswordUnlockedKeyring<NoOpSecretProvider>, Error>,
)
    requires
        honest(cipher),
        contents_or_fresh(file, fresh) == Ok::<(Option<std::time::SystemTime>, Keyring), Error>(
            (mtime, contents),
        ),
        contents.gpg_config is None,
        key_of_secret(cipher, contents.salt@, secret@, key),
        opened(cipher, name, secret, Ok(path), file, fresh, outcome),
    ensures
        is_absent(file) ==> outcome is Ok,
        (forall|k: Key| #[trigger]
            same_key(key, k) ==> opens_all(cipher, contents.items@, k)) ==> outcome is Ok,
        !is_absent(file) && (forall|k: Key| #[trigger]
            same_key(key, k) ==> refuses_all(cipher, contents.items@, k)) ==> outcome is Err,
        outcome matches Ok(keyring) ==> keyring.inner == contents && has_its_own_key(
            cipher,
            keyring,
        ),
{
    let answer = choose|answer: Result<Key, Error>| #[trigger]
        open_answer(cipher, file, &contents, &secret, answer) && match answer {
            Ok(k) => outcome is Ok && outcome->Ok_0.key == Some(k) && outcome->Ok_0.secret
                == secret && outcome->Ok_0.inner == contents,
            Err(e) => outcome is Err,
        };
    assert(key_of_secret(cipher, contents.salt@, secret@, key));
    if !is_absent(file) {
        let derived = choose|derived: Result<Key, CryptoError>| #[trigger]
            derives(cipher, &contents, &secret, derived) && match derived {
                Ok(k) => exists|valid: Result<(), Error>| #[trigger]
                    validates(cipher, &contents, &k, valid) && match valid {
                        Ok(_) => answer == Ok::<Key, Error>(k),
                        Err(e) => answer == Err::<Key, Error>(e),
                    },
                Err(e) => answer == Err::<Key, Error>(Error::Crypto(e)),
            };
        assert(derived is Ok);
        assert(same_key(key, derived->Ok_0));
    }
    if answer is Ok {
        assert(derives(cipher, &contents, &secret, Ok(outcome->Ok_0.key->0)));
    }
}

/// A password-based keyring that is locked asks for a password. It keeps its file, its time and
/// its items, which it lists locked, in their order.
pub proof fn locking_keeps_a_password_keyring<P>(
    keyring: PasswordUnlockedKeyring<P>,
    list: Seq<Result<Item, InvalidItemError>>,
)
    requires
        lists_locked(keyring.locked().contents().items@, list),
    ensures
        keyring.locked().password_needed(),
        keyring.locked().file() == keyring.file(),
        keyring.locked().contents() == keyring.contents(),
        keyring.locked().contents().modified_time == keyring.contents().modified_time,
        list.len() == keyring.inner.items@.len(),
        forall|i: int|
            0 <= i < list.len() ==> ((#[trigger] list[i]) matches Ok(item) && item@
                == ItemView::Locked(keyring.inner.items@[i]@)),
{
}

/// The keyring of an unlocking before its attempt number `i`: the one that it started with, and
/// after a rejection the one that came back.
pub open spec fn keyring_at<P>(
    keyring: PasswordLockedKeyring<P>,
    steps: Seq<UnlockStep<P>>,
    i: int,
) -> PasswordLockedKeyring<P> {
    if i <= 0 {
        keyring
    } else {
        steps[i - 1]->Rejected_0
    }
}

/// The attempt number `i` of an unlocking: the answer is tried. It is the first one, or an answer
/// that the provider gave after the attempt before was rejected.
pub open spec fn attempt<C: KeyringCipher, P: SecretProvider>(
    keyring: PasswordLockedKeyring<P>,
    cipher: &C,
    answers: Seq<Result<Secret, Error>>,
    steps: Seq<UnlockStep<P>>,
    i: int,
) -> bool {
    &&& answered(keyring_at(keyring, steps, i), cipher, answers[i], steps[i])
    &&& i > 0 ==> steps[i - 1] is Rejected && asked_again(
        keyring_at(keyring, steps, i),
        answers[i],
    )
}

/// An unlocking from the first answer on: one attempt after the other, for as long as the secret
/// is rejected.
pub open spec fn is_unlocking<C: KeyringCipher, P: SecretProvider>(
    keyring: PasswordLockedKeyring<P>,
    cipher: &C,
    answers: Seq<Result<Secret, Error>>,
    steps: Seq<UnlockStep<P>>,
) -> bool {
    &&& answers.len() > 0
    &&& steps.len() == answers.len()
    &&& forall|i: int|
        0 <= i < steps.len() ==> #[trigger] attempt(keyring, cipher, answers, steps, i)
}

proof fn lemma_rejections<C: KeyringCipher, P: SecretProvider>(
    keyring: PasswordLockedKeyring<P>,
    cipher: &C,
    answers: Seq<Result<Secret, Error>>,
    steps: Seq<UnlockStep<P>>,
    i: int,
)
    requires
        is_unlocking(keyring, cipher, answers, steps),
        0 <= i < steps.len(),
    ensures
        keyring_at(keyring, steps, i) == keyring,
    decreases i,
{
    if i > 0 {
        lemma_rejections(keyring, cipher, answers, steps, i - 1);
        assert(attempt(keyring, cipher, answers, steps, i - 1));
        assert(attempt(keyring, cipher, answers, steps, i));
        a_rejected_secret_changes_nothing(
            keyring,
            cipher,
            answers[i - 1],
            steps[i - 1]->Rejected_0,
        );
    }
}

/// The first secret that is not rejected unlocks the keyring. All secrets before it were wrong,
/// and changed nothing. The provider was asked once for each of them, with the label of the
/// keyring. An unlocking ends with the last answer: with the keyring that the secret unlocks, or
/// with the error of the provider or of the attempt.
pub proof fn the_first_right_secret_unlocks<C: KeyringCipher, P: SecretProvider>(
    keyring: PasswordLockedKeyring<P>,
    cipher: &C,
    answers: Seq<Result<Secret, Error>>,
    steps: Seq<UnlockStep<P>>,
)
    requires
        is_unlocking(keyring, cipher, answers, steps),
    ensures
        forall|i: int|
            0 <= i < steps.len() - 1 ==> #[trigger] steps[i] == UnlockStep::Rejected(keyring) && (
            answers[i] matches Ok(secret) && unlock_answer(
                cipher,
                &keyring.inner,
                &secret,
                Err(Error::IncorrectSecret),
            )),
        forall|i: int| 0 < i < answers.len() ==> asked_again(keyring, #[trigger] answers[i]),
        answered(keyring, cipher, answers.last(), steps.last()),
        steps.last() matches UnlockStep::Unlocked(unlocked) ==> (answers.last() matches Ok(secret)
            && unlocked.key is Some && unlocked == keyring.unlocked(unlocked.key->0, secret)
            && unlock_answer(cipher, &keyring.inner, &secret, Ok(unlocked.key->0))),
{
    let last = steps.len() - 1;
    assert forall|i: int| 0 <= i < last implies #[trigger] steps[i] == UnlockStep::Rejected(keyring)
        && (answers[i] matches Ok(secret) && unlock_answer(
        cipher,
        &keyring.inner,
        &secret,
        Err(Error::IncorrectSecret),
    )) by {
        lemma_rejections(keyring, cipher, answers, steps, i);
        lemma_rejections(keyring, cipher, answers, steps, i + 1);
        assert(attempt(keyring, cipher, answers, steps, i));
        assert(attempt(keyring, cipher, answers, steps, i + 1));
        a_rejected_secret_changes_nothing(keyring, cipher, answers[i], keyring);
    }
    assert forall|i: int| 0 < i < answers.len() implies asked_again(
        keyring,
        #[trigger] answers[i],
    ) by {
        lemma_rejections(keyring, cipher, answers, steps, i);
        assert(attempt(keyring, cipher, answers, steps, i));
    }
    lemma_rejections(keyring, cipher, answers, steps, last);
    assert(attempt(keyring, cipher, answers, steps, last));
}

} // verus!

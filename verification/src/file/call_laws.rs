//! What a single call on a keyring gives, whatever the cipher.
use vstd::prelude::*;

use crate::attributes::Attributes;
use crate::crypto::error::Error as CryptoError;
use crate::file::api::decrypts;
use crate::file::api::listed;
use crate::file::api::lists_attempt;
use crate::file::api::lists_opened;
use crate::file::api::EncryptedItem;
use crate::file::api::Item;
use crate::file::api::ItemView;
use crate::file::api::Keyring;
use crate::file::api::KeyringCipher;
use crate::file::api::UnlockedItem;
use crate::file::api::UnlockedItemView;
use crate::file::cipher::faithful;
use crate::file::cipher::held_items_open;
use crate::file::cipher::hold;
use crate::file::cipher::honest;
use crate::file::cipher::key_of_secret;
use crate::file::cipher::refuses_all;
use crate::file::error::Error;
use crate::file::error::InvalidItemError;
use crate::file::gpg_keyring::GpgLockedKeyring;
use crate::file::gpg_keyring::GpgUnlockedKeyring;
use crate::file::loader::AnyLockedKeyring;
use crate::file::loader::AnyUnlockedKeyring;
use crate::file::locked_keyring::LockedKeyring as PlainLockedKeyring;
use crate::file::password_keyring::PasswordLockedKeyring;
use crate::file::password_keyring::PasswordUnlockedKeyring;
use crate::file::storage::Unsaved;
use crate::file::traits::key_answer;
use crate::file::traits::LockedKeyring;
use crate::file::traits::UnlockedKeyring;
use crate::secret::Key;
use crate::secret::Secret;
use crate::time::Timestamp;

verus! {

/// The answer is the cipher's own, and of an empty keyring it is yes.
pub open spec fn judged_by_the_cipher<C: KeyringCipher>(
    cipher: &C,
    contents: Keyring,
    secret: &Secret,
    valid: Result<bool, Error>,
) -> bool {
    if contents.items@.len() == 0 {
        valid == Ok::<bool, Error>(true)
    } else {
        match valid {
            Ok(yes) => call_ensures(C::validate_secret, (cipher, &contents, secret), Ok(yes)),
            Err(Error::Crypto(e)) => call_ensures(
                C::validate_secret,
                (cipher, &contents, secret),
                Err(e),
            ),
            Err(_) => false,
        }
    }
}

/// With a cipher that does its job, a judgement by the cipher accepts the secret whose key the
/// items lie under, and not one whose key opens none of them.
pub proof fn the_cipher_judges_by_the_items<C: KeyringCipher>(
    cipher: &C,
    contents: Keyring,
    secret: &Secret,
    key: Key,
    valid: Result<bool, Error>,
    held: Seq<UnlockedItemView>,
)
    requires
        honest(cipher),
        key_of_secret(cipher, contents.salt@, secret@, key),
        judged_by_the_cipher(cipher, contents, secret, valid),
    ensures
        faithful(cipher) && hold(cipher, contents.items@, key, held) ==> valid == Ok::<bool, Error>(
            true,
        ),
        refuses_all(cipher, contents.items@, key) ==> valid == Ok::<bool, Error>(false),
{
    if faithful(cipher) && hold(cipher, contents.items@, key, held) {
        held_items_open(cipher, contents.items@, key, held, key);
    }
}

/// A list of the stored items, each locked, in their order.
pub open spec fn all_listed_locked(
    items: Seq<EncryptedItem>,
    list: Seq<Result<Item, InvalidItemError>>,
) -> bool {
    &&& list.len() == items.len()
    &&& forall|i: int|
        0 <= i < list.len() ==> ((#[trigger] list[i]) matches Ok(item) && item@
            == ItemView::Locked(items[i]@))
}

/// The entry tells why the item did not open, and the names of its attributes.
pub open spec fn tells_why(
    item: EncryptedItem,
    e: Error,
    entry: Result<Item, InvalidItemError>,
) -> bool {
    &&& entry matches Err(invalid)
    &&& invalid.error == e
    &&& invalid.attribute_names@.len() == item.hashed_attributes@.len()
    &&& forall|j: int|
        0 <= j < invalid.attribute_names@.len() ==> (#[trigger] invalid.attribute_names@[j])@
            == item.hashed_attributes@[j].0@
}

/// Whatever the cipher is asked with the key, it answers this error.
pub open spec fn always_fails<C: KeyringCipher>(
    cipher: &C,
    item: EncryptedItem,
    key: Key,
    e: Error,
) -> bool {
    forall|opened: Result<UnlockedItem, Error>| #[trigger]
        call_ensures(C::decrypt, (cipher, &item, &key), opened) ==> opened == Err::<
            UnlockedItem,
            Error,
        >(e)
}

/// A password-based keyring has no key at hand, and none can be derived.
pub open spec fn password_keyring_has_no_key<C: KeyringCipher, P>(
    cipher: &C,
    keyring: PasswordUnlockedKeyring<P>,
    e: CryptoError,
) -> bool {
    keyring.key is None && forall|derived: Result<Key, CryptoError>| #[trigger]
        call_ensures(C::derive_key, (cipher, &keyring.inner, &keyring.secret), derived)
            ==> derived == Err::<Key, CryptoError>(e)
}

/// A GPG-based keyring has no key.
pub open spec fn gpg_keyring_has_no_key<C: KeyringCipher, N>(
    cipher: &C,
    keyring: GpgUnlockedKeyring<N>,
    e: CryptoError,
) -> bool {
    keyring.key is None && e is NoKey
}

/// A keyring of either kind has no key.
pub open spec fn any_keyring_has_no_key<C: KeyringCipher, P, N>(
    cipher: &C,
    keyring: AnyUnlockedKeyring<P, N>,
    e: CryptoError,
) -> bool {
    match keyring {
        AnyUnlockedKeyring::Password(k) => password_keyring_has_no_key(cipher, k, e),
        AnyUnlockedKeyring::Gpg(k) => gpg_keyring_has_no_key(cipher, k, e),
    }
}

/// What a password-based keyring holds.
pub open spec fn password_contents<P>(keyring: PasswordUnlockedKeyring<P>) -> Keyring {
    keyring.inner
}

/// What a GPG-based keyring holds.
pub open spec fn gpg_contents<N>(keyring: GpgUnlockedKeyring<N>) -> Keyring {
    keyring.inner
}

/// What a keyring of either kind holds.
pub open spec fn any_contents<P, N>(keyring: AnyUnlockedKeyring<P, N>) -> Keyring {
    match keyring {
        AnyUnlockedKeyring::Password(k) => k.inner,
        AnyUnlockedKeyring::Gpg(k) => k.inner,
    }
}

/// The key that a password-based keyring has at hand.
pub open spec fn password_key<P>(keyring: PasswordUnlockedKeyring<P>) -> Option<Key> {
    keyring.key
}

/// The key that a GPG-based keyring has at hand.
pub open spec fn gpg_key<N>(keyring: GpgUnlockedKeyring<N>) -> Option<Key> {
    keyring.key
}

/// The key that a keyring of either kind has at hand.
pub open spec fn any_key<P, N>(keyring: AnyUnlockedKeyring<P, N>) -> Option<Key> {
    match keyring {
        AnyUnlockedKeyring::Password(k) => k.key,
        AnyUnlockedKeyring::Gpg(k) => k.key,
    }
}

/// A password-based keyring is judged by the cipher, locked or not.
pub proof fn a_password_keyring_is_judged_by_the_cipher<C: KeyringCipher, P, N>(
    locked: PasswordLockedKeyring<P>,
    unlocked: PasswordUnlockedKeyring<P>,
    plain: PlainLockedKeyring,
    cipher: &C,
    secret: &Secret,
    valid: Result<bool, Error>,
)
    ensures
        call_ensures(
            <PasswordLockedKeyring<P> as LockedKeyring>::validate_secret::<C>,
            (&locked, cipher, secret),
            valid,
        ) ==> judged_by_the_cipher(cipher, locked.inner, secret, valid),
        call_ensures(
            <AnyLockedKeyring<P, N> as LockedKeyring>::validate_secret::<C>,
            (&AnyLockedKeyring::Password(locked), cipher, secret),
            valid,
        ) ==> judged_by_the_cipher(cipher, locked.inner, secret, valid),
        call_ensures(
            <PasswordUnlockedKeyring<P> as UnlockedKeyring<PasswordLockedKeyring<P>>>::validate_secret::<C>,
            (&unlocked, cipher, secret),
            valid,
        ) ==> judged_by_the_cipher(cipher, unlocked.inner, secret, valid),
        call_ensures(
            <AnyUnlockedKeyring<P, N> as UnlockedKeyring<AnyLockedKeyring<P, N>>>::validate_secret::<C>,
            (&AnyUnlockedKeyring::Password(unlocked), cipher, secret),
            valid,
        ) ==> judged_by_the_cipher(cipher, unlocked.inner, secret, valid),
        call_ensures(PlainLockedKeyring::validate_secret::<C>, (&plain, cipher, secret), valid)
            ==> judged_by_the_cipher(cipher, plain.keyring, secret, valid),
        call_ensures(Keyring::validate_secret::<C>, (&plain.keyring, cipher, secret), valid)
            ==> judged_by_the_cipher(cipher, plain.keyring, secret, valid),
{
}

/// A GPG-based keyring accepts every secret while it is locked, since it needs none. Unlocked it
/// accepts none, since it has no password.
pub proof fn a_gpg_keyring_has_no_password<C: KeyringCipher, P, N>(
    locked: GpgLockedKeyring<N>,
    unlocked: GpgUnlockedKeyring<N>,
    cipher: &C,
    secret: &Secret,
    valid: Result<bool, Error>,
)
    ensures
        call_ensures(
            <GpgLockedKeyring<N> as LockedKeyring>::validate_secret::<C>,
            (&locked, cipher, secret),
            valid,
        ) ==> valid == Ok::<bool, Error>(true),
        call_ensures(
            <AnyLockedKeyring<P, N> as LockedKeyring>::validate_secret::<C>,
            (&AnyLockedKeyring::Gpg(locked), cipher, secret),
            valid,
        ) ==> valid == Ok::<bool, Error>(true),
        call_ensures(
            <GpgUnlockedKeyring<N> as UnlockedKeyring<GpgLockedKeyring<N>>>::validate_secret::<C>,
            (&unlocked, cipher, secret),
            valid,
        ) ==> valid == Ok::<bool, Error>(false),
        call_ensures(
            <AnyUnlockedKeyring<P, N> as UnlockedKeyring<AnyLockedKeyring<P, N>>>::validate_secret::<C>,
            (&AnyUnlockedKeyring::Gpg(unlocked), cipher, secret),
            valid,
        ) ==> valid == Ok::<bool, Error>(false),
{
}

/// A locked keyring lists its items locked, in their order, and a password is asked for where it
/// is based on one.
pub proof fn a_locked_keyring_lists_its_items<P, N>(
    password: PasswordLockedKeyring<P>,
    gpg: GpgLockedKeyring<N>,
    plain: PlainLockedKeyring,
    list: Result<Vec<Result<Item, InvalidItemError>>, Error>,
    asked: bool,
)
    ensures
        call_ensures(<PasswordLockedKeyring<P> as LockedKeyring>::items, (&password,), list) ==> (
        list matches Ok(entries) && all_listed_locked(password.inner.items@, entries@)),
        call_ensures(<GpgLockedKeyring<N> as LockedKeyring>::items, (&gpg,), list) ==> (
        list matches Ok(entries) && all_listed_locked(gpg.inner.items@, entries@)),
        call_ensures(
            <AnyLockedKeyring<P, N> as LockedKeyring>::items,
            (&AnyLockedKeyring::Password(password),),
            list,
        ) ==> (list matches Ok(entries) && all_listed_locked(password.inner.items@, entries@)),
        call_ensures(
            <AnyLockedKeyring<P, N> as LockedKeyring>::items,
            (&AnyLockedKeyring::Gpg(gpg),),
            list,
        ) ==> (list matches Ok(entries) && all_listed_locked(gpg.inner.items@, entries@)),
        call_ensures(PlainLockedKeyring::items, (&plain,), list) ==> (list matches Ok(entries)
            && all_listed_locked(plain.keyring.items@, entries@)),
        call_ensures(
            <PasswordLockedKeyring<P> as LockedKeyring>::requires_password,
            (&password,),
            asked,
        ) ==> asked,
        call_ensures(<GpgLockedKeyring<N> as LockedKeyring>::requires_password, (&gpg,), asked)
            ==> !asked,
        call_ensures(
            <AnyLockedKeyring<P, N> as LockedKeyring>::requires_password,
            (&AnyLockedKeyring::Password(password),),
            asked,
        ) ==> asked,
        call_ensures(
            <AnyLockedKeyring<P, N> as LockedKeyring>::requires_password,
            (&AnyLockedKeyring::Gpg(gpg),),
            asked,
        ) ==> !asked,
{
}

/// A locked keyring tells its file and the time of its last change.
pub proof fn a_locked_keyring_tells_its_file_and_time<P, N>(
    password: PasswordLockedKeyring<P>,
    gpg: GpgLockedKeyring<N>,
    plain: PlainLockedKeyring,
    path: Option<&std::path::PathBuf>,
    time: Timestamp,
    encrypted: bool,
)
    ensures
        call_ensures(<PasswordLockedKeyring<P> as LockedKeyring>::path, (&password,), path)
            ==> is_path(password.path, path),
        call_ensures(<GpgLockedKeyring<N> as LockedKeyring>::path, (&gpg,), path) ==> is_path(
            gpg.path,
            path,
        ),
        call_ensures(
            <AnyLockedKeyring<P, N> as LockedKeyring>::path,
            (&AnyLockedKeyring::Password(password),),
            path,
        ) ==> is_path(password.path, path),
        call_ensures(
            <AnyLockedKeyring<P, N> as LockedKeyring>::path,
            (&AnyLockedKeyring::Gpg(gpg),),
            path,
        ) ==> is_path(gpg.path, path),
        call_ensures(PlainLockedKeyring::path, (&plain,), path) ==> is_path(plain.path, path),
        call_ensures(<PasswordLockedKeyring<P> as LockedKeyring>::modified_time, (&password,), time)
            ==> time == password.inner.modified_time,
        call_ensures(<GpgLockedKeyring<N> as LockedKeyring>::modified_time, (&gpg,), time)
            ==> time == gpg.inner.modified_time,
        call_ensures(
            <AnyLockedKeyring<P, N> as LockedKeyring>::modified_time,
            (&AnyLockedKeyring::Password(password),),
            time,
        ) ==> time == password.inner.modified_time,
        call_ensures(
            <AnyLockedKeyring<P, N> as LockedKeyring>::modified_time,
            (&AnyLockedKeyring::Gpg(gpg),),
            time,
        ) ==> time == gpg.inner.modified_time,
        call_ensures(PlainLockedKeyring::modified_time, (&plain,), time) ==> time
            == plain.keyring.modified_time,
        call_ensures(PlainLockedKeyring::is_gpg_encrypted, (&plain,), encrypted) ==> encrypted == (
        plain.keyring.gpg_config is Some),
{
}

/// The path that is told is the one that is there.
pub open spec fn is_path(
    path: Option<std::path::PathBuf>,
    told: Option<&std::path::PathBuf>,
) -> bool {
    match (path, told) {
        (Some(p), Some(t)) => *t == p,
        (None, None) => true,
        _ => false,
    }
}

/// The password-based keyring after it was locked.
pub open spec fn password_locked<P>(
    unlocked: PasswordUnlockedKeyring<P>,
    locked: PasswordLockedKeyring<P>,
) -> bool {
    &&& locked.inner == unlocked.inner && locked.path == unlocked.path && locked.mtime
        == unlocked.mtime
    &&& locked.label == unlocked.label && locked.secret_provider == unlocked.secret_provider
}

/// The GPG-based keyring after it was locked.
pub open spec fn gpg_locked<N>(
    unlocked: GpgUnlockedKeyring<N>,
    locked: GpgLockedKeyring<N>,
) -> bool {
    &&& locked.inner == unlocked.inner && locked.path == unlocked.path && locked.mtime
        == unlocked.mtime
    &&& locked.label == unlocked.label && locked.notifier == unlocked.notifier
}

/// Locking a keyring forgets the key, and the secret, and nothing else. It stays of its kind.
pub proof fn locking_forgets_the_key_alone<P, N>(
    password: PasswordUnlockedKeyring<P>,
    gpg: GpgUnlockedKeyring<N>,
    locked_password: PasswordLockedKeyring<P>,
    locked_gpg: GpgLockedKeyring<N>,
    locked: AnyLockedKeyring<P, N>,
)
    ensures
        call_ensures(
            <PasswordUnlockedKeyring<P> as UnlockedKeyring<PasswordLockedKeyring<P>>>::lock,
            (password,),
            locked_password,
        ) ==> password_locked(password, locked_password),
        call_ensures(
            <GpgUnlockedKeyring<N> as UnlockedKeyring<GpgLockedKeyring<N>>>::lock,
            (gpg,),
            locked_gpg,
        ) ==> gpg_locked(gpg, locked_gpg),
        call_ensures(
            <AnyUnlockedKeyring<P, N> as UnlockedKeyring<AnyLockedKeyring<P, N>>>::lock,
            (AnyUnlockedKeyring::Password(password),),
            locked,
        ) ==> (locked matches AnyLockedKeyring::Password(k) && password_locked(password, k)),
        call_ensures(
            <AnyUnlockedKeyring<P, N> as UnlockedKeyring<AnyLockedKeyring<P, N>>>::lock,
            (AnyUnlockedKeyring::Gpg(gpg),),
            locked,
        ) ==> (locked matches AnyLockedKeyring::Gpg(k) && gpg_locked(gpg, k)),
{
}

/// The file of a password-based keyring.
pub open spec fn password_file<P>(keyring: PasswordUnlockedKeyring<P>) -> Option<
    std::path::PathBuf,
> {
    keyring.path
}

/// The file of a GPG-based keyring.
pub open spec fn gpg_file<N>(keyring: GpgUnlockedKeyring<N>) -> Option<std::path::PathBuf> {
    keyring.path
}

/// The file of a keyring of either kind.
pub open spec fn any_file<P, N>(keyring: AnyUnlockedKeyring<P, N>) -> Option<std::path::PathBuf> {
    match keyring {
        AnyUnlockedKeyring::Password(k) => k.path,
        AnyUnlockedKeyring::Gpg(k) => k.path,
    }
}

/// A password-based keyring tells the key that it has at hand, and changes nothing by that. Where
/// it has none and gets none, it tells why.
pub proof fn a_password_keyring_tells_its_key<C: KeyringCipher, P>(
    keyring: &mut PasswordUnlockedKeyring<P>,
    cipher: &C,
    e: CryptoError,
    key: Result<Key, CryptoError>,
)
    requires
        call_ensures(
            <PasswordUnlockedKeyring<P> as UnlockedKeyring<PasswordLockedKeyring<P>>>::key::<C>,
            (keyring, cipher),
            key,
        ),
    ensures
        password_key(*old(keyring)) matches Some(held) ==> (key matches Ok(told) && told@ == held@)
            && *final(keyring) == *old(keyring),
        password_keyring_has_no_key(cipher, *old(keyring), e) ==> key == Err::<Key, CryptoError>(e)
            && *final(keyring) == *old(keyring),
{
}

/// A password-based keyring tells its file and the time of its last change.
pub proof fn a_password_keyring_tells_its_file_and_time<P>(
    keyring: PasswordUnlockedKeyring<P>,
    path: Option<&std::path::PathBuf>,
    time: Timestamp,
)
    ensures
        call_ensures(
            <PasswordUnlockedKeyring<P> as UnlockedKeyring<PasswordLockedKeyring<P>>>::path,
            (&keyring,),
            path,
        ) ==> is_path(password_file(keyring), path),
        call_ensures(
            <PasswordUnlockedKeyring<P> as UnlockedKeyring<PasswordLockedKeyring<P>>>::modified_time,
            (&keyring,),
            time,
        ) ==> time == password_contents(keyring).modified_time,
{
}

/// Nothing can be done with a password-based keyring that has no key: every operation ends with the
/// reason, and changes nothing.
pub proof fn a_password_keyring_needs_its_key<C: KeyringCipher, P>(
    keyring: &mut PasswordUnlockedKeyring<P>,
    cipher: &C,
    e: CryptoError,
    label: &str,
    attributes: &Attributes,
    secret: Secret,
    replace: bool,
    list: Result<Vec<Result<Item, InvalidItemError>>, Error>,
    found: Result<Vec<UnlockedItem>, Error>,
    created: Result<Unsaved<UnlockedItem>, Error>,
    deleted: Result<Unsaved<()>, Error>,
)
    requires
        password_keyring_has_no_key(cipher, *old(keyring), e),
    ensures
        call_ensures(
            <PasswordUnlockedKeyring<P> as UnlockedKeyring<PasswordLockedKeyring<P>>>::items::<C>,
            (keyring, cipher),
            list,
        ) ==> *final(keyring) == *old(keyring) && list == Err::<
            Vec<Result<Item, InvalidItemError>>,
            Error,
        >(Error::Crypto(e)),
        call_ensures(
            <PasswordUnlockedKeyring<P> as UnlockedKeyring<PasswordLockedKeyring<P>>>::search_items::<C>,
            (keyring, cipher, attributes),
            found,
        ) ==> *final(keyring) == *old(keyring) && found == Err::<Vec<UnlockedItem>, Error>(
            Error::Crypto(e),
        ),
        call_ensures(
            <PasswordUnlockedKeyring<P> as UnlockedKeyring<PasswordLockedKeyring<P>>>::create_item::<C>,
            (keyring, cipher, label, attributes, secret, replace),
            created,
        ) ==> *final(keyring) == *old(keyring) && created == Err::<Unsaved<UnlockedItem>, Error>(
            Error::Crypto(e),
        ),
        call_ensures(
            <PasswordUnlockedKeyring<P> as UnlockedKeyring<PasswordLockedKeyring<P>>>::delete::<C>,
            (keyring, cipher, attributes),
            deleted,
        ) ==> *final(keyring) == *old(keyring) && deleted == Err::<Unsaved<()>, Error>(
            Error::Crypto(e),
        ),
{
}

/// A password-based keyring lists an item that does not open with the reason and the names of its
/// attributes, at its place in the list.
pub proof fn a_password_keyring_lists_what_does_not_open<C: KeyringCipher, P>(
    keyring: &mut PasswordUnlockedKeyring<P>,
    cipher: &C,
    i: int,
    e: Error,
    list: Result<Vec<Result<Item, InvalidItemError>>, Error>,
)
    requires
        password_key(*old(keyring)) is Some,
        0 <= i < password_contents(*old(keyring)).items@.len(),
        always_fails(
            cipher,
            password_contents(*old(keyring)).items@[i],
            password_key(*old(keyring))->0,
            e,
        ),
        call_ensures(
            <PasswordUnlockedKeyring<P> as UnlockedKeyring<PasswordLockedKeyring<P>>>::items::<C>,
            (keyring, cipher),
            list,
        ),
    ensures
        list matches Ok(entries) && entries@.len() == password_contents(*old(keyring)).items@.len()
            && tells_why(password_contents(*old(keyring)).items@[i], e, entries@[i]),
{
    let held = password_key(*old(keyring))->0;
    let items = password_contents(*old(keyring)).items@;
    let before = *old(keyring);
    assert(key_answer(before.key_source(), cipher, &before.contents(), Ok(held)));
    let entries = list->Ok_0@;
    assert(lists_opened(cipher, items, &held, entries));
    assert(lists_attempt(cipher, items[i], &held, entries[i]));
    let opened = choose|opened: Result<UnlockedItem, Error>| #[trigger]
        decrypts(cipher, &items[i], &held, opened) && listed(items[i], opened, entries[i]);
    assert(opened == Err::<UnlockedItem, Error>(e));
    let names = entries[i]->Err_0.attribute_names@;
    let shown = names.map_values(|n: String| n@);
    assert(shown == items[i].names());
    assert(shown.len() == names.len());
    assert forall|j: int| 0 <= j < names.len() implies (#[trigger] names[j])@
        == items[i].hashed_attributes@[j].0@ by {
        assert(shown[j] == names[j]@);
        assert(items[i].names()[j] == items[i].hashed_attributes@[j].0@);
    }
}

/// A deletion in a password-based keyring that fails deletes nothing, and a creation that fails
/// creates nothing. The file, the salt and the time are never touched.
pub proof fn a_password_keyring_keeps_its_items_on_failure<C: KeyringCipher, P>(
    keyring: &mut PasswordUnlockedKeyring<P>,
    cipher: &C,
    label: &str,
    attributes: &Attributes,
    secret: Secret,
    created: Result<Unsaved<UnlockedItem>, Error>,
    deleted: Result<Unsaved<()>, Error>,
)
    ensures
        call_ensures(
            <PasswordUnlockedKeyring<P> as UnlockedKeyring<PasswordLockedKeyring<P>>>::create_item::<C>,
            (keyring, cipher, label, attributes, secret, false),
            created,
        ) && created is Err ==> password_contents(*final(keyring)).items@ == password_contents(
            *old(keyring),
        ).items@,
        call_ensures(
            <PasswordUnlockedKeyring<P> as UnlockedKeyring<PasswordLockedKeyring<P>>>::delete::<C>,
            (keyring, cipher, attributes),
            deleted,
        ) && deleted is Err ==> password_contents(*final(keyring)).items@ == password_contents(
            *old(keyring),
        ).items@,
{
}

/// A GPG-based keyring tells the key that it has at hand, and changes nothing by that. Where it
/// has none and gets none, it tells why.
pub proof fn a_gpg_keyring_tells_its_key<C: KeyringCipher, N>(
    keyring: &mut GpgUnlockedKeyring<N>,
    cipher: &C,
    e: CryptoError,
    key: Result<Key, CryptoError>,
)
    requires
        call_ensures(
            <GpgUnlockedKeyring<N> as UnlockedKeyring<GpgLockedKeyring<N>>>::key::<C>,
            (keyring, cipher),
            key,
        ),
    ensures
        gpg_key(*old(keyring)) matches Some(held) ==> (key matches Ok(told) && told@ == held@)
            && *final(keyring) == *old(keyring),
        gpg_keyring_has_no_key(cipher, *old(keyring), e) ==> key == Err::<Key, CryptoError>(e)
            && *final(keyring) == *old(keyring),
{
}

/// A GPG-based keyring tells its file and the time of its last change.
pub proof fn a_gpg_keyring_tells_its_file_and_time<N>(
    keyring: GpgUnlockedKeyring<N>,
    path: Option<&std::path::PathBuf>,
    time: Timestamp,
)
    ensures
        call_ensures(
            <GpgUnlockedKeyring<N> as UnlockedKeyring<GpgLockedKeyring<N>>>::path,
            (&keyring,),
            path,
        ) ==> is_path(gpg_file(keyring), path),
        call_ensures(
            <GpgUnlockedKeyring<N> as UnlockedKeyring<GpgLockedKeyring<N>>>::modified_time,
            (&keyring,),
            time,
        ) ==> time == gpg_contents(keyring).modified_time,
{
}

/// Nothing can be done with a GPG-based keyring that has no key: every operation ends with the
/// reason, and changes nothing.
pub proof fn a_gpg_keyring_needs_its_key<C: KeyringCipher, N>(
    keyring: &mut GpgUnlockedKeyring<N>,
    cipher: &C,
    e: CryptoError,
    label: &str,
    attributes: &Attributes,
    secret: Secret,
    replace: bool,
    list: Result<Vec<Result<Item, InvalidItemError>>, Error>,
    found: Result<Vec<UnlockedItem>, Error>,
    created: Result<Unsaved<UnlockedItem>, Error>,
    deleted: Result<Unsaved<()>, Error>,
)
    requires
        gpg_keyring_has_no_key(cipher, *old(keyring), e),
    ensures
        call_ensures(
            <GpgUnlockedKeyring<N> as UnlockedKeyring<GpgLockedKeyring<N>>>::items::<C>,
            (keyring, cipher),
            list,
        ) ==> *final(keyring) == *old(keyring) && list == Err::<
            Vec<Result<Item, InvalidItemError>>,
            Error,
        >(Error::Crypto(e)),
        call_ensures(
            <GpgUnlockedKeyring<N> as UnlockedKeyring<GpgLockedKeyring<N>>>::search_items::<C>,
            (keyring, cipher, attributes),
            found,
        ) ==> *final(keyring) == *old(keyring) && found == Err::<Vec<UnlockedItem>, Error>(
            Error::Crypto(e),
        ),
        call_ensures(
            <GpgUnlockedKeyring<N> as UnlockedKeyring<GpgLockedKeyring<N>>>::create_item::<C>,
            (keyring, cipher, label, attributes, secret, replace),
            created,
        ) ==> *final(keyring) == *old(keyring) && created == Err::<Unsaved<UnlockedItem>, Error>(
            Error::Crypto(e),
        ),
        call_ensures(
            <GpgUnlockedKeyring<N> as UnlockedKeyring<GpgLockedKeyring<N>>>::delete::<C>,
            (keyring, cipher, attributes),
            deleted,
        ) ==> *final(keyring) == *old(keyring) && deleted == Err::<Unsaved<()>, Error>(
            Error::Crypto(e),
        ),
{
}

/// A GPG-based keyring lists an item that does not open with the reason and the names of its
/// attributes, at its place in the list.
pub proof fn a_gpg_keyring_lists_what_does_not_open<C: KeyringCipher, N>(
    keyring: &mut GpgUnlockedKeyring<N>,
    cipher: &C,
    i: int,
    e: Error,
    list: Result<Vec<Result<Item, InvalidItemError>>, Error>,
)
    requires
        gpg_key(*old(keyring)) is Some,
        0 <= i < gpg_contents(*old(keyring)).items@.len(),
        always_fails(
            cipher,
            gpg_contents(*old(keyring)).items@[i],
            gpg_key(*old(keyring))->0,
            e,
        ),
        call_ensures(
            <GpgUnlockedKeyring<N> as UnlockedKeyring<GpgLockedKeyring<N>>>::items::<C>,
            (keyring, cipher),
            list,
        ),
    ensures
        list matches Ok(entries) && entries@.len() == gpg_contents(*old(keyring)).items@.len()
            && tells_why(gpg_contents(*old(keyring)).items@[i], e, entries@[i]),
{
    let held = gpg_key(*old(keyring))->0;
    let items = gpg_contents(*old(keyring)).items@;
    let before = *old(keyring);
    assert(key_answer(before.key_source(), cipher, &before.contents(), Ok(held)));
    let entries = list->Ok_0@;
    assert(lists_opened(cipher, items, &held, entries));
    assert(lists_attempt(cipher, items[i], &held, entries[i]));
    let opened = choose|opened: Result<UnlockedItem, Error>| #[trigger]
        decrypts(cipher, &items[i], &held, opened) && listed(items[i], opened, entries[i]);
    assert(opened == Err::<UnlockedItem, Error>(e));
    let names = entries[i]->Err_0.attribute_names@;
    let shown = names.map_values(|n: String| n@);
    assert(shown == items[i].names());
    assert(shown.len() == names.len());
    assert forall|j: int| 0 <= j < names.len() implies (#[trigger] names[j])@
        == items[i].hashed_attributes@[j].0@ by {
        assert(shown[j] == names[j]@);
        assert(items[i].names()[j] == items[i].hashed_attributes@[j].0@);
    }
}

/// A deletion in a GPG-based keyring that fails deletes nothing, and a creation that fails creates
/// nothing. The file, the salt and the time are never touched.
pub proof fn a_gpg_keyring_keeps_its_items_on_failure<C: KeyringCipher, N>(
    keyring: &mut GpgUnlockedKeyring<N>,
    cipher: &C,
    label: &str,
    attributes: &Attributes,
    secret: Secret,
    created: Result<Unsaved<UnlockedItem>, Error>,
    deleted: Result<Unsaved<()>, Error>,
)
    ensures
        call_ensures(
            <GpgUnlockedKeyring<N> as UnlockedKeyring<GpgLockedKeyring<N>>>::create_item::<C>,
            (keyring, cipher, label, attributes, secret, false),
            created,
        ) && created is Err ==> gpg_contents(*final(keyring)).items@ == gpg_contents(
            *old(keyring),
        ).items@,
        call_ensures(
            <GpgUnlockedKeyring<N> as UnlockedKeyring<GpgLockedKeyring<N>>>::delete::<C>,
            (keyring, cipher, attributes),
            deleted,
        ) && deleted is Err ==> gpg_contents(*final(keyring)).items@ == gpg_contents(
            *old(keyring),
        ).items@,
{
}

/// A loaded keyring tells the key that it has at hand, and changes nothing by that. Where it
/// has none and gets none, it tells why.
pub proof fn a_any_keyring_tells_its_key<C: KeyringCipher, P, N>(
    keyring: &mut AnyUnlockedKeyring<P, N>,
    cipher: &C,
    e: CryptoError,
    key: Result<Key, CryptoError>,
)
    requires
        call_ensures(
            <AnyUnlockedKeyring<P, N> as UnlockedKeyring<AnyLockedKeyring<P, N>>>::key::<C>,
            (keyring, cipher),
            key,
        ),
    ensures
        any_key(*old(keyring)) matches Some(held) ==> (key matches Ok(told) && told@ == held@)
            && *final(keyring) == *old(keyring),
        any_keyring_has_no_key(cipher, *old(keyring), e) ==> key == Err::<Key, CryptoError>(e)
            && *final(keyring) == *old(keyring),
{
}

/// A loaded keyring tells its file and the time of its last change.
pub proof fn a_any_keyring_tells_its_file_and_time<P, N>(
    keyring: AnyUnlockedKeyring<P, N>,
    path: Option<&std::path::PathBuf>,
    time: Timestamp,
)
    ensures
        call_ensures(
            <AnyUnlockedKeyring<P, N> as UnlockedKeyring<AnyLockedKeyring<P, N>>>::path,
            (&keyring,),
            path,
        ) ==> is_path(any_file(keyring), path),
        call_ensures(
            <AnyUnlockedKeyring<P, N> as UnlockedKeyring<AnyLockedKeyring<P, N>>>::modified_time,
            (&keyring,),
            time,
        ) ==> time == any_contents(keyring).modified_time,
{
}

/// Nothing can be done with a loaded keyring that has no key: every operation ends with the
/// reason, and changes nothing.
pub proof fn a_any_keyring_needs_its_key<C: KeyringCipher, P, N>(
    keyring: &mut AnyUnlockedKeyring<P, N>,
    cipher: &C,
    e: CryptoError,
    label: &str,
    attributes: &Attributes,
    secret: Secret,
    replace: bool,
    list: Result<Vec<Result<Item, InvalidItemError>>, Error>,
    found: Result<Vec<UnlockedItem>, Error>,
    created: Result<Unsaved<UnlockedItem>, Error>,
    deleted: Result<Unsaved<()>, Error>,
)
    requires
        any_keyring_has_no_key(cipher, *old(keyring), e),
    ensures
        call_ensures(
            <AnyUnlockedKeyring<P, N> as UnlockedKeyring<AnyLockedKeyring<P, N>>>::items::<C>,
            (keyring, cipher),
            list,
        ) ==> *final(keyring) == *old(keyring) && list == Err::<
            Vec<Result<Item, InvalidItemError>>,
            Error,
        >(Error::Crypto(e)),
        call_ensures(
            <AnyUnlockedKeyring<P, N> as UnlockedKeyring<AnyLockedKeyring<P, N>>>::search_items::<C>,
            (keyring, cipher, attributes),
            found,
        ) ==> *final(keyring) == *old(keyring) && found == Err::<Vec<UnlockedItem>, Error>(
            Error::Crypto(e),
        ),
        call_ensures(
            <AnyUnlockedKeyring<P, N> as UnlockedKeyring<AnyLockedKeyring<P, N>>>::create_item::<C>,
            (keyring, cipher, label, attributes, secret, replace),
            created,
        ) ==> *final(keyring) == *old(keyring) && created == Err::<Unsaved<UnlockedItem>, Error>(
            Error::Crypto(e),
        ),
        call_ensures(
            <AnyUnlockedKeyring<P, N> as UnlockedKeyring<AnyLockedKeyring<P, N>>>::delete::<C>,
            (keyring, cipher, attributes),
            deleted,
        ) ==> *final(keyring) == *old(keyring) && deleted == Err::<Unsaved<()>, Error>(
            Error::Crypto(e),
        ),
{
}

/// A loaded keyring lists an item that does not open with the reason and the names of its
/// attributes, at its place in the list.
pub proof fn a_any_keyring_lists_what_does_not_open<C: KeyringCipher, P, N>(
    keyring: &mut AnyUnlockedKeyring<P, N>,
    cipher: &C,
    i: int,
    e: Error,
    list: Result<Vec<Result<Item, InvalidItemError>>, Error>,
)
    requires
        any_key(*old(keyring)) is Some,
        0 <= i < any_contents(*old(keyring)).items@.len(),
        always_fails(
            cipher,
            any_contents(*old(keyring)).items@[i],
            any_key(*old(keyring))->0,
            e,
        ),
        call_ensures(
            <AnyUnlockedKeyring<P, N> as UnlockedKeyring<AnyLockedKeyring<P, N>>>::items::<C>,
            (keyring, cipher),
            list,
        ),
    ensures
        list matches Ok(entries) && entries@.len() == any_contents(*old(keyring)).items@.len()
            && tells_why(any_contents(*old(keyring)).items@[i], e, entries@[i]),
{
    let held = any_key(*old(keyring))->0;
    let items = any_contents(*old(keyring)).items@;
    let before = *old(keyring);
    assert(key_answer(before.key_source(), cipher, &before.contents(), Ok(held)));
    let entries = list->Ok_0@;
    assert(lists_opened(cipher, items, &held, entries));
    assert(lists_attempt(cipher, items[i], &held, entries[i]));
    let opened = choose|opened: Result<UnlockedItem, Error>| #[trigger]
        decrypts(cipher, &items[i], &held, opened) && listed(items[i], opened, entries[i]);
    assert(opened == Err::<UnlockedItem, Error>(e));
    let names = entries[i]->Err_0.attribute_names@;
    let shown = names.map_values(|n: String| n@);
    assert(shown == items[i].names());
    assert(shown.len() == names.len());
    assert forall|j: int| 0 <= j < names.len() implies (#[trigger] names[j])@
        == items[i].hashed_attributes@[j].0@ by {
        assert(shown[j] == names[j]@);
        assert(items[i].names()[j] == items[i].hashed_attributes@[j].0@);
    }
}

/// A deletion in a loaded keyring that fails deletes nothing, and a creation that fails creates
/// nothing. The file, the salt and the time are never touched.
pub proof fn a_any_keyring_keeps_its_items_on_failure<C: KeyringCipher, P, N>(
    keyring: &mut AnyUnlockedKeyring<P, N>,
    cipher: &C,
    label: &str,
    attributes: &Attributes,
    secret: Secret,
    created: Result<Unsaved<UnlockedItem>, Error>,
    deleted: Result<Unsaved<()>, Error>,
)
    ensures
        call_ensures(
            <AnyUnlockedKeyring<P, N> as UnlockedKeyring<AnyLockedKeyring<P, N>>>::create_item::<C>,
            (keyring, cipher, label, attributes, secret, false),
            created,
        ) && created is Err ==> any_contents(*final(keyring)).items@ == any_contents(
            *old(keyring),
        ).items@,
        call_ensures(
            <AnyUnlockedKeyring<P, N> as UnlockedKeyring<AnyLockedKeyring<P, N>>>::delete::<C>,
            (keyring, cipher, attributes),
            deleted,
        ) && deleted is Err ==> any_contents(*final(keyring)).items@ == any_contents(
            *old(keyring),
        ).items@,
{
}

} // verus!

//! What is left of a keyring after its secret was changed or its key rotated.
use vstd::prelude::*;

use crate::crypto::error::Error as CryptoError;
use crate::crypto::gpg::SessionKey;
use crate::file::api::all_opened;
use crate::file::api::all_sealed;
use crate::file::api::decrypts;
use crate::file::api::derives;
use crate::file::api::EncryptedItem;
use crate::file::api::Keyring;
use crate::file::api::KeyringCipher;
use crate::file::api::UnlockedItem;
use crate::file::api::UnlockedItemView;
use crate::file::call_laws::always_fails;
use crate::file::cipher::faithful;
use crate::file::cipher::held_items_come_out;
use crate::file::cipher::hold;
use crate::file::cipher::holds;
use crate::file::cipher::key_of_secret;
use crate::file::cipher::known;
use crate::file::cipher::plain_views;
use crate::file::cipher::same_key;
use crate::file::error::Error;
use crate::file::gpg_keyring::rotated;
use crate::file::gpg_keyring::GpgUnlockedKeyring;
use crate::file::gpg_keyring::SaveRequest;
use crate::file::keyring_laws::gpg_keyring_holds;
use crate::file::keyring_laws::password_keyring_holds;
use crate::file::loader::AnyUnlockedKeyring;
use crate::file::password_keyring::resealed;
use crate::file::password_keyring::secret_changed;
use crate::file::password_keyring::PasswordUnlockedKeyring;
use crate::file::storage::in_memory;
use crate::file::storage::DumpRequest;
use crate::file::storage::Unsaved;
use crate::file::storage::Written;
use crate::file::traits::key_answer;
use crate::file::traits::UnlockedKeyring;
use crate::secret::Key;
use crate::secret::Secret;

verus! {

/// Of a keyring whose items held the contents, this is left after a change of its secret. All of
/// it is there, under the key that the new secret gives with a new salt. Where the change failed,
/// the items before the one that could not be sealed are there.
pub open spec fn has_a_new_secret<C: KeyringCipher, P>(
    before: PasswordUnlockedKeyring<P>,
    cipher: &C,
    contents: Seq<UnlockedItemView>,
    secret: Secret,
    after: PasswordUnlockedKeyring<P>,
    changed: bool,
) -> bool {
    &&& after.path == before.path && after.mtime == before.mtime && after.label == before.label
    &&& after.secret_provider == before.secret_provider
    &&& after.inner.modified_time == before.inner.modified_time
    &&& after.inner.gpg_config == before.inner.gpg_config
    &&& after.secret == secret
    &&& call_ensures(C::fresh_salt, (cipher,), after.inner.salt)
    &&& after.inner.items@.len() <= contents.len()
    &&& match after.key {
        Some(key) => {
            &&& key_of_secret(cipher, after.inner.salt@, secret@, key)
            &&& hold(
                cipher,
                after.inner.items@,
                key,
                contents.take(after.inner.items@.len() as int),
            )
        },
        None => after.inner.items@.len() == 0 && !changed,
    }
    &&& changed ==> after.inner.items@.len() == contents.len()
    &&& !changed && after.key is Some ==> after.inner.items@.len() < contents.len()
}

/// Items that were sealed up to a failure hold the first part of what went in.
pub proof fn lemma_part_sealed<C: KeyringCipher>(
    cipher: &C,
    items: Seq<UnlockedItem>,
    key: &Key,
    sealed: Seq<EncryptedItem>,
    outcome: Result<(), Error>,
    contents: Seq<UnlockedItemView>,
)
    requires
        all_sealed(cipher, items, key, sealed, outcome),
        plain_views(items) == contents,
    ensures
        sealed.len() <= contents.len(),
        hold(cipher, sealed, *key, contents.take(sealed.len() as int)),
        outcome is Ok <==> sealed.len() == contents.len(),
{
    assert(contents.len() == items.len());
    assert forall|i: int| 0 <= i < sealed.len() implies holds(
        cipher,
        #[trigger] sealed[i],
        *key,
        contents.take(sealed.len() as int)[i],
    ) by {
        assert(known(cipher, items[i], sealed[i], *key));
        assert(contents[i] == items[i]@);
    }
}

proof fn lemma_new_secret<C: KeyringCipher, P>(
    before: PasswordUnlockedKeyring<P>,
    cipher: &C,
    key: Key,
    contents: Seq<UnlockedItemView>,
    secret: Secret,
    after: PasswordUnlockedKeyring<P>,
    outcome: Result<(), Error>,
)
    requires
        faithful(cipher),
        password_keyring_holds(cipher, before, key, contents),
        secret_changed(before, cipher, secret, after, outcome),
    ensures
        has_a_new_secret(before, cipher, contents, secret, after, outcome is Ok),
{
    let answer = choose|answer: Result<Key, CryptoError>| #[trigger]
        key_answer(before.key_source(), cipher, &before.contents(), answer) && match answer {
            Ok(held) => exists|opened: Result<Seq<UnlockedItem>, Error>| #[trigger]
                all_opened(cipher, before.inner.items@, &held, opened) && match opened {
                    Ok(items) => resealed(before, cipher, secret, items, after, outcome),
                    Err(e) => after == before.holding(held) && outcome == Err::<(), Error>(e),
                },
            Err(e) => after == before && outcome == Err::<(), Error>(Error::Crypto(e)),
        };
    let held = answer->Ok_0;
    assert(answer is Ok && same_key(key, held));
    let opened = choose|opened: Result<Seq<UnlockedItem>, Error>| #[trigger]
        all_opened(cipher, before.inner.items@, &held, opened) && match opened {
            Ok(items) => resealed(before, cipher, secret, items, after, outcome),
            Err(e) => after == before.holding(held) && outcome == Err::<(), Error>(e),
        };
    held_items_come_out(cipher, before.inner.items@, key, contents, &held, opened);
    let items = opened->Ok_0;
    let (empty, derived) = choose|empty: Keyring, derived: Result<Key, CryptoError>| #[trigger]
        derives(cipher, &empty, &secret, derived) && empty == (Keyring {
            items: empty.items,
            ..after.inner
        }) && empty.items@.len() == 0 && match derived {
            Ok(k) => {
                &&& after.key == Some(k)
                &&& all_sealed(cipher, items, &k, after.inner.items@, outcome)
            },
            Err(e) => {
                &&& after.key is None
                &&& after.inner == empty
                &&& outcome == Err::<(), Error>(Error::Crypto(e))
            },
        };
    if let Ok(k) = derived {
        assert(call_ensures(C::derive_key, (cipher, &empty, &secret), Ok(k)));
        assert(key_of_secret(cipher, after.inner.salt@, secret@, k));
        lemma_part_sealed(cipher, items, &k, after.inner.items@, outcome, contents);
    }
}

/// A change of the secret puts all that a password-based keyring holds under the key of the new
/// secret, with a new salt. Nothing else of the keyring changes.
pub proof fn a_changed_secret_locks_the_same_contents<C: KeyringCipher, P>(
    keyring: &mut PasswordUnlockedKeyring<P>,
    cipher: &C,
    key: Key,
    contents: Seq<UnlockedItemView>,
    secret: Secret,
    outcome: Result<Unsaved<()>, Error>,
)
    requires
        faithful(cipher),
        password_keyring_holds(cipher, *old(keyring), key, contents),
        call_ensures(
            PasswordUnlockedKeyring::<P>::change_secret::<C>,
            (keyring, cipher, secret),
            outcome,
        ),
    ensures
        has_a_new_secret(
            *old(keyring),
            cipher,
            contents,
            secret,
            *final(keyring),
            outcome is Ok,
        ),
{
    lemma_new_secret(
        *old(keyring),
        cipher,
        key,
        contents,
        secret,
        *final(keyring),
        in_memory(outcome),
    );
}

/// A keyring of either kind changes its secret as the keyring inside does. A GPG-based one has
/// none to change, and stays as it is.
pub proof fn a_changed_secret_is_that_of_the_keyring_inside<C: KeyringCipher, P, N>(
    keyring: &mut AnyUnlockedKeyring<P, N>,
    gpg: &mut GpgUnlockedKeyring<N>,
    cipher: &C,
    key: Key,
    contents: Seq<UnlockedItemView>,
    secret: Secret,
    outcome: Result<Unsaved<()>, Error>,
)
    ensures
        faithful(cipher) && call_ensures(
            AnyUnlockedKeyring::<P, N>::change_secret::<C>,
            (keyring, cipher, secret),
            outcome,
        ) ==> match *old(keyring) {
            AnyUnlockedKeyring::Password(before) => password_keyring_holds(
                cipher,
                before,
                key,
                contents,
            ) ==> (*final(keyring) matches AnyUnlockedKeyring::Password(after) && has_a_new_secret(
                before,
                cipher,
                contents,
                secret,
                after,
                outcome is Ok,
            )),
            AnyUnlockedKeyring::Gpg(_) => *final(keyring) == *old(keyring) && (outcome matches Err(
                e,
            ) && e is NotPasswordBased),
        },
        call_ensures(GpgUnlockedKeyring::<N>::change_secret, (gpg, secret), outcome)
            ==> *final(gpg) == *old(gpg) && (outcome matches Err(e) && e is NotPasswordBased),
{
    if faithful(cipher) && call_ensures(
        AnyUnlockedKeyring::<P, N>::change_secret::<C>,
        (keyring, cipher, secret),
        outcome,
    ) {
        if let AnyUnlockedKeyring::Password(before) = *old(keyring) {
            if password_keyring_holds(cipher, before, key, contents) {
                let after = (*final(keyring))->Password_0;
                lemma_new_secret(
                    before,
                    cipher,
                    key,
                    contents,
                    secret,
                    after,
                    in_memory(outcome),
                );
            }
        }
    }
}

proof fn lemma_not_all_opened<C: KeyringCipher>(
    cipher: &C,
    items: Seq<EncryptedItem>,
    key: Key,
    i: int,
    e: Error,
    opened: Result<Seq<UnlockedItem>, Error>,
)
    requires
        0 <= i < items.len(),
        always_fails(cipher, items[i], key, e),
        all_opened(cipher, items, &key, opened),
    ensures
        opened is Err,
{
    if let Ok(plain) = opened {
        assert(decrypts(cipher, &items[i], &key, Ok(plain[i])));
        assert(call_ensures(C::decrypt, (cipher, &items[i], &key), Ok(plain[i])));
    }
}

/// A keyring with an item that does not open keeps its secret, or its master key, and all its
/// items: no change goes ahead that would lose the item.
pub proof fn no_change_loses_an_item<C: KeyringCipher, P, N>(
    password: &mut PasswordUnlockedKeyring<P>,
    gpg: &mut GpgUnlockedKeyring<N>,
    cipher: &C,
    i: int,
    e: Error,
    secret: Secret,
    changed: Result<Unsaved<()>, Error>,
    master_key: &SessionKey,
    encrypted: Result<Vec<u8>, CryptoError>,
    rotation: Result<(), Error>,
)
    ensures
        old(password).key is Some && 0 <= i < old(password).inner.items@.len() && always_fails(
            cipher,
            old(password).inner.items@[i],
            old(password).key->0,
            e,
        ) && call_ensures(
            PasswordUnlockedKeyring::<P>::change_secret::<C>,
            (password, cipher, secret),
            changed,
        ) ==> changed is Err && *final(password) == *old(password),
        old(gpg).key is Some && 0 <= i < old(gpg).inner.items@.len() && always_fails(
            cipher,
            old(gpg).inner.items@[i],
            old(gpg).key->0,
            e,
        ) && call_ensures(
            GpgUnlockedKeyring::<N>::rotate_key::<C>,
            (gpg, cipher, master_key, encrypted),
            rotation,
        ) ==> rotation is Err && *final(gpg) == *old(gpg),
{
    if old(password).key is Some && 0 <= i < old(password).inner.items@.len() && always_fails(
        cipher,
        old(password).inner.items@[i],
        old(password).key->0,
        e,
    ) {
        let held = old(password).key->0;
        assert forall|opened: Result<Seq<UnlockedItem>, Error>| #[trigger]
            all_opened(cipher, old(password).inner.items@, &held, opened) implies opened is Err by {
            lemma_not_all_opened(cipher, old(password).inner.items@, held, i, e, opened);
        }
    }
    if old(gpg).key is Some && 0 <= i < old(gpg).inner.items@.len() && always_fails(
        cipher,
        old(gpg).inner.items@[i],
        old(gpg).key->0,
        e,
    ) {
        let held = old(gpg).key->0;
        assert forall|opened: Result<Seq<UnlockedItem>, Error>| #[trigger]
            all_opened(cipher, old(gpg).inner.items@, &held, opened) implies opened is Err by {
            lemma_not_all_opened(cipher, old(gpg).inner.items@, held, i, e, opened);
        }
    }
}

/// The keyring has the new master key, and its configuration names the same GPG key with what GPG
/// made of the master key. Its items hold what they held.
pub open spec fn has_a_new_master_key<C: KeyringCipher, N>(
    before: GpgUnlockedKeyring<N>,
    cipher: &C,
    contents: Seq<UnlockedItemView>,
    master_key: Seq<u8>,
    encrypted: Result<Vec<u8>, CryptoError>,
    after: GpgUnlockedKeyring<N>,
) -> bool {
    &&& after.path == before.path && after.mtime == before.mtime && after.label == before.label
    &&& after.gpg_key_id == before.gpg_key_id && after.notifier == before.notifier
    &&& after.inner.salt == before.inner.salt
    &&& after.inner.modified_time == before.inner.modified_time
    &&& after.key matches Some(key) && key.bytes@ == master_key && key.strength is Adequate
        && gpg_keyring_holds(cipher, after, key, contents)
    &&& after.inner.gpg_config matches Some(config) && config.gpg_key_id@ == before.gpg_key_id@
        && (encrypted matches Ok(bytes) && config.encrypted_master_key@ == bytes@)
}

proof fn lemma_new_master_key<C: KeyringCipher, N>(
    before: GpgUnlockedKeyring<N>,
    cipher: &C,
    key: Key,
    contents: Seq<UnlockedItemView>,
    master_key: Seq<u8>,
    encrypted: Result<Vec<u8>, CryptoError>,
    after: GpgUnlockedKeyring<N>,
)
    requires
        faithful(cipher),
        gpg_keyring_holds(cipher, before, key, contents),
        rotated(before, cipher, master_key, encrypted, after, Ok(())),
    ensures
        has_a_new_master_key(before, cipher, contents, master_key, encrypted, after),
{
    let held = before.key->0;
    let opened = choose|opened: Result<Seq<UnlockedItem>, Error>| #[trigger]
        all_opened(cipher, before.inner.items@, &held, opened) && match opened {
            Ok(items) => exists|new_key: Key| #[trigger]
                all_sealed(cipher, items, &new_key, after.inner.items@, Ok(())) && after.key
                    == Some(new_key),
            Err(e) => false,
        };
    held_items_come_out(cipher, before.inner.items@, key, contents, &held, opened);
    let items = opened->Ok_0;
    let new_key = after.key->0;
    lemma_part_sealed(cipher, items, &new_key, after.inner.items@, Ok(()), contents);
    assert(contents.take(contents.len() as int) =~= contents);
}

/// A rotation of the master key that succeeds puts all that a GPG-based keyring holds under the
/// new key. Without a key of its own, or without what GPG was to make of the new one, a keyring
/// stays as it is.
pub proof fn a_rotated_key_locks_the_same_contents<C: KeyringCipher, N>(
    keyring: &mut GpgUnlockedKeyring<N>,
    cipher: &C,
    key: Key,
    contents: Seq<UnlockedItemView>,
    master_key: &SessionKey,
    encrypted: Result<Vec<u8>, CryptoError>,
    outcome: Result<(), Error>,
)
    requires
        call_ensures(
            GpgUnlockedKeyring::<N>::rotate_key::<C>,
            (keyring, cipher, master_key, encrypted),
            outcome,
        ),
    ensures
        faithful(cipher) && gpg_keyring_holds(cipher, *old(keyring), key, contents) && outcome is Ok
            ==> has_a_new_master_key(
            *old(keyring),
            cipher,
            contents,
            master_key@,
            encrypted,
            *final(keyring),
        ),
        old(keyring).key is None ==> *final(keyring) == *old(keyring) && outcome == Err::<
            (),
            Error,
        >(Error::Crypto(CryptoError::NoKey)),
        old(keyring).key is Some ==> (encrypted matches Err(e) ==> *final(keyring) == *old(keyring)
            && outcome == Err::<(), Error>(Error::Crypto(e))),
{
    if faithful(cipher) && gpg_keyring_holds(cipher, *old(keyring), key, contents)
        && outcome is Ok {
        assert(outcome->Ok_0 == ());
        lemma_new_master_key(
            *old(keyring),
            cipher,
            key,
            contents,
            master_key@,
            encrypted,
            *final(keyring),
        );
    }
}

/// A save asks GPG to encrypt a new master key of the right size to the key of the keyring. What
/// is dumped then is the keyring under the new master key. Without a file the key is rotated all
/// the same, and nothing is dumped. The time of the file is remembered, where it is known.
pub proof fn a_gpg_keyring_is_written_under_a_new_key<C: KeyringCipher, N>(
    keyring: &mut GpgUnlockedKeyring<N>,
    cipher: &C,
    key: Key,
    contents: Seq<UnlockedItemView>,
    begun: Result<SaveRequest, Error>,
    request: SaveRequest,
    encrypted: Result<Vec<u8>, CryptoError>,
    outcome: Result<Option<DumpRequest<'_>>, Error>,
    written: Written,
    done: Result<(), Error>,
)
    ensures
        call_ensures(GpgUnlockedKeyring::<N>::begin_save, (old(keyring),), begun) ==> match (
            old(keyring).key,
            begun,
        ) {
            (Some(_), Ok(r)) => r.gpg_key_id@ == old(keyring).gpg_key_id@ && r.master_key@.len()
                == 16,
            (None, Err(e)) => e == Error::Crypto(CryptoError::NoKey),
            _ => false,
        },
        faithful(cipher) && gpg_keyring_holds(cipher, *old(keyring), key, contents) && call_ensures(
            GpgUnlockedKeyring::<N>::write::<C>,
            (keyring, cipher, &request, encrypted),
            outcome,
        ) ==> match outcome {
            Ok(Some(dump)) => {
                &&& old(keyring).path == Some(*dump.path) && dump.mtime == old(keyring).mtime
                &&& has_a_new_master_key(
                    *old(keyring),
                    cipher,
                    contents,
                    request.master_key@,
                    encrypted,
                    GpgUnlockedKeyring { inner: *dump.contents, ..*final(keyring) },
                )
                &&& final(keyring).inner == *final(dump.contents)
            },
            Ok(None) => {
                &&& old(keyring).path is None
                &&& has_a_new_master_key(
                    *old(keyring),
                    cipher,
                    contents,
                    request.master_key@,
                    encrypted,
                    *final(keyring),
                )
            },
            Err(e) => encrypted matches Err(c) ==> e == Error::Crypto(c) && *final(keyring) == *old(
                keyring,
            ),
        },
        call_ensures(GpgUnlockedKeyring::<N>::finish_write, (keyring, written), done)
            ==> match written {
            Written::Failed(e) => done == Err::<(), Error>(e) && *final(keyring) == *old(keyring),
            Written::Done { mtime } => done is Ok && *final(keyring) == (GpgUnlockedKeyring {
                mtime: if mtime is Some {
                    mtime
                } else {
                    old(keyring).mtime
                },
                ..*old(keyring)
            }),
        },
{
    if faithful(cipher) && gpg_keyring_holds(cipher, *old(keyring), key, contents) && call_ensures(
        GpgUnlockedKeyring::<N>::write::<C>,
        (keyring, cipher, &request, encrypted),
        outcome,
    ) {
        match outcome {
            Ok(Some(dump)) => {
                lemma_new_master_key(
                    *old(keyring),
                    cipher,
                    key,
                    contents,
                    request.master_key@,
                    encrypted,
                    GpgUnlockedKeyring { inner: *dump.contents, ..*final(keyring) },
                );
            },
            Ok(None) => {
                lemma_new_master_key(
                    *old(keyring),
                    cipher,
                    key,
                    contents,
                    request.master_key@,
                    encrypted,
                    *final(keyring),
                );
            },
            Err(_) => {},
        }
    }
}

/// A change that was made in memory gives what it gives once the keyring was written, and the
/// error of the write where it was not.
pub proof fn a_change_counts_once_it_is_written<T>(
    change: Unsaved<T>,
    e: Error,
    outcome: Result<T, Error>,
)
    ensures
        call_ensures(Unsaved::<T>::saved, (change, Ok(())), outcome) ==> outcome == Ok::<T, Error>(
            change@,
        ),
        call_ensures(Unsaved::<T>::saved, (change, Err(e)), outcome) ==> outcome == Err::<T, Error>(
            e,
        ),
{
}

} // verus!

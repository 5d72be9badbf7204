//! What comes out of a keyring file, and that it is what went into it.
use vstd::prelude::*;

use crate::file::api::Item;
use crate::file::api::Keyring;
use crate::file::api::KeyringCipher;
use crate::file::api::UnlockedItemView;
use crate::file::cipher::faithful;
use crate::file::cipher::hold;
use crate::file::cipher::honest;
use crate::file::cipher::key_of_secret;
use crate::file::cipher::same_key;
use crate::file::cipher::shows_all;
use crate::file::error::Error;
use crate::file::error::InvalidItemError;
use crate::file::gpg_keyring::GpgLockedKeyring;
use crate::file::keyring_laws::a_password_keyring_lists_what_it_holds;
use crate::file::laws::relocking_shows_the_same_items;
use crate::file::loader::is_gpg_encrypted;
use crate::file::loader::load_keyring;
use crate::file::loader::AnyLockedKeyring;
use crate::file::locked_keyring::LockedKeyring as PlainLockedKeyring;
use crate::file::password_keyring::NoOpSecretProvider;
use crate::file::password_keyring::PasswordLockedKeyring;
use crate::file::password_keyring::PasswordUnlockedKeyring;
use crate::file::storage::load_or_create;
use crate::file::storage::DumpRequest;
use crate::file::storage::KeyringFile;
use crate::file::storage::Written;
use crate::file::traits::UnlockedKeyring;
use crate::io_error::IoError;
use crate::secret::Key;
use crate::secret::Secret;
use crate::text::capitalized;
use crate::text::uppercased;

verus! {

/// A password-based keyring has these contents, and nothing of it is lost or made up.
pub open spec fn is_password_keyring<P>(
    keyring: PasswordLockedKeyring<P>,
    contents: Keyring,
    path: std::path::PathBuf,
    mtime: Option<std::time::SystemTime>,
    label: &str,
    secret_provider: P,
) -> bool {
    &&& keyring.inner == contents && keyring.path == Some(path) && keyring.mtime == mtime
    &&& keyring.label@ == label@ && keyring.secret_provider == secret_provider
}

/// A GPG-based keyring has these contents, and nothing of it is lost or made up.
pub open spec fn is_gpg_keyring<N>(
    keyring: GpgLockedKeyring<N>,
    contents: Keyring,
    path: std::path::PathBuf,
    mtime: Option<std::time::SystemTime>,
    label: &str,
    notifier: Option<N>,
) -> bool {
    &&& keyring.inner == contents && keyring.path == Some(path) && keyring.mtime == mtime
    &&& keyring.label@ == label@ && keyring.notifier == notifier
}

/// A password-based keyring that is loaded holds what its file holds, and where there is no file
/// what a new one holds. Contents of the GPG kind are refused, and whatever else stands in the
/// way of the file is told.
pub proof fn a_password_keyring_holds_what_its_file_holds<P>(
    path: std::path::PathBuf,
    label: &str,
    secret_provider: P,
    mtime: Option<std::time::SystemTime>,
    contents: Keyring,
    failure: IoError,
    malformed: Error,
    fresh: Keyring,
    outcome: Result<PasswordLockedKeyring<P>, Error>,
)
    ensures
        call_ensures(
            PasswordLockedKeyring::<P>::load,
            (
                path,
                label,
                secret_provider,
                KeyringFile::Loaded { mtime, keyring: contents },
                fresh,
            ),
            outcome,
        ) ==> if contents.gpg_config is None {
            outcome matches Ok(keyring) && is_password_keyring(
                keyring,
                contents,
                path,
                mtime,
                label,
                secret_provider,
            )
        } else {
            outcome matches Err(e) && e is NotGpgEncrypted
        },
        call_ensures(
            PasswordLockedKeyring::<P>::load,
            (path, label, secret_provider, KeyringFile::OpenFailed(failure), fresh),
            outcome,
        ) ==> if !(failure.kind is NotFound) {
            outcome == Err::<PasswordLockedKeyring<P>, Error>(Error::Io(failure))
        } else if fresh.gpg_config is None {
            outcome matches Ok(keyring) && is_password_keyring(
                keyring,
                fresh,
                path,
                None,
                label,
                secret_provider,
            )
        } else {
            outcome matches Err(e) && e is NotGpgEncrypted
        },
        call_ensures(
            PasswordLockedKeyring::<P>::load,
            (path, label, secret_provider, KeyringFile::Unreadable(malformed), fresh),
            outcome,
        ) ==> outcome == Err::<PasswordLockedKeyring<P>, Error>(malformed),
{
}

/// A GPG-based keyring that is loaded holds what its file holds. There has to be a file, with
/// contents of the GPG kind; otherwise it is told what stands in the way.
pub proof fn a_gpg_keyring_holds_what_its_file_holds<N>(
    path: std::path::PathBuf,
    label: &str,
    notifier: Option<N>,
    mtime: Option<std::time::SystemTime>,
    contents: Keyring,
    failure: IoError,
    malformed: Error,
    outcome: Result<GpgLockedKeyring<N>, Error>,
)
    ensures
        call_ensures(
            GpgLockedKeyring::<N>::load,
            (path, label, notifier, KeyringFile::Loaded { mtime, keyring: contents }),
            outcome,
        ) ==> if contents.gpg_config is Some {
            outcome matches Ok(keyring) && is_gpg_keyring(
                keyring,
                contents,
                path,
                mtime,
                label,
                notifier,
            )
        } else {
            outcome matches Err(e) && e is NotGpgEncrypted
        },
        call_ensures(
            GpgLockedKeyring::<N>::load,
            (path, label, notifier, KeyringFile::OpenFailed(failure)),
            outcome,
        ) ==> outcome == Err::<GpgLockedKeyring<N>, Error>(Error::Io(failure)),
        call_ensures(
            GpgLockedKeyring::<N>::load,
            (path, label, notifier, KeyringFile::Unreadable(malformed)),
            outcome,
        ) ==> outcome == Err::<GpgLockedKeyring<N>, Error>(malformed),
{
}

/// The loader makes a keyring of the kind that the file shows, with what the file holds. Where
/// there is no file, a new keyring is based on a password.
pub proof fn the_loader_goes_by_what_the_file_holds<P, N>(
    path: std::path::PathBuf,
    label: &str,
    secret_provider: P,
    notifier: Option<N>,
    seen: Option<std::time::SystemTime>,
    probed: Keyring,
    mtime: Option<std::time::SystemTime>,
    contents: Keyring,
    failure: IoError,
    malformed: Error,
    file: KeyringFile,
    fresh: Keyring,
    outcome: Result<AnyLockedKeyring<P, N>, Error>,
)
    ensures
        call_ensures(
            load_keyring::<P, N>,
            (
                path,
                label,
                secret_provider,
                notifier,
                KeyringFile::Loaded { mtime: seen, keyring: probed },
                KeyringFile::Loaded { mtime, keyring: contents },
                fresh,
            ),
            outcome,
        ) && (probed.gpg_config is Some <==> contents.gpg_config is Some) ==> match outcome {
            Ok(AnyLockedKeyring::Gpg(keyring)) => contents.gpg_config is Some && is_gpg_keyring(
                keyring,
                contents,
                path,
                mtime,
                label,
                notifier,
            ),
            Ok(AnyLockedKeyring::Password(keyring)) => contents.gpg_config is None
                && is_password_keyring(keyring, contents, path, mtime, label, secret_provider),
            Err(_) => false,
        },
        call_ensures(
            load_keyring::<P, N>,
            (
                path,
                label,
                secret_provider,
                notifier,
                KeyringFile::Loaded { mtime: seen, keyring: probed },
                KeyringFile::Loaded { mtime, keyring: contents },
                fresh,
            ),
            outcome,
        ) && (probed.gpg_config is Some <==> contents.gpg_config is None) ==> (outcome matches Err(
            e,
        ) && e is NotGpgEncrypted),
        call_ensures(
            load_keyring::<P, N>,
            (
                path,
                label,
                secret_provider,
                notifier,
                KeyringFile::OpenFailed(failure),
                KeyringFile::OpenFailed(failure),
                fresh,
            ),
            outcome,
        ) && failure.kind is NotFound && fresh.gpg_config is None ==> (outcome matches Ok(
            AnyLockedKeyring::Password(keyring),
        ) && is_password_keyring(keyring, fresh, path, None, label, secret_provider)),
        call_ensures(
            load_keyring::<P, N>,
            (
                path,
                label,
                secret_provider,
                notifier,
                KeyringFile::OpenFailed(failure),
                file,
                fresh,
            ),
            outcome,
        ) && !(failure.kind is NotFound) ==> outcome == Err::<AnyLockedKeyring<P, N>, Error>(
            Error::Io(failure),
        ),
        call_ensures(
            load_keyring::<P, N>,
            (
                path,
                label,
                secret_provider,
                notifier,
                KeyringFile::Unreadable(malformed),
                file,
                fresh,
            ),
            outcome,
        ) ==> outcome == Err::<AnyLockedKeyring<P, N>, Error>(malformed),
{
}

/// Asked for the kind of a file, the loader tells what the file shows, or why it shows nothing. A
/// file that is not there shows nothing.
pub proof fn the_kind_of_a_file_is_what_it_holds(
    mtime: Option<std::time::SystemTime>,
    contents: Keyring,
    failure: IoError,
    malformed: Error,
    encrypted: Result<bool, Error>,
)
    ensures
        call_ensures(
            is_gpg_encrypted,
            (KeyringFile::Loaded { mtime, keyring: contents },),
            encrypted,
        ) ==> encrypted == Ok::<bool, Error>(contents.gpg_config is Some),
        call_ensures(is_gpg_encrypted, (KeyringFile::OpenFailed(failure),), encrypted) ==> encrypted
            == Err::<bool, Error>(Error::Io(failure)),
        call_ensures(is_gpg_encrypted, (KeyringFile::Unreadable(malformed),), encrypted)
            ==> encrypted == Err::<bool, Error>(malformed),
{
}

/// A keyring that does not know its kind holds what its file holds, whatever the kind, and where
/// there is no file what a new one holds.
pub proof fn a_plain_keyring_holds_what_its_file_holds(
    path: std::path::PathBuf,
    nowhere: Error,
    mtime: Option<std::time::SystemTime>,
    contents: Keyring,
    failure: IoError,
    malformed: Error,
    file: KeyringFile,
    fresh: Keyring,
    outcome: Result<PlainLockedKeyring, Error>,
)
    ensures
        (call_ensures(
            PlainLockedKeyring::load,
            (path, KeyringFile::Loaded { mtime, keyring: contents }, fresh),
            outcome,
        ) || call_ensures(
            PlainLockedKeyring::open,
            (Ok(path), KeyringFile::Loaded { mtime, keyring: contents }, fresh),
            outcome,
        )) ==> (outcome matches Ok(keyring) && keyring.keyring == contents && keyring.path == Some(
            path,
        ) && keyring.mtime == mtime),
        (call_ensures(
            PlainLockedKeyring::load,
            (path, KeyringFile::OpenFailed(failure), fresh),
            outcome,
        ) || call_ensures(
            PlainLockedKeyring::open,
            (Ok(path), KeyringFile::OpenFailed(failure), fresh),
            outcome,
        )) ==> if failure.kind is NotFound {
            outcome matches Ok(keyring) && keyring.keyring == fresh && keyring.path == Some(path)
                && keyring.mtime is None
        } else {
            outcome == Err::<PlainLockedKeyring, Error>(Error::Io(failure))
        },
        (call_ensures(
            PlainLockedKeyring::load,
            (path, KeyringFile::Unreadable(malformed), fresh),
            outcome,
        ) || call_ensures(
            PlainLockedKeyring::open,
            (Ok(path), KeyringFile::Unreadable(malformed), fresh),
            outcome,
        )) ==> outcome == Err::<PlainLockedKeyring, Error>(malformed),
        call_ensures(PlainLockedKeyring::open, (Err(nowhere), file, fresh), outcome) ==> outcome
            == Err::<PlainLockedKeyring, Error>(nowhere),
{
}

/// A keyring starts with the contents of its file, and with new ones just where there is no file.
pub proof fn a_keyring_starts_with_its_file(
    mtime: Option<std::time::SystemTime>,
    contents: Keyring,
    failure: IoError,
    malformed: Error,
    fresh: Keyring,
    outcome: Result<(Option<std::time::SystemTime>, Keyring), Error>,
)
    ensures
        call_ensures(
            load_or_create,
            (KeyringFile::Loaded { mtime, keyring: contents }, fresh),
            outcome,
        ) ==> (outcome matches Ok((time, keyring)) && time == mtime && keyring == contents),
        call_ensures(load_or_create, (KeyringFile::OpenFailed(failure), fresh), outcome) ==> if
            failure.kind is NotFound {
            outcome matches Ok((time, keyring)) && time is None && keyring == fresh
        } else {
            outcome matches Err(e) && e == Error::Io(failure)
        },
        call_ensures(load_or_create, (KeyringFile::Unreadable(malformed), fresh), outcome) ==> (
        outcome matches Err(e) && e == malformed),
{
}

/// A keyring that is written hands out just its contents, for just its file. The time at which
/// the file was written is remembered, where it is known; nothing else changes but what the dump
/// itself does to the contents.
pub proof fn a_password_keyring_is_written_to_its_file<P>(
    keyring: &mut PasswordUnlockedKeyring<P>,
    request: Option<DumpRequest<'_>>,
    written: Written,
    outcome: Result<(), Error>,
)
    ensures
        call_ensures(PasswordUnlockedKeyring::<P>::write, (keyring,), request) ==> match request {
            Some(dump) => old(keyring).path == Some(*dump.path) && dump.mtime == old(keyring).mtime
                && *dump.contents == old(keyring).inner && *final(keyring) == (
            PasswordUnlockedKeyring { inner: *final(dump.contents), ..*old(keyring) }),
            None => old(keyring).path is None && *final(keyring) == *old(keyring),
        },
        call_ensures(PasswordUnlockedKeyring::<P>::finish_write, (keyring, written), outcome)
            ==> match written {
            Written::Failed(e) => outcome == Err::<(), Error>(e) && *final(keyring) == *old(
                keyring,
            ),
            Written::Done { mtime } => outcome is Ok && *final(keyring) == (
            PasswordUnlockedKeyring {
                mtime: if mtime is Some {
                    mtime
                } else {
                    old(keyring).mtime
                },
                ..*old(keyring)
            }),
        },
{
}

/// A password-based keyring that was written is read back: loaded from what was dumped, and
/// unlocked with its secret, it lists what it listed, in its order.
pub proof fn a_written_keyring_is_read_back<C: KeyringCipher, P>(
    keyring: PasswordUnlockedKeyring<P>,
    cipher: &C,
    key: Key,
    contents: Seq<UnlockedItemView>,
    path: std::path::PathBuf,
    label: &str,
    secret_provider: P,
    mtime: Option<std::time::SystemTime>,
    fresh: Keyring,
    loaded: Result<PasswordLockedKeyring<P>, Error>,
    secret: &Secret,
    unlocked: Result<PasswordUnlockedKeyring<P>, Error>,
    again: &mut PasswordUnlockedKeyring<P>,
    list: Result<Vec<Result<Item, InvalidItemError>>, Error>,
)
    requires
        faithful(cipher),
        honest(cipher),
        keyring.inner.gpg_config is None,
        key_of_secret(cipher, keyring.inner.salt@, keyring.secret@, key),
        hold(cipher, keyring.inner.items@, key, contents),
        call_ensures(
            PasswordLockedKeyring::<P>::load,
            (
                path,
                label,
                secret_provider,
                KeyringFile::Loaded { mtime, keyring: keyring.inner },
                fresh,
            ),
            loaded,
        ),
        secret@ == keyring.secret@,
        loaded matches Ok(k) ==> call_ensures(
            PasswordLockedKeyring::<P>::unlock_with_secret::<C>,
            (k, cipher, secret),
            unlocked,
        ),
        unlocked matches Ok(u) ==> *old(again) == u,
        call_ensures(
            <PasswordUnlockedKeyring<P> as UnlockedKeyring<PasswordLockedKeyring<P>>>::items::<C>,
            (again, cipher),
            list,
        ),
    ensures
        loaded is Ok,
        unlocked matches Ok(u) && u.inner == keyring.inner && u.path == Some(path) && u.secret@
            == secret@ && (u.key matches Some(k) && same_key(key, k)),
        list matches Ok(entries) && shows_all(entries@, contents),
{
    let locked = loaded->Ok_0;
    let like = PasswordUnlockedKeyring {
        path: Some(path),
        mtime,
        label: locked.label,
        secret_provider,
        ..keyring
    };
    assert(like.locked() == locked);
    relocking_shows_the_same_items(like, cipher, key, contents, secret, unlocked);
    a_password_keyring_lists_what_it_holds(again, cipher, key, contents, list);
}

/// A temporary keyring has the given secret and contents, and no file.
pub proof fn a_temporary_keyring_has_no_file<P>(
    secret: Secret,
    secret_provider: P,
    fresh: Keyring,
    outcome: Result<PasswordUnlockedKeyring<P>, Error>,
    quiet: Result<PasswordUnlockedKeyring<NoOpSecretProvider>, Error>,
)
    ensures
        call_ensures(
            PasswordUnlockedKeyring::<P>::temporary_with_provider,
            (secret, secret_provider, fresh),
            outcome,
        ) ==> (outcome matches Ok(k) && k.inner == fresh && k.path is None && k.mtime is None
            && k.key is None && k.secret == secret && k.label@ == "session"@ && k.secret_provider
            == secret_provider),
        call_ensures(
            PasswordUnlockedKeyring::<NoOpSecretProvider>::temporary,
            (secret, fresh),
            quiet,
        ) ==> (quiet matches Ok(k) && k.inner == fresh && k.path is None && k.mtime is None
            && k.key is None && k.secret == secret && k.label@ == "session"@),
{
}

/// A named keyring that is opened has the contents of its file (or new ones), that file, the
/// given secret, and the key that the cipher makes of them. What stands in the way is told. The
/// key of a file has to pass the cipher; a new keyring has nothing to try it on.
pub proof fn a_named_keyring_is_opened_as_it_is<C: KeyringCipher>(
    cipher: &C,
    name: &str,
    secret: Secret,
    path: std::path::PathBuf,
    nowhere: Error,
    mtime: Option<std::time::SystemTime>,
    contents: Keyring,
    failure: IoError,
    malformed: Error,
    file: KeyringFile,
    fresh: Keyring,
    outcome: Result<PasswordUnlockedKeyring<NoOpSecretProvider>, Error>,
)
    ensures
        call_ensures(
            PasswordUnlockedKeyring::<NoOpSecretProvider>::open::<C>,
            (
                cipher,
                name,
                secret,
                Ok(path),
                KeyringFile::Loaded { mtime, keyring: contents },
                fresh,
            ),
            outcome,
        ) ==> if contents.gpg_config is Some {
            outcome matches Err(e) && e is NotGpgEncrypted
        } else {
            match outcome {
                Ok(k) => {
                    &&& k.inner == contents && k.path == Some(path) && k.mtime == mtime
                    &&& k.secret == secret && k.key is Some
                    &&& call_ensures(
                        C::derive_key,
                        (cipher, &contents, &secret),
                        Ok(k.key->0),
                    )
                    &&& call_ensures(
                        C::validate_key,
                        (cipher, &contents, &k.key->0),
                        Ok(()),
                    )
                    &&& label_of(name@, k.label@)
                },
                Err(e) => (e matches Error::Crypto(c) && call_ensures(
                    C::derive_key,
                    (cipher, &contents, &secret),
                    Err(c),
                )) || exists|key: Key| #[trigger]
                    call_ensures(C::validate_key, (cipher, &contents, &key), Err(e))
                        && call_ensures(C::derive_key, (cipher, &contents, &secret), Ok(key)),
            }
        },
        call_ensures(
            PasswordUnlockedKeyring::<NoOpSecretProvider>::open::<C>,
            (cipher, name, secret, Ok(path), KeyringFile::OpenFailed(failure), fresh),
            outcome,
        ) ==> if !(failure.kind is NotFound) {
            outcome == Err::<PasswordUnlockedKeyring<NoOpSecretProvider>, Error>(
                Error::Io(failure),
            )
        } else if fresh.gpg_config is Some {
            outcome matches Err(e) && e is NotGpgEncrypted
        } else {
            match outcome {
                Ok(k) => {
                    &&& k.inner == fresh && k.path == Some(path) && k.mtime is None
                    &&& k.secret == secret && k.key is Some
                    &&& call_ensures(C::derive_key, (cipher, &fresh, &secret), Ok(k.key->0))
                    &&& label_of(name@, k.label@)
                },
                Err(e) => e matches Error::Crypto(c) && call_ensures(
                    C::derive_key,
                    (cipher, &fresh, &secret),
                    Err(c),
                ),
            }
        },
        call_ensures(
            PasswordUnlockedKeyring::<NoOpSecretProvider>::open::<C>,
            (cipher, name, secret, Ok(path), KeyringFile::Unreadable(malformed), fresh),
            outcome,
        ) ==> outcome == Err::<PasswordUnlockedKeyring<NoOpSecretProvider>, Error>(malformed),
        call_ensures(
            PasswordUnlockedKeyring::<NoOpSecretProvider>::open::<C>,
            (cipher, name, secret, Err(nowhere), file, fresh),
            outcome,
        ) ==> outcome == Err::<PasswordUnlockedKeyring<NoOpSecretProvider>, Error>(nowhere),
{
    if outcome is Ok && name@.len() > 0 {
        let label = outcome->Ok_0.label@;
        if label == capitalized(name@) {
            let n = label.len() - name@.len() + 1;
            assert(label.skip(n) =~= name@.skip(1));
            assert(label.take(n) =~= uppercased(name@[0]));
        }
    }
    assert forall|key: Key, valid: Result<(), Error>| #[trigger]
        call_ensures(C::validate_key, (cipher, &contents, &key), valid) && valid is Ok implies valid
        == Ok::<(), Error>(()) by {
        assert(valid->Ok_0 == ());
    }
}

/// The label of a named keyring: all of the name but its first character stays as it is.
pub open spec fn label_of(name: Seq<char>, label: Seq<char>) -> bool {
    if name.len() == 0 {
        label.len() == 0
    } else {
        &&& label.len() + 1 >= name.len()
        &&& label.skip(label.len() - name.len() + 1) == name.skip(1)
        &&& label.take(label.len() - name.len() + 1) == uppercased(name[0])
    }
}

} // verus!

//! What it takes to unlock a keyring, and what comes of it.
use vstd::prelude::*;

use crate::crypto::gpg::SessionKey;
use crate::file::api::validates;
use crate::file::api::Keyring;
use crate::file::api::KeyringCipher;
use crate::file::error::Error;
use crate::file::gpg_keyring::checked_master_key;
use crate::file::gpg_keyring::encrypted_master_key;
use crate::file::gpg_keyring::master_key_answer;
use crate::file::gpg_keyring::unlocks_with_gpg;
use crate::file::gpg_keyring::GpgLockedKeyring;
use crate::file::gpg_keyring::GpgUnlockedKeyring;
use crate::file::locked_keyring::LockedKeyring as PlainLockedKeyring;
use crate::file::locked_keyring::UnlockedKeyring as PlainUnlockedKeyring;
use crate::file::password_keyring::answered;
use crate::file::password_keyring::asked_again;
use crate::file::password_keyring::checked_key;
use crate::file::password_keyring::unlock_answer;
use crate::file::password_keyring::NoOpSecretProvider;
use crate::file::password_keyring::PasswordLockedKeyring;
use crate::file::password_keyring::PasswordUnlockedKeyring;
use crate::file::password_keyring::UnlockStep;
use crate::file::traits::BeginUnlockResult;
use crate::file::traits::SecretProvider;
use crate::file::traits::UnlockNotifier;
use crate::secret::Key;
use crate::secret::KeyStrength;
use crate::secret::Secret;

verus! {

/// The key came from the secret, and the cipher found that it fits the contents.
pub open spec fn fits<C: KeyringCipher>(
    cipher: &C,
    contents: Keyring,
    secret: Secret,
    key: Key,
) -> bool {
    &&& call_ensures(C::derive_key, (cipher, &contents, &secret), Ok(key))
    &&& exists|valid: Result<(), Error>| #[trigger]
        call_ensures(C::validate_key, (cipher, &contents, &key), valid) && valid is Ok
}

/// No key could be made of the secret, or the cipher found that it does not fit the contents, and
/// this was the error.
pub open spec fn misfits<C: KeyringCipher>(
    cipher: &C,
    contents: Keyring,
    secret: Secret,
    e: Error,
) -> bool {
    ||| e matches Error::Crypto(c) && call_ensures(
        C::derive_key,
        (cipher, &contents, &secret),
        Err(c),
    )
    ||| exists|key: Key| #[trigger]
        call_ensures(C::validate_key, (cipher, &contents, &key), Err(e)) && call_ensures(
            C::derive_key,
            (cipher, &contents, &secret),
            Ok(key),
        )
}

proof fn lemma_checked<C: KeyringCipher>(
    cipher: &C,
    contents: Keyring,
    secret: Secret,
    answer: Result<Key, Error>,
)
    requires
        unlock_answer(cipher, &contents, &secret, answer),
    ensures
        match answer {
            Ok(key) => fits(cipher, contents, secret, key),
            Err(e) => misfits(cipher, contents, secret, e),
        },
{
}

/// A secret gives a key just where the cipher derives one that fits, and otherwise the error of
/// the cipher.
pub proof fn a_checked_key_fits<C: KeyringCipher>(
    cipher: &C,
    contents: Keyring,
    secret: Secret,
    answer: Result<Key, Error>,
)
    requires
        call_ensures(checked_key::<C>, (cipher, &contents, &secret), answer),
    ensures
        match answer {
            Ok(key) => fits(cipher, contents, secret, key),
            Err(e) => misfits(cipher, contents, secret, e),
        },
{
    lemma_checked(cipher, contents, secret, answer);
}

/// The unlocked keyring is the locked one, with this key and a secret of these bytes.
pub open spec fn is_unlocked_password_keyring<P>(
    locked: PasswordLockedKeyring<P>,
    unlocked: PasswordUnlockedKeyring<P>,
    secret: Seq<u8>,
) -> bool {
    &&& unlocked.inner == locked.inner && unlocked.path == locked.path && unlocked.mtime
        == locked.mtime
    &&& unlocked.label == locked.label && unlocked.secret_provider == locked.secret_provider
    &&& unlocked.secret@ == secret && unlocked.key is Some
}

/// A password-based keyring is unlocked with a secret just where its key fits. It keeps the
/// secret and the key, and is otherwise as it was.
pub proof fn a_password_keyring_is_unlocked_with_its_secret<C: KeyringCipher, P>(
    locked: PasswordLockedKeyring<P>,
    cipher: &C,
    secret: Secret,
    outcome: Result<PasswordUnlockedKeyring<P>, Error>,
)
    requires
        call_ensures(
            PasswordLockedKeyring::<P>::unlock_with_secret::<C>,
            (locked, cipher, &secret),
            outcome,
        ),
    ensures
        match outcome {
            Ok(unlocked) => is_unlocked_password_keyring(locked, unlocked, secret@) && fits(
                cipher,
                locked.inner,
                secret,
                unlocked.key->0,
            ),
            Err(e) => misfits(cipher, locked.inner, secret, e),
        },
{
    let checked = choose|checked: Result<Key, Error>| #[trigger]
        unlock_answer(cipher, &locked.inner, &secret, checked) && match checked {
            Ok(key) => outcome matches Ok(unlocked) && unlocked.key == Some(key),
            Err(e) => outcome == Err::<PasswordUnlockedKeyring<P>, Error>(e),
        };
    lemma_checked(cipher, locked.inner, secret, checked);
}

/// What comes of an answer of the user: without a secret the unlocking ends with the reason. A
/// secret whose key fits unlocks the keyring. A wrong secret leaves the keyring as it was, for
/// another attempt, and any other error ends the unlocking.
pub open spec fn tried<C: KeyringCipher, P>(
    locked: PasswordLockedKeyring<P>,
    cipher: &C,
    answer: Result<Secret, Error>,
    step: UnlockStep<P>,
) -> bool {
    match (answer, step) {
        (Err(e), UnlockStep::Failed(told)) => told == e,
        (Ok(secret), UnlockStep::Unlocked(unlocked)) => {
            &&& is_unlocked_password_keyring(locked, unlocked, secret@)
            &&& unlocked.secret == secret
            &&& fits(cipher, locked.inner, secret, unlocked.key->0)
        },
        (Ok(secret), UnlockStep::Rejected(back)) => {
            &&& back == locked
            &&& misfits(cipher, locked.inner, secret, Error::IncorrectSecret)
        },
        (Ok(secret), UnlockStep::Failed(e)) => {
            &&& !(e is IncorrectSecret)
            &&& misfits(cipher, locked.inner, secret, e)
        },
        _ => false,
    }
}

proof fn lemma_tried<C: KeyringCipher, P>(
    locked: PasswordLockedKeyring<P>,
    cipher: &C,
    answer: Result<Secret, Error>,
    step: UnlockStep<P>,
)
    requires
        answered(locked, cipher, answer, step),
    ensures
        tried(locked, cipher, answer, step),
{
    if let Ok(secret) = answer {
        let checked = choose|checked: Result<Key, Error>| #[trigger]
            unlock_answer(cipher, &locked.inner, &secret, checked) && match checked {
                Ok(key) => step == UnlockStep::Unlocked(locked.unlocked(key, secret)),
                Err(Error::IncorrectSecret) => step == UnlockStep::Rejected(locked),
                Err(e) => step == UnlockStep::<P>::Failed(e),
            };
        lemma_checked(cipher, locked.inner, secret, checked);
    }
}

/// An answer is tried for what it is worth: see `tried`.
pub proof fn an_answer_is_tried<C: KeyringCipher, P>(
    locked: PasswordLockedKeyring<P>,
    cipher: &C,
    answer: Result<Secret, Error>,
    step: UnlockStep<P>,
)
    requires
        call_ensures(
            PasswordLockedKeyring::<P>::try_answer::<C>,
            (locked, cipher, answer),
            step,
        ),
    ensures
        tried(locked, cipher, answer, step),
{
    lemma_tried(locked, cipher, answer, step);
}

/// The user is asked through the provider of the keyring: by the prompt, from the start, or again
/// after a rejection, each time with the label of the keyring. The answer is tried.
pub proof fn the_user_is_asked_through_the_provider<C: KeyringCipher, P: SecretProvider>(
    locked: PasswordLockedKeyring<P>,
    cipher: &C,
    prompt: &str,
    step: UnlockStep<P>,
)
    ensures
        call_ensures(
            PasswordLockedKeyring::<P>::complete_prompt::<C>,
            (locked, cipher, prompt),
            step,
        ) ==> exists|answer: Result<Secret, Error>| #[trigger]
            call_ensures(P::await_prompt, (&locked.secret_provider, prompt), answer) && tried(
                locked,
                cipher,
                answer,
                step,
            ),
        call_ensures(PasswordLockedKeyring::<P>::unlock::<C>, (locked, cipher), step) ==> exists|
            label: &str,
            answer: Result<Secret, Error>,
        |
            label@ == locked.label@ && #[trigger] call_ensures(
                P::get_secret,
                (&locked.secret_provider, label),
                answer,
            ) && tried(locked, cipher, answer, step),
        call_ensures(PasswordLockedKeyring::<P>::unlock_again::<C>, (locked, cipher), step)
            ==> exists|label: &str, answer: Result<Secret, Error>|
            label@ == locked.label@ && #[trigger] call_ensures(
                P::secret_rejected,
                (&locked.secret_provider, label, &Error::IncorrectSecret),
                answer,
            ) && tried(locked, cipher, answer, step),
{
    assert forall|answer: Result<Secret, Error>| #[trigger]
        answered(locked, cipher, answer, step) implies tried(
        locked,
        cipher,
        answer,
        step,
    ) by {
        lemma_tried(locked, cipher, answer, step);
    }
    if call_ensures(PasswordLockedKeyring::<P>::unlock::<C>, (locked, cipher), step) {
        let (label, answer) = choose|label: &str, answer: Result<Secret, Error>|
            label@ == locked.label@ && #[trigger] call_ensures(
                P::get_secret,
                (&locked.secret_provider, label),
                answer,
            ) && answered(locked, cipher, answer, step);
        assert(tried(locked, cipher, answer, step));
    }
    if call_ensures(PasswordLockedKeyring::<P>::unlock_again::<C>, (locked, cipher), step) {
        let answer = choose|answer: Result<Secret, Error>| #[trigger]
            asked_again(locked, answer)
                && answered(locked, cipher, answer, step);
        assert(tried(locked, cipher, answer, step));
        let label = choose|label: &str|
            label@ == locked.label@ && #[trigger] call_ensures(
                P::secret_rejected,
                (&locked.secret_provider, label, &Error::IncorrectSecret),
                answer,
            );
        assert(label@ == locked.label@);
    }
}

/// To begin with, the provider creates a prompt that shows the label of the keyring, and the
/// client gets the path of that prompt, or the error.
pub proof fn a_prompt_is_created_for_the_label<P: SecretProvider>(
    locked: PasswordLockedKeyring<P>,
    begun: Result<BeginUnlockResult<PasswordUnlockedKeyring<P>>, Error>,
)
    requires
        call_ensures(PasswordLockedKeyring::<P>::begin_unlock, (&locked,), begun),
    ensures
        exists|label: &str, prompt: Result<String, Error>|
            label@ == locked.label@ && #[trigger] call_ensures(
                P::create_prompt,
                (&locked.secret_provider, label),
                prompt,
            ) && match (prompt, begun) {
                (Ok(path), Ok(BeginUnlockResult::NeedsInput { prompt_path })) => prompt_path
                    == path,
                (Err(e), Err(told)) => told == e,
                _ => false,
            },
{
}

/// Whatever a temporary keyring is asked for, its provider has no secret to give.
pub proof fn a_temporary_keyring_has_no_prompts(
    provider: &NoOpSecretProvider,
    text: &str,
    error: &Error,
    path: Result<String, Error>,
    secret: Result<Secret, Error>,
)
    ensures
        call_ensures(
            <NoOpSecretProvider as SecretProvider>::create_prompt,
            (provider, text),
            path,
        ) ==> (path matches Err(Error::Io(e)) && e.kind is Unsupported && e.message@
            == "Temporary keyrings do not support prompts"@),
        call_ensures(<NoOpSecretProvider as SecretProvider>::await_prompt, (provider, text), secret)
            ==> (secret matches Err(Error::Io(e)) && e.kind is Unsupported && e.message@
            == "Temporary keyrings do not support prompts"@),
        call_ensures(
            <NoOpSecretProvider as SecretProvider>::secret_rejected,
            (provider, text, error),
            secret,
        ) ==> (secret matches Err(Error::Io(e)) && e.kind is Unsupported && e.message@
            == "Temporary keyrings do not support prompts"@),
{
}

/// A provider that knows no shorter way gets a secret by creating a prompt for the label first, and
/// has none where that fails. So does the provider of a temporary keyring.
pub proof fn a_secret_is_asked_for_with_a_prompt(
    provider: &NoOpSecretProvider,
    label: &str,
    secret: Result<Secret, Error>,
)
    requires
        call_ensures(
            <NoOpSecretProvider as SecretProvider>::get_secret,
            (provider, label),
            secret,
        ),
    ensures
        exists|path: Result<String, Error>| #[trigger]
            call_ensures(
                <NoOpSecretProvider as SecretProvider>::create_prompt,
                (provider, label),
                path,
            ) && (path matches Err(e) && secret == Err::<Secret, Error>(e)),
{
    let path = choose|path: Result<String, Error>| #[trigger]
        call_ensures(
            <NoOpSecretProvider as SecretProvider>::create_prompt,
            (provider, label),
            path,
        ) && (path matches Err(e) ==> secret == Err::<Secret, Error>(e));
    assert(path is Err);
}

/// The key is made of the bytes that GPG decrypted, with no word on its strength.
pub open spec fn is_master_key(bytes: SessionKey, key: Key) -> bool {
    key.bytes@ == bytes@ && key.strength is Unstated
}

/// A key was made of the bytes, and the cipher found that it fits the contents.
pub open spec fn master_key_fits<C: KeyringCipher>(
    cipher: &C,
    contents: Keyring,
    bytes: SessionKey,
    key: Key,
) -> bool {
    &&& is_master_key(bytes, key)
    &&& exists|valid: Result<(), Error>| #[trigger]
        call_ensures(C::validate_key, (cipher, &contents, &key), valid) && valid is Ok
}

/// A key was made of the bytes, and the cipher found that it does not fit the contents.
pub open spec fn master_key_misfits<C: KeyringCipher>(
    cipher: &C,
    contents: Keyring,
    bytes: SessionKey,
    e: Error,
) -> bool {
    exists|key: Key| #[trigger]
        call_ensures(C::validate_key, (cipher, &contents, &key), Err(e)) && is_master_key(
            bytes,
            key,
        )
}

/// What a master key is worth: contents that are not of the GPG kind have none, GPG may have
/// failed, and the key has to fit.
pub open spec fn is_worth<C: KeyringCipher>(
    cipher: &C,
    contents: Keyring,
    master_key: Result<SessionKey, Error>,
    answer: Result<Key, Error>,
) -> bool {
    match (contents.gpg_config, master_key, answer) {
        (None, _, Err(e)) => e is NotGpgEncrypted,
        (Some(_), Err(failed), Err(e)) => e == failed,
        (Some(_), Ok(bytes), Ok(key)) => master_key_fits(cipher, contents, bytes, key),
        (Some(_), Ok(bytes), Err(e)) => master_key_misfits(cipher, contents, bytes, e),
        _ => false,
    }
}

proof fn lemma_master_key<C: KeyringCipher>(
    cipher: &C,
    contents: Keyring,
    master_key: Result<SessionKey, Error>,
    answer: Result<Key, Error>,
)
    requires
        master_key_answer(cipher, &contents, master_key, answer),
    ensures
        is_worth(cipher, contents, master_key, answer),
{
    if contents.gpg_config is Some && master_key is Ok {
        let (key, valid) = choose|key: Key, valid: Result<(), Error>| #[trigger]
            validates(cipher, &contents, &key, valid) && key@.bytes == master_key->Ok_0@
                && key@.strength == KeyStrength::Unstated && answer == (match valid {
                Ok(_) => Ok::<Key, Error>(key),
                Err(e) => Err(e),
            });
        assert(call_ensures(C::validate_key, (cipher, &contents, &key), valid));
    }
}

/// A master key is checked for what it is worth.
pub proof fn a_master_key_is_checked<C: KeyringCipher>(
    cipher: &C,
    contents: Keyring,
    master_key: Result<SessionKey, Error>,
    answer: Result<Key, Error>,
)
    requires
        call_ensures(checked_master_key::<C>, (cipher, &contents, master_key), answer),
    ensures
        is_worth(cipher, contents, master_key, answer),
{
    lemma_master_key(cipher, contents, master_key, answer);
}

/// The unlocked keyring is the locked one, with a key, and names the GPG key of its contents.
pub open spec fn is_unlocked_gpg_keyring<N>(
    locked: GpgLockedKeyring<N>,
    unlocked: GpgUnlockedKeyring<N>,
) -> bool {
    &&& unlocked.inner == locked.inner && unlocked.path == locked.path && unlocked.mtime
        == locked.mtime
    &&& unlocked.label == locked.label && unlocked.notifier == locked.notifier
    &&& unlocked.key is Some
    &&& locked.inner.gpg_config matches Some(config) && unlocked.gpg_key_id@ == config.gpg_key_id@
}

/// What comes of the master key of a GPG-based keyring.
pub open spec fn unlocked_by_gpg<C: KeyringCipher, N>(
    locked: GpgLockedKeyring<N>,
    cipher: &C,
    master_key: Result<SessionKey, Error>,
    outcome: Result<GpgUnlockedKeyring<N>, Error>,
) -> bool {
    match outcome {
        Ok(unlocked) => is_unlocked_gpg_keyring(locked, unlocked) && is_worth(
            cipher,
            locked.inner,
            master_key,
            Ok(unlocked.key->0),
        ),
        Err(e) => is_worth(cipher, locked.inner, master_key, Err(e)),
    }
}

proof fn lemma_unlocked_by_gpg<C: KeyringCipher, N>(
    locked: GpgLockedKeyring<N>,
    cipher: &C,
    master_key: Result<SessionKey, Error>,
    outcome: Result<GpgUnlockedKeyring<N>, Error>,
)
    requires
        unlocks_with_gpg(locked, cipher, master_key, outcome),
    ensures
        unlocked_by_gpg(locked, cipher, master_key, outcome),
{
    let checked = choose|checked: Result<Key, Error>| #[trigger]
        master_key_answer(cipher, &locked.inner, master_key, checked) && outcome == (
        match checked {
            Ok(key) => Ok::<GpgUnlockedKeyring<N>, Error>(locked.unlocked(key)),
            Err(e) => Err(e),
        });
    lemma_master_key(cipher, locked.inner, master_key, checked);
}

/// A GPG-based keyring is unlocked with its master key, with a secret or without one, and
/// immediately.
pub proof fn a_gpg_keyring_is_unlocked_with_its_master_key<C: KeyringCipher, N>(
    locked: GpgLockedKeyring<N>,
    cipher: &C,
    secret: &Secret,
    master_key: Result<SessionKey, Error>,
    outcome: Result<GpgUnlockedKeyring<N>, Error>,
    begun: Result<BeginUnlockResult<GpgUnlockedKeyring<N>>, Error>,
)
    ensures
        call_ensures(GpgLockedKeyring::<N>::unlock::<C>, (locked, cipher, master_key), outcome)
            ==> unlocked_by_gpg(locked, cipher, master_key, outcome),
        call_ensures(
            GpgLockedKeyring::<N>::unlock_with_secret::<C>,
            (locked, cipher, secret, master_key),
            outcome,
        ) ==> unlocked_by_gpg(locked, cipher, master_key, outcome),
        call_ensures(GpgLockedKeyring::<N>::begin_unlock::<C>, (locked, cipher, master_key), begun)
            ==> match begun {
            Ok(BeginUnlockResult::Unlocked(unlocked)) => unlocked_by_gpg(
                locked,
                cipher,
                master_key,
                Ok(unlocked),
            ),
            Ok(_) => false,
            Err(e) => unlocked_by_gpg(locked, cipher, master_key, Err(e)),
        },
{
    assert forall|o: Result<GpgUnlockedKeyring<N>, Error>| #[trigger]
        unlocks_with_gpg(
            locked,
            cipher,
            master_key,
            o,
        ) implies unlocked_by_gpg(locked, cipher, master_key, o) by {
        lemma_unlocked_by_gpg(locked, cipher, master_key, o);
    }
}

/// What GPG has to decrypt is the encrypted master key of the contents. Contents that are not of
/// the GPG kind have none.
pub open spec fn is_encrypted_master_key(contents: Keyring, bytes: Result<Vec<u8>, Error>) -> bool {
    match (contents.gpg_config, bytes) {
        (Some(config), Ok(b)) => b@ == config.encrypted_master_key@,
        (None, Err(e)) => e is NotGpgEncrypted,
        _ => false,
    }
}

/// GPG is asked to decrypt the encrypted master key of the keyring, and the notifier is told
/// before, with the label of the keyring.
pub proof fn gpg_is_asked_for_the_master_key<N: UnlockNotifier>(
    locked: GpgLockedKeyring<N>,
    plain: PlainLockedKeyring,
    bytes: Result<Vec<u8>, Error>,
)
    ensures
        call_ensures(GpgLockedKeyring::<N>::unlock_request, (&locked,), bytes)
            ==> is_encrypted_master_key(locked.inner, bytes) && (locked.notifier matches Some(n)
            ==> exists|label: &str, method: &str|
            label@ == locked.label@ && method@ == "GPG/Yubikey"@ && #[trigger] call_ensures(
                N::unlock_starting,
                (&n, label, method),
                (),
            )),
        call_ensures(PlainLockedKeyring::unlock_request, (&plain,), bytes)
            ==> is_encrypted_master_key(plain.keyring, bytes),
        call_ensures(encrypted_master_key, (&plain.keyring,), bytes) ==> is_encrypted_master_key(
            plain.keyring,
            bytes,
        ),
{
}

/// The unlocked keyring is the locked one.
pub open spec fn is_unlocked_plain_keyring(
    locked: PlainLockedKeyring,
    unlocked: PlainUnlockedKeyring,
) -> bool {
    unlocked.keyring == locked.keyring && unlocked.path == locked.path && unlocked.mtime
        == locked.mtime
}

/// A keyring that does not know its kind is unlocked with a secret whose key fits, or with a
/// master key that fits. Unchecked, any secret and any master key will do; the secret then has no
/// key yet. With GPG there is no secret.
pub proof fn a_plain_keyring_is_unlocked_either_way<C: KeyringCipher>(
    locked: PlainLockedKeyring,
    cipher: &C,
    secret: Secret,
    master_key: Result<SessionKey, Error>,
    outcome: Result<PlainUnlockedKeyring, Error>,
)
    ensures
        call_ensures(PlainLockedKeyring::unlock::<C>, (locked, cipher, secret), outcome)
            ==> match outcome {
            Ok(u) => is_unlocked_plain_keyring(locked, u) && u.secret == secret && u.key is Some
                && fits(cipher, locked.keyring, secret, u.key->0),
            Err(e) => misfits(cipher, locked.keyring, secret, e),
        },
        call_ensures(PlainLockedKeyring::unlock_unchecked, (locked, secret), outcome) ==> (
        outcome matches Ok(u) && is_unlocked_plain_keyring(locked, u) && u.secret == secret
            && u.key is None),
        call_ensures(
            PlainLockedKeyring::unlock_with_gpg::<C>,
            (locked, cipher, master_key),
            outcome,
        ) ==> match outcome {
            Ok(u) => is_unlocked_plain_keyring(locked, u) && u.secret@.len() == 0 && u.key is Some
                && is_worth(cipher, locked.keyring, master_key, Ok(u.key->0)),
            Err(e) => is_worth(cipher, locked.keyring, master_key, Err(e)),
        },
        call_ensures(
            PlainLockedKeyring::unlock_with_gpg_unchecked,
            (locked, master_key),
            outcome,
        ) ==> match (locked.keyring.gpg_config, master_key, outcome) {
            (None, _, Err(e)) => e is NotGpgEncrypted,
            (Some(_), Err(failed), Err(e)) => e == failed,
            (Some(_), Ok(bytes), Ok(u)) => is_unlocked_plain_keyring(locked, u) && u.secret@.len()
                == 0 && (u.key matches Some(key) && is_master_key(bytes, key)),
            _ => false,
        },
{
    assert forall|answer: Result<Key, Error>| #[trigger]
        unlock_answer(cipher, &locked.keyring, &secret, answer) implies match answer {
        Ok(key) => fits(cipher, locked.keyring, secret, key),
        Err(e) => misfits(cipher, locked.keyring, secret, e),
    } by {
        lemma_checked(cipher, locked.keyring, secret, answer);
    }
    assert forall|answer: Result<Key, Error>| #[trigger]
        master_key_answer(cipher, &locked.keyring, master_key, answer) implies is_worth(
        cipher,
        locked.keyring,
        master_key,
        answer,
    ) by {
        lemma_master_key(cipher, locked.keyring, master_key, answer);
    }
}

} // verus!

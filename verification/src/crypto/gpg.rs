//! GPG-based encryption of session keys: the keys themselves, and what is decided
//! about the GPG keys that encrypt them.
//!
//! The private key operations are handled by gpg-agent, which can communicate with
//! Yubikey hardware tokens.
use vstd::prelude::*;

use crate::crypto::error::Error;
use crate::crypto::error::GpgError;
use crate::crypto::error::NO_PUBKEY;

verus! {

/// Bytes that are overwritten with zeros when they are dropped.
#[verifier::external_body]
pub struct SessionKey {
    bytes: zeroize::Zeroizing<Vec<u8>>,
}

/// The bytes inside.
pub uninterp spec fn session_key_bytes(key: SessionKey) -> Seq<u8>;

impl View for SessionKey {
    type V = Seq<u8>;

    open spec fn view(&self) -> Seq<u8> {
        session_key_bytes(*self)
    }
}

/// `zeroize::Zeroizing::new` keeps the bytes as they are.
#[verifier::external_body]
fn zeroizing(bytes: Vec<u8>) -> (key: SessionKey)
    ensures
        session_key_bytes(key) == bytes@,
{
    SessionKey { bytes: zeroize::Zeroizing::new(bytes) }
}

/// `zeroize::Zeroizing` dereferences to the bytes that it holds.
#[verifier::external_body]
fn exposed(key: &SessionKey) -> (bytes: Vec<u8>)
    ensures
        bytes@ == session_key_bytes(*key),
{
    key.bytes.to_vec()
}

/// `rand::RngCore::fill_bytes` on the generator that `rand::rng` returns puts random
/// bytes in place of those that are there, and so keeps their number. Which bytes
/// come is chance. The call panics where the operating system has no randomness to
/// give.
#[verifier::external_body]
fn fill_random(key: &mut SessionKey)
    ensures
        session_key_bytes(*final(key)).len() == session_key_bytes(*old(key)).len(),
{
    rand::RngCore::fill_bytes(&mut rand::rng(), &mut key.bytes)
}

impl SessionKey {
    /// Takes the bytes into custody.
    pub fn new(bytes: Vec<u8>) -> (key: SessionKey)
        ensures
            key@ == bytes@,
    {
        zeroizing(bytes)
    }

    /// A copy of the bytes.
    pub fn to_vec(&self) -> (bytes: Vec<u8>)
        ensures
            bytes@ == self@,
    {
        exposed(self)
    }
}

/// Generates a random session key suitable for use as a master encryption key.
/// It is `size` bytes long (16 for AES-128).
pub fn generate_session_key(size: usize) -> (key: Result<SessionKey, Error>)
    ensures
        key matches Ok(k) && k@.len() == size,
{
    let mut key = zeroizing(vec![0u8; size]);
    fill_random(&mut key);
    Ok(key)
}

/// What GPG says of one secret key: its fingerprint, its user IDs with the primary
/// one first (each may be unreadable), and of each subkey whether it lies on a
/// smartcard.
pub struct SecretKeyEntry {
    pub fingerprint: Option<String>,
    pub user_ids: Vec<Option<String>>,
    pub subkeys_on_card: Vec<bool>,
}

impl SecretKeyEntry {
    /// The fingerprint, or a stand-in.
    pub open spec fn shown_fingerprint(self) -> Seq<char> {
        match self.fingerprint {
            Some(text) => text@,
            None => "<no fingerprint>"@,
        }
    }

    /// The primary user ID, or a stand-in.
    pub open spec fn shown_user_id(self) -> Seq<char> {
        if self.user_ids@.len() > 0 && self.user_ids@[0] is Some {
            self.user_ids@[0]->0@
        } else {
            "<no user ID>"@
        }
    }

    /// A key is on a smartcard if any of its subkeys is.
    pub open spec fn on_card(self) -> bool {
        exists|i: int|
            0 <= i < self.subkeys_on_card@.len() && #[trigger] self.subkeys_on_card@[i]
    }

    /// The row that lists this key.
    pub open spec fn is_row(self, row: (String, String, bool)) -> bool {
        &&& row.0@ == self.shown_fingerprint()
        &&& row.1@ == self.shown_user_id()
        &&& row.2 == self.on_card()
    }

    fn row(&self) -> (row: (String, String, bool))
        ensures
            self.is_row(row),
    {
        let fingerprint = match &self.fingerprint {
            Some(text) => text.clone(),
            None => "<no fingerprint>".to_owned(),
        };
        let user_id = if self.user_ids.len() > 0 {
            match &self.user_ids[0] {
                Some(text) => text.clone(),
                None => "<no user ID>".to_owned(),
            }
        } else {
            "<no user ID>".to_owned()
        };
        let mut on_card = false;
        let mut i: usize = 0;
        while i < self.subkeys_on_card.len()
            invariant
                i <= self.subkeys_on_card@.len(),
                on_card == (exists|j: int|
                    0 <= j < i && #[trigger] self.subkeys_on_card@[j]),
            decreases self.subkeys_on_card@.len() - i,
        {
            if self.subkeys_on_card[i] {
                on_card = true;
            }
            i = i + 1;
        }
        (fingerprint, user_id, on_card)
    }
}

/// The entries that GPG could read, in their order.
pub open spec fn readable(found: Seq<Result<SecretKeyEntry, GpgError>>) -> Seq<SecretKeyEntry>
    decreases found.len(),
{
    if found.len() == 0 {
        Seq::empty()
    } else {
        let before = readable(found.drop_last());
        match found.last() {
            Ok(entry) => before.push(entry),
            Err(_) => before,
        }
    }
}

/// Lists the GPG keys that were found: for each its fingerprint, its user ID and
/// whether it is on a smartcard. Keys that could not be read are left out.
pub fn list_gpg_keys(
    found: Result<Vec<Result<SecretKeyEntry, GpgError>>, GpgError>,
) -> (rows: Result<Vec<(String, String, bool)>, Error>)
    ensures
        match found {
            Err(e) => rows == Err::<Vec<(String, String, bool)>, Error>(Error::Gpg(e)),
            Ok(entries) => {
                &&& rows matches Ok(list)
                &&& list@.len() == readable(entries@).len()
                &&& forall|i: int|
                    0 <= i < list@.len() ==> readable(entries@)[i].is_row(#[trigger] list@[i])
            },
        },
{
    match found {
        Err(e) => Err(Error::Gpg(e)),
        Ok(entries) => {
            let mut list: Vec<(String, String, bool)> = Vec::new();
            let mut i: usize = 0;
            while i < entries.len()
                invariant
                    i <= entries@.len(),
                    list@.len() == readable(entries@.take(i as int)).len(),
                    forall|j: int|
                        0 <= j < list@.len() ==> readable(entries@.take(i as int))[j].is_row(
                            #[trigger] list@[j],
                        ),
                decreases entries@.len() - i,
            {
                assert(entries@.take(i + 1).drop_last() =~= entries@.take(i as int));
                assert(entries@.take(i + 1).last() == entries@[i as int]);
                match &entries[i] {
                    Ok(entry) => {
                        list.push(entry.row());
                    },
                    Err(_) => {},
                }
                i = i + 1;
            }
            assert(entries@.take(entries@.len() as int) =~= entries@);
            Ok(list)
        },
    }
}

/// What GPG says of a public key.
#[derive(Clone, Copy, Debug, PartialEq, Eq, Structural)]
pub struct PublicKeyStatus {
    pub expired: bool,
    pub revoked: bool,
    pub invalid: bool,
    pub can_encrypt: bool,
}

/// Validates that a GPG key exists and is usable for encryption, given what the
/// lookup of the key returned.
///
/// `Ok(true)` if the key is valid and usable, `Ok(false)` if it exists but is expired,
/// revoked, invalid or not for encryption, `Err` if it was not found.
pub fn validate_key_id(key: Result<PublicKeyStatus, GpgError>) -> (usable: Result<bool, Error>)
    ensures
        usable == (match key {
            Err(e) => Err(Error::Gpg(e)),
            Ok(k) => Ok(!k.expired && !k.revoked && !k.invalid && k.can_encrypt),
        }),
{
    let status = match key {
        Ok(status) => status,
        Err(e) => {
            return Err(Error::Gpg(e));
        },
    };
    if status.expired || status.revoked || status.invalid {
        return Ok(false);
    }
    if !status.can_encrypt {
        return Ok(false);
    }
    Ok(true)
}

/// The full fingerprint of a GPG key, given what the lookup of the key returned. A
/// key without a fingerprint counts as missing.
pub fn get_key_fingerprint(key: Result<Option<String>, GpgError>) -> (fingerprint: Result<
    String,
    Error,
>)
    ensures
        match key {
            Err(e) => fingerprint == Err::<String, Error>(Error::Gpg(e)),
            Ok(Some(text)) => fingerprint == Ok::<String, Error>(text),
            Ok(None) => fingerprint matches Err(Error::Gpg(e)) && e.code == NO_PUBKEY
                && e.description@ == "No public key"@,
        },
{
    match key {
        Ok(Some(text)) => Ok(text),
        Ok(None) => Err(Error::Gpg(GpgError::no_pubkey())),
        Err(e) => Err(Error::Gpg(e)),
    }
}

} // verus!

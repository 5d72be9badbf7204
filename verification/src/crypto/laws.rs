//! What the decisions around GPG keys come to, and how errors are shown.
use vstd::prelude::*;

use crate::crypto::error::Error;
use crate::crypto::error::GpgError;
use crate::crypto::error::Source;
use crate::crypto::gpg::generate_session_key;
use crate::crypto::gpg::get_key_fingerprint;
use crate::crypto::gpg::list_gpg_keys;
use crate::crypto::gpg::readable;
use crate::crypto::gpg::validate_key_id;
use crate::crypto::gpg::PublicKeyStatus;
use crate::crypto::gpg::SecretKeyEntry;
use crate::crypto::gpg::SessionKey;
use crate::io_error::IoError;
use crate::text::decimal;
use crate::text_laws::a_number_reads_as_it_was_written;
use crate::text_laws::writes;

verus! {

/// The row shows the key: its fingerprint and its first user ID, or what stands for them, and
/// whether one of its subkeys lies on a card.
pub open spec fn shows_key(entry: SecretKeyEntry, row: (String, String, bool)) -> bool {
    &&& row.0@ == (match entry.fingerprint {
        Some(text) => text@,
        None => "<no fingerprint>"@,
    })
    &&& row.1@ == (if entry.user_ids@.len() > 0 && entry.user_ids@[0] is Some {
        entry.user_ids@[0]->0@
    } else {
        "<no user ID>"@
    })
    &&& row.2 <==> entry.subkeys_on_card@.contains(true)
}

/// The rows show the keys at these places of the list: all that could be read, in their order.
pub open spec fn shows_keys(
    found: Seq<Result<SecretKeyEntry, GpgError>>,
    rows: Seq<(String, String, bool)>,
    at: Seq<int>,
) -> bool {
    &&& at.len() == rows.len()
    &&& forall|i: int|
        0 <= i < at.len() ==> 0 <= #[trigger] at[i] < found.len() && (found[at[i]] matches Ok(entry)
            && shows_key(entry, rows[i]))
    &&& forall|i: int, j: int| 0 <= i < j < at.len() ==> #[trigger] at[i] < #[trigger] at[j]
    &&& forall|k: int| 0 <= k < found.len() && (#[trigger] found[k]) is Ok ==> at.contains(k)
}

/// The entries that could be read stand at these places of the list.
spec fn read_at(
    found: Seq<Result<SecretKeyEntry, GpgError>>,
    entries: Seq<SecretKeyEntry>,
    at: Seq<int>,
) -> bool {
    &&& at.len() == entries.len()
    &&& forall|i: int|
        0 <= i < at.len() ==> 0 <= #[trigger] at[i] < found.len() && found[at[i]] == Ok::<
            SecretKeyEntry,
            GpgError,
        >(entries[i])
    &&& forall|i: int, j: int| 0 <= i < j < at.len() ==> #[trigger] at[i] < #[trigger] at[j]
    &&& forall|k: int| 0 <= k < found.len() && (#[trigger] found[k]) is Ok ==> at.contains(k)
}

proof fn lemma_readable(found: Seq<Result<SecretKeyEntry, GpgError>>)
    ensures
        exists|at: Seq<int>| #[trigger] read_at(found, readable(found), at),
    decreases found.len(),
{
    let now = readable(found);
    if found.len() == 0 {
        assert(read_at(found, now, Seq::<int>::empty()));
    } else {
        let rest = found.drop_last();
        let last = found.len() - 1;
        lemma_readable(rest);
        let before = readable(rest);
        let at = choose|at: Seq<int>| #[trigger] read_at(rest, before, at);
        assert forall|k: int| 0 <= k < rest.len() && (#[trigger] found[k]) is Ok implies at.contains(
            k,
        ) by {
            assert(rest[k] == found[k]);
        }
        if found[last] is Ok {
            let more = at.push(last);
            assert(more[at.len() as int] == last);
            assert forall|k: int| 0 <= k < found.len() && (#[trigger] found[k]) is Ok implies more
                .contains(k) by {
                if k < last {
                    let i = choose|i: int| 0 <= i < at.len() && at[i] == k;
                    assert(more[i] == k);
                }
            }
            assert(read_at(found, now, more));
        } else {
            assert(read_at(found, now, at));
        }
    }
}

/// The keys are listed one for one, in their order, but for those that could not be read.
pub proof fn keys_are_listed_in_their_order(
    found: Vec<Result<SecretKeyEntry, GpgError>>,
    failure: GpgError,
    rows: Result<Vec<(String, String, bool)>, Error>,
)
    ensures
        call_ensures(list_gpg_keys, (Ok(found),), rows) ==> (rows matches Ok(list) && exists|
            at: Seq<int>,
        | #[trigger]
            shows_keys(found@, list@, at)),
        call_ensures(list_gpg_keys, (Err(failure),), rows) ==> rows == Err::<
            Vec<(String, String, bool)>,
            Error,
        >(Error::Gpg(failure)),
{
    if call_ensures(list_gpg_keys, (Ok(found),), rows) {
        lemma_readable(found@);
        let entries = readable(found@);
        let at = choose|at: Seq<int>| #[trigger] read_at(found@, entries, at);
        let list = rows->Ok_0@;
        assert forall|i: int| 0 <= i < at.len() implies 0 <= #[trigger] at[i] < found@.len() && (
        found@[at[i]] matches Ok(entry) && shows_key(entry, list[i])) by {
            assert(entries[i].is_row(list[i]));
            let cards = entries[i].subkeys_on_card@;
            if entries[i].on_card() {
                let j = choose|j: int| 0 <= j < cards.len() && #[trigger] cards[j];
                assert(cards[j] == true);
            }
            if cards.contains(true) {
                let j = choose|j: int| 0 <= j < cards.len() && cards[j] == true;
                assert(cards[j]);
            }
        }
        assert(shows_keys(found@, list, at));
    }
}

/// A key is fit for use where it was found, can encrypt, and nothing speaks against it.
pub proof fn a_key_is_fit_or_not(
    status: PublicKeyStatus,
    failure: GpgError,
    usable: Result<bool, Error>,
)
    ensures
        call_ensures(validate_key_id, (Ok(status),), usable) ==> (usable matches Ok(yes) && (yes
            <==> !status.expired && !status.revoked && !status.invalid && status.can_encrypt)),
        call_ensures(validate_key_id, (Err(failure),), usable) ==> usable == Err::<bool, Error>(
            Error::Gpg(failure),
        ),
{
}

/// The fingerprint of a key is what GPG says. A key without one counts as missing.
pub proof fn a_fingerprint_is_what_gpg_says(
    text: String,
    failure: GpgError,
    fingerprint: Result<String, Error>,
)
    ensures
        call_ensures(get_key_fingerprint, (Ok(Some(text)),), fingerprint) ==> fingerprint == Ok::<
            String,
            Error,
        >(text),
        call_ensures(get_key_fingerprint, (Ok(None),), fingerprint) ==> (fingerprint matches Err(
            Error::Gpg(e),
        ) && e.code == 9 && e.description@ == "No public key"@),
        call_ensures(get_key_fingerprint, (Err(failure),), fingerprint) ==> fingerprint == Err::<
            String,
            Error,
        >(Error::Gpg(failure)),
{
}

/// A session key keeps the bytes that it is given, and a random one has the size that was asked
/// for.
pub proof fn a_session_key_keeps_its_bytes(
    bytes: Vec<u8>,
    key: SessionKey,
    again: Vec<u8>,
    size: usize,
    random: Result<SessionKey, Error>,
)
    ensures
        call_ensures(SessionKey::new, (bytes,), key) && call_ensures(
            SessionKey::to_vec,
            (&key,),
            again,
        ) ==> again@ == bytes@,
        call_ensures(generate_session_key, (size,), random) && random is Ok && call_ensures(
            SessionKey::to_vec,
            (&random->Ok_0,),
            again,
        ) ==> again@.len() == size,
        call_ensures(generate_session_key, (size,), random) ==> random is Ok,
{
}

/// An error of GPG is shown with its words and its number.
pub proof fn a_gpg_error_shows_its_code(error: GpgError, text: String)
    requires
        call_ensures(GpgError::display, (&error,), text),
    ensures
        exists|number: Seq<char>| #[trigger]
            writes(number, error.code as nat) && text@ == error.description@ + " (gpg error "@
                + number + ")"@,
{
    a_number_reads_as_it_was_written(error.code as nat);
    assert(writes(decimal(error.code as nat), error.code as nat));
}

/// An error is shown with what went wrong and the words of what it was made of, and leads back to
/// that, where there is something to look into.
pub proof fn errors_tell_what_they_were_made_of(
    error: Error,
    text: String,
    shown: String,
    source: Option<Source<'_>>,
)
    ensures
        call_ensures(Error::display, (&error,), text) ==> match error {
            Error::Gpg(e) => call_ensures(GpgError::display, (&e,), shown) ==> text@
                == "GPG error: "@ + shown@,
            Error::GpgIo(e) => text@ == "GPG I/O error: "@ + e.message@,
            Error::NoKey => text@ == "No decryption key available"@,
            Error::UnpadError(_) => text@ == "Wrong padding error: "@ + "Unpad Error"@,
            Error::PadError(_) => text@ == "Wrong padding error: "@ + "Padding error"@,
            Error::Openssl(e) => exists|stack: String| #[trigger]
                vstd::string::to_string_from_display_ensures::<openssl::error::ErrorStack>(
                    &e,
                    stack,
                ) && text@ == "Openssl error: "@ + stack@,
        },
        call_ensures(Error::source, (&error,), source) ==> match (error, source) {
            (Error::Gpg(e), Some(Source::Gpg(s))) => *s == e,
            (Error::GpgIo(e), Some(Source::Io(s))) => *s == e,
            (Error::Openssl(e), Some(Source::Openssl(s))) => *s == e,
            (Error::NoKey, None) => true,
            (Error::UnpadError(_), None) => true,
            (Error::PadError(_), None) => true,
            _ => false,
        },
{
}

/// An error keeps what it is made of.
pub proof fn errors_keep_what_they_are_made_of(
    gpg: GpgError,
    io: IoError,
    stack: openssl::error::ErrorStack,
    pad: cipher::inout::PadError,
    unpad: cipher::block_padding::UnpadError,
    missing: GpgError,
    error: Error,
)
    ensures
        call_ensures(<Error as From<openssl::error::ErrorStack>>::from, (stack,), error) ==> error
            == Error::Openssl(stack),
        call_ensures(<Error as From<cipher::inout::PadError>>::from, (pad,), error) ==> error
            == Error::PadError(pad),
        call_ensures(<Error as From<cipher::block_padding::UnpadError>>::from, (unpad,), error)
            ==> error == Error::UnpadError(unpad),
        call_ensures(GpgError::no_pubkey, (), missing) ==> missing.code == 9
            && missing.description@ == "No public key"@,
        call_ensures(<Error as From<GpgError>>::from, (gpg,), error) ==> error == Error::Gpg(gpg),
        call_ensures(<Error as From<IoError>>::from, (io,), error) ==> error == Error::GpgIo(io),
{
}

} // verus!

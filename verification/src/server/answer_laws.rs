//! What clients are told, and what the items of a collection tell.
use vstd::prelude::*;

use crate::attributes::Attributes;
use crate::file::api::Item as FileItem;
use crate::file::error::Error as FileError;
use crate::file::error::InvalidItemError;
use crate::io_error::IoError;
use crate::server::error::custom_service_error;
use crate::server::error::file_failure;
use crate::server::error::ServiceError;
use crate::server::item::Item;

verus! {

/// An error has the words that it is given. One that was made of an error of a keyring has the
/// words of that error, between those that it is given.
pub proof fn an_answer_has_the_given_words(
    message: &str,
    before: &str,
    e: FileError,
    after: &str,
    shown: String,
    error: ServiceError,
)
    ensures
        call_ensures(custom_service_error, (message,), error) ==> (error matches
            ServiceError::Failed(text) && text@ == message@),
        call_ensures(file_failure, (before, &e, after), error) ==> (error matches
            ServiceError::Failed(text) && exists|words: Seq<char>| #[trigger]
            e.shown(words) && text@ == before@ + words + after@),
        !(e is Crypto) && call_ensures(FileError::display, (&e,), shown) && call_ensures(
            file_failure,
            (before, &e, after),
            error,
        ) ==> (error matches ServiceError::Failed(text) && text@ == before@ + shown@ + after@),
{
}

/// An error of a keyring is shown with its own words, or with those of what it was made of.
pub proof fn keyring_errors_are_shown(e: FileError, text: String)
    requires
        call_ensures(FileError::display, (&e,), text),
    ensures
        match e {
            FileError::Io(io) => text@ == io.message@,
            FileError::Crypto(c) => c.shown(text@),
            FileError::NotGpgEncrypted => text@ == "The keyring uses another kind of encryption"@,
            FileError::NotPasswordBased => text@ == "The keyring is not based on a password"@,
            FileError::IncorrectSecret => text@ == "The secret is incorrect"@,
            FileError::PromptDismissed => text@ == "The prompt was dismissed"@,
            FileError::Malformed(reason) => text@ == reason@,
        },
{
}

/// An item of a collection has what it is given, and its copy has the same. It is locked where what
/// is inside is locked, and tells its attributes where it is not.
pub proof fn an_item_tells_what_is_inside(
    inner: FileItem,
    collection_path: String,
    path: String,
    item: Item,
    copy: Item,
    told: &String,
    locked: bool,
    attributes: Option<Attributes>,
)
    ensures
        call_ensures(Item::new, (inner, collection_path, path), item) ==> item.inner == inner
            && item.collection_path == collection_path && item.path == path,
        call_ensures(Item::path, (&item,), told) ==> told@ == item.path@,
        call_ensures(Item::is_locked, (&item,), locked) ==> (locked <==> item.inner is Locked),
        call_ensures(Item::attributes, (&item,), attributes) ==> match item.inner {
            FileItem::Unlocked(plain) => attributes matches Some(a) && a@ == plain.attributes@,
            FileItem::Locked(_) => attributes is None,
        },
        call_ensures(Item::duplicate, (&item,), copy) ==> copy.path@ == item.path@
            && copy.collection_path@ == item.collection_path@ && copy.inner@ == item.inner@,
{
}

/// An item that could not be read keeps the reason and the names of its attributes. A failure of
/// input or output becomes an error of the keyring as it is.
pub proof fn an_invalid_item_keeps_the_reason(
    e: FileError,
    names: Vec<String>,
    invalid: InvalidItemError,
    io: IoError,
    error: FileError,
)
    ensures
        call_ensures(InvalidItemError::new, (e, names), invalid) ==> invalid.error == e
            && invalid.attribute_names@ == names@,
        call_ensures(<FileError as From<IoError>>::from, (io,), error) ==> error == FileError::Io(
            io,
        ),
{
}

} // verus!

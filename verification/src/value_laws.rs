//! What the plain values keep of what is put into them.
use vstd::prelude::*;

use crate::attributes::lemma_entry;
use crate::attributes::names_at;
use crate::attributes::Attributes;
use crate::io_error::IoError;
use crate::io_error::IoErrorKind;
use crate::secret::Key;
use crate::secret::KeyStrength;
use crate::secret::Secret;

verus! {

/// What is put under a name is found there, in place of what was there before, and nothing under
/// another name changes. Without anything put in, there is nothing.
pub proof fn a_value_is_found_under_its_name(
    empty: Attributes,
    attributes: Attributes,
    name: String,
    value: String,
    more: Attributes,
    other: String,
    found: Option<&String>,
    there: bool,
)
    ensures
        call_ensures(Attributes::new, (), empty) && call_ensures(
            Attributes::contains_key,
            (&empty, &other),
            there,
        ) ==> !there,
        call_ensures(Attributes::new, (), empty) && call_ensures(
            Attributes::get,
            (&empty, &other),
            found,
        ) ==> found is None,
        call_ensures(Attributes::with, (attributes, name, value), more) && call_ensures(
            Attributes::get,
            (&more, &name),
            found,
        ) ==> (found matches Some(v) && v@ == value@),
        call_ensures(Attributes::with, (attributes, name, value), more) && other@ != name@
            && call_ensures(Attributes::get, (&more, &other), found) ==> match found {
            Some(v) => attributes@.contains_key(other@) && attributes@[other@] == v@,
            None => !attributes@.contains_key(other@),
        },
        call_ensures(Attributes::contains_key, (&attributes, &other), there) && call_ensures(
            Attributes::get,
            (&attributes, &other),
            found,
        ) ==> (there <==> found is Some),
{
}

/// Attributes are within others just where each of them is there with the same value. A copy has
/// the same, each name once.
pub proof fn attributes_are_within_others_name_by_name(
    some: Attributes,
    others: Attributes,
    within: bool,
    copy: Attributes,
    entries: Vec<(String, String)>,
)
    ensures
        call_ensures(Attributes::within, (&some, &others), within) ==> (within <==> forall|
            name: Seq<char>,
        |
            #[trigger] some@.contains_key(name) ==> others@.contains_key(name) && others@[name]
                == some@[name]),
        call_ensures(Attributes::duplicate, (&some,), copy) ==> copy@ == some@,
        call_ensures(Attributes::entries, (&some,), entries) ==> (forall|name: Seq<char>|
            #[trigger] some@.contains_key(name) <==> exists|i: int|
                0 <= i < entries@.len() && (#[trigger] entries@[i]).0@ == name) && (forall|i: int|
            0 <= i < entries@.len() ==> some@.contains_key((#[trigger] entries@[i]).0@)
                && some@[entries@[i].0@] == entries@[i].1@) && (forall|i: int, j: int|
            0 <= i < j < entries@.len() ==> (#[trigger] entries@[i]).0@ != (
            #[trigger] entries@[j]).0@),
{
    if call_ensures(Attributes::within, (&some, &others), within) {
        if within {
            assert forall|name: Seq<char>| #[trigger] some@.contains_key(name) implies others
                @.contains_key(name) && others@[name] == some@[name] by {
                assert(some@.submap_of(others@));
                if !others@.dom().contains(name) {
                    assert(some@.dom().contains(name) ==> others@.dom().contains(name));
                }
            }
        }
        if forall|name: Seq<char>| #[trigger]
            some@.contains_key(name) ==> others@.contains_key(name) && others@[name]
                == some@[name] {
            assert forall|name: Seq<char>| #[trigger] some@.dom().contains(name) implies
                #[trigger] others@.dom().contains(name) && some@[name] == others@[name] by {
                assert(some@.contains_key(name));
            }
            assert(some@.submap_of(others@));
        }
    }
    if call_ensures(Attributes::entries, (&some,), entries) {
        let list = entries@;
        assert forall|name: Seq<char>| #[trigger] some@.contains_key(name) <==> exists|i: int|
            0 <= i < list.len() && (#[trigger] list[i]).0@ == name by {
            if some@.contains_key(name) {
                let i = choose|i: int| names_at(list, name, i);
                assert(list[i].0@ == name);
            }
            if exists|i: int| 0 <= i < list.len() && (#[trigger] list[i]).0@ == name {
                let i = choose|i: int| 0 <= i < list.len() && (#[trigger] list[i]).0@ == name;
                assert(names_at(list, name, i));
            }
        }
        assert forall|i: int| 0 <= i < list.len() implies some@.contains_key(
            (#[trigger] list[i]).0@,
        ) && some@[list[i].0@] == list[i].1@ by {
            lemma_entry(list, i);
        }
    }
}

/// Secrets and keys hold the bytes that they are made of, and so do their copies.
pub proof fn secrets_hold_their_bytes(
    bytes: Vec<u8>,
    text: &str,
    secret: Secret,
    copy: Secret,
    strength: KeyStrength,
    key: Key,
    same: Key,
)
    ensures
        call_ensures(Secret::blob, (bytes,), secret) ==> secret.bytes@ == bytes@,
        call_ensures(Secret::text, (text,), secret) ==> secret.bytes@ == vstd::utf8::encode_utf8(
            text@,
        ),
        call_ensures(Secret::duplicate, (&secret,), copy) ==> copy.bytes@ == secret.bytes@,
        call_ensures(Key::new, (bytes,), key) ==> key.bytes@ == bytes@ && key.strength is Unstated,
        call_ensures(Key::new_with_strength, (bytes, strength), key) ==> key.bytes@ == bytes@
            && key.strength == strength,
        call_ensures(Key::duplicate, (&key,), same) ==> same.bytes@ == key.bytes@ && same.strength
            == key.strength,
{
}

/// A failure of input or output keeps its kind and its words.
pub proof fn a_failure_keeps_its_words(kind: IoErrorKind, message: &str, error: IoError)
    requires
        call_ensures(IoError::new, (kind, message), error),
    ensures
        error.kind == kind,
        error.message@ == message@,
{
}

} // verus!

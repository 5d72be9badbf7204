//! D-Bus object paths.
use vstd::prelude::*;

use crate::text::decimal;
use crate::text::decimal_text;
use crate::text::is_word_char;
use crate::text::lemma_decimal_digits;
use crate::text::sentence;

verus! {

/// Whether a text is an object path: it starts with a slash, has no two slashes
/// next to each other and none at the end (unless the slash is all there is),
/// and holds nothing but slashes, letters, digits and underscores.
pub open spec fn is_object_path(s: Seq<char>) -> bool {
    &&& s.len() > 0
    &&& s[0] == '/'
    &&& s.len() > 1 ==> s.last() != '/'
    &&& forall|i: int| 0 <= i < s.len() ==> #[trigger] s[i] == '/' || is_word_char(s[i])
    &&& forall|i: int, j: int|
        0 <= i && j == i + 1 && j < s.len() && #[trigger] s[i] == '/' ==> #[trigger] s[j] != '/'
}

/// The root path, which stands for "no object".
pub open spec fn root() -> Seq<char> {
    seq!['/']
}

/// The path of the child number `n` of the object at `base`.
pub open spec fn child(base: Seq<char>, n: nat) -> Seq<char> {
    base + seq!['/'] + decimal(n)
}

/// The text itself where it is an object path, and nothing otherwise.
///
/// Calls `zvariant::OwnedObjectPath::try_from` on a `String`, which accepts
/// exactly the object paths and keeps the text as it is.
#[verifier::external_body]
fn owned_object_path(path: String) -> (result: Option<String>)
    ensures
        result is Some <==> is_object_path(path@),
        result matches Some(p) ==> p@ == path@,
{
    zvariant::OwnedObjectPath::try_from(path).ok().map(|p| p.as_str().to_owned())
}

/// The text itself where it is an object path, and nothing otherwise.
pub fn checked_path(path: String) -> (result: Option<String>)
    ensures
        result is Some <==> is_object_path(path@),
        result matches Some(p) ==> p@ == path@,
{
    owned_object_path(path)
}

/// The root path.
pub fn root_path() -> (path: String)
    ensures
        path@ == root(),
        is_object_path(path@),
{
    let mut path = String::new();
    path.push('/');
    assert(path@ =~= root());
    path
}

/// The text itself where it is an object path, and the root path otherwise.
pub fn path_or_root(path: String) -> (result: String)
    ensures
        result@ == (if is_object_path(path@) {
            path@
        } else {
            root()
        }),
        is_object_path(result@),
{
    match checked_path(path) {
        Some(p) => p,
        None => root_path(),
    }
}

/// The path of the child number `n` of the object at `base`.
pub fn child_path(base: &str, n: u32) -> (path: String)
    requires
        is_object_path(base@),
        base@.len() > 1,
    ensures
        path@ == child(base@, n as nat),
        is_object_path(path@),
{
    proof {
        reveal_strlit("/");
        assert("/"@ =~= seq!['/']);
        lemma_child_is_path(base@, n as nat);
    }
    let number = decimal_text(n);
    let text = sentence(base, "/", number.as_str());
    checked_path(text).unwrap()
}

/// A numbered child of any object but the root has a valid path.
pub proof fn lemma_child_is_path(base: Seq<char>, n: nat)
    requires
        is_object_path(base),
        base.len() > 1,
    ensures
        is_object_path(child(base, n)),
{
    lemma_decimal_digits(n);
    let s = child(base, n);
    let d = decimal(n);
    assert(s.last() == d.last());
    assert forall|i: int| 0 <= i < s.len() implies #[trigger] s[i] == '/' || is_word_char(s[i]) by {
        if i < base.len() {
            assert(s[i] == base[i]);
        } else if i > base.len() {
            assert(s[i] == d[i - base.len() - 1]);
        }
    }
    assert forall|i: int, j: int|
        0 <= i && j == i + 1 && j < s.len() && #[trigger] s[i] == '/' implies #[trigger] s[j]
        != '/' by {
        if j < base.len() {
            assert(s[i] == base[i] && s[j] == base[j]);
        } else if j == base.len() {
            assert(s[i] == base.last());
        } else {
            assert(s[j] == d[j - base.len() - 1]);
        }
    }
}

} // verus!

//! What the texts mean that messages and paths are built of.
use vstd::prelude::*;

use crate::object_path::checked_path;
use crate::object_path::child_path;
use crate::object_path::is_object_path;
use crate::object_path::path_or_root;
use crate::object_path::root_path;
use crate::text::capitalize;
use crate::text::decimal;
use crate::text::decimal_text;
use crate::text::digit;
use crate::text::sanitize;
use crate::text::sentence;

verus! {

/// The number that a row of digits stands for.
pub open spec fn reads(digits: Seq<char>) -> int
    decreases digits.len(),
{
    if digits.len() == 0 {
        0
    } else {
        reads(digits.drop_last()) * 10 + (digits.last() as u32 - '0' as u32)
    }
}

/// The text is how a number is written: digits, no more of them than it takes.
pub open spec fn writes(digits: Seq<char>, n: nat) -> bool {
    &&& digits.len() > 0
    &&& forall|i: int| 0 <= i < digits.len() ==> '0' <= #[trigger] digits[i] <= '9'
    &&& digits.len() > 1 ==> digits[0] != '0'
    &&& reads(digits) == n
}

/// A number in decimal notation reads as that number.
pub proof fn a_number_reads_as_it_was_written(n: nat)
    ensures
        writes(decimal(n), n),
    decreases n,
{
    assert(reads(Seq::<char>::empty()) == 0);
    lemma_digit(n % 10);
    if n >= 10 {
        a_number_reads_as_it_was_written(n / 10);
        let before = decimal(n / 10);
        let now = decimal(n);
        assert(now == before.push(digit(n % 10)));
        assert(now.drop_last() =~= before);
        assert(now.last() == digit(n % 10));
        assert(now[0] == before[0]);
        assert(reads(now) == reads(before) * 10 + n % 10);
        if before.len() == 1 && before[0] == '0' {
            assert(before.drop_last() =~= Seq::<char>::empty());
            assert(before.last() == '0');
            assert(reads(before) == 0);
        }
    } else {
        let now = decimal(n);
        assert(now == seq![digit(n)]);
        assert(now.drop_last() =~= Seq::<char>::empty());
        assert(now.last() == digit(n));
        assert(reads(now) == n);
    }
}

proof fn lemma_digit(d: nat)
    requires
        d < 10,
    ensures
        digit(d) as u32 - '0' as u32 == d,
        '0' <= digit(d) <= '9',
{
}

/// A number is written so that it reads as that number.
pub proof fn numbers_are_written(n: u32, text: String)
    requires
        call_ensures(decimal_text, (n,), text),
    ensures
        writes(text@, n as nat),
{
    a_number_reads_as_it_was_written(n as nat);
}

/// Three pieces of text are put one after the other.
pub proof fn sentences_are_put_together(before: &str, subject: &str, after: &str, text: String)
    requires
        call_ensures(sentence, (before, subject, after), text),
    ensures
        text@ == before@ + subject@ + after@,
{
}

/// A sanitized text has as many characters as the text. The letters and digits of ASCII stay, and
/// an underscore stands for any other character.
pub proof fn a_sanitized_text_is_a_name(text: &str, name: String)
    requires
        call_ensures(sanitize, (text,), name),
    ensures
        name@.len() == text@.len(),
        forall|i: int|
            0 <= i < name@.len() ==> #[trigger] name@[i] == (if ('A' <= text@[i] && text@[i] <= 'Z')
                || ('a' <= text@[i] && text@[i] <= 'z') || ('0' <= text@[i] && text@[i] <= '9') {
                text@[i]
            } else {
                '_'
            }),
{
}

/// A capitalized text starts with the capital of its first letter, in ASCII, and goes on as the
/// text does.
pub proof fn a_capitalized_text_differs_in_its_first_letter(text: &str, name: String)
    requires
        call_ensures(capitalize, (text,), name),
        text@.len() > 0,
        (text@[0] as u32) < 128,
    ensures
        name@.len() == text@.len(),
        name@.skip(1) == text@.skip(1),
        name@[0] as u32 == (if 'a' <= text@[0] && text@[0] <= 'z' {
            text@[0] as u32 - 32
        } else {
            text@[0] as u32 as int
        }),
{
    if 'a' <= text@[0] && text@[0] <= 'z' {
        assert(name@.skip(1) =~= text@.skip(1));
    }
}

/// The path of a child is that of its parent, a slash, and its number.
pub proof fn a_child_is_below_its_parent(base: &str, n: u32, path: String)
    requires
        is_object_path(base@),
        base@.len() > 1,
        call_ensures(child_path, (base, n), path),
    ensures
        path@.len() > base@.len() + 1,
        path@.take(base@.len() as int) == base@,
        path@[base@.len() as int] == '/',
        writes(path@.skip(base@.len() as int + 1), n as nat),
        is_object_path(path@),
{
    a_number_reads_as_it_was_written(n as nat);
    assert(path@.take(base@.len() as int) =~= base@);
    assert(path@.skip(base@.len() as int + 1) =~= decimal(n as nat));
}

/// A text is checked for a path without being changed, and the root stands for no path.
pub proof fn a_checked_path_is_the_text(
    text: String,
    checked: Option<String>,
    path: String,
)
    ensures
        call_ensures(checked_path, (text,), checked) ==> match checked {
            Some(p) => p@ == text@ && is_object_path(text@),
            None => !is_object_path(text@),
        },
        call_ensures(path_or_root, (text,), path) ==> if is_object_path(text@) {
            path@ == text@
        } else {
            path@ == "/"@
        },
        call_ensures(root_path, (), path) ==> path@ == "/"@,
{
    reveal_strlit("/");
    assert("/"@ =~= seq!['/']);
}

/// A path starts at the root, and has neither empty nor odd elements.
pub proof fn a_path_is_made_of_names(path: Seq<char>)
    requires
        is_object_path(path),
    ensures
        path.len() > 0,
        path[0] == '/',
        path.len() > 1 ==> path[path.len() - 1] != '/',
        forall|i: int|
            0 <= i < path.len() ==> (#[trigger] path[i]) == '/' || path[i] == '_' || ('A' <= path[i]
                && path[i] <= 'Z') || ('a' <= path[i] && path[i] <= 'z') || ('0' <= path[i]
                && path[i] <= '9'),
        forall|i: int, j: int|
            0 <= i && j == i + 1 && j < path.len() && #[trigger] path[i] == '/'
                ==> #[trigger] path[j] != '/',
{
}

} // verus!

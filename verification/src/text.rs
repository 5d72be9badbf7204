//! Strings: the few operations that messages and paths are built with.
use vstd::prelude::*;

verus! {

/// `String::push` appends the character at the end of the string.
pub assume_specification[ String::push ](s: &mut String, c: char)
    ensures
        final(s)@ == old(s)@.push(c),
;

/// The decimal digit `d`, which is below ten.
pub open spec fn digit(d: nat) -> char {
    if d == 0 {
        '0'
    } else if d == 1 {
        '1'
    } else if d == 2 {
        '2'
    } else if d == 3 {
        '3'
    } else if d == 4 {
        '4'
    } else if d == 5 {
        '5'
    } else if d == 6 {
        '6'
    } else if d == 7 {
        '7'
    } else if d == 8 {
        '8'
    } else {
        '9'
    }
}

/// `n` in decimal notation, without leading zeros.
pub open spec fn decimal(n: nat) -> Seq<char>
    decreases n,
{
    if n < 10 {
        seq![digit(n)]
    } else {
        decimal(n / 10).push(digit(n % 10))
    }
}

fn digit_char(d: u32) -> (c: char)
    requires
        d < 10,
    ensures
        c == digit(d as nat),
{
    if d == 0 {
        '0'
    } else if d == 1 {
        '1'
    } else if d == 2 {
        '2'
    } else if d == 3 {
        '3'
    } else if d == 4 {
        '4'
    } else if d == 5 {
        '5'
    } else if d == 6 {
        '6'
    } else if d == 7 {
        '7'
    } else if d == 8 {
        '8'
    } else {
        '9'
    }
}

/// Writes `n` in decimal notation.
pub fn decimal_text(n: u32) -> (text: String)
    ensures
        text@ == decimal(n as nat),
    decreases n,
{
    if n < 10 {
        let mut text = String::new();
        text.push(digit_char(n));
        text
    } else {
        let mut text = decimal_text(n / 10);
        text.push(digit_char(n % 10));
        text
    }
}

/// Puts three pieces of text one after the other.
pub fn sentence(before: &str, subject: &str, after: &str) -> (text: String)
    ensures
        text@ == before@ + subject@ + after@,
{
    let mut text = before.to_owned();
    text.append(subject);
    text.append(after);
    text
}

/// The upper case of a character, by the Unicode tables: mostly one character.
pub uninterp spec fn uppercased(c: char) -> Seq<char>;

/// `char::to_uppercase` maps a character to its upper case. In ASCII that is the capital
/// of a letter, and any other character itself.
#[verifier::external_body]
fn to_uppercase(c: char) -> (text: String)
    ensures
        text@ == uppercased(c),
        'a' <= c <= 'z' ==> text@ == seq![((c as u32) - 32) as char],
        (c as u32) < 128 && !('a' <= c <= 'z') ==> text@ == seq![c],
{
    c.to_uppercase().to_string()
}

/// The text with its first character in upper case.
pub open spec fn capitalized(name: Seq<char>) -> Seq<char> {
    if name.len() == 0 {
        name
    } else {
        uppercased(name[0]) + name.skip(1)
    }
}

/// Puts the first character of a text in upper case.
pub fn capitalize(name: &str) -> (text: String)
    ensures
        text@ == capitalized(name@),
        name@.len() > 0 && 'a' <= name@[0] <= 'z' ==> text@ == seq![
            ((name@[0] as u32) - 32) as char,
        ] + name@.skip(1),
        name@.len() > 0 && (name@[0] as u32) < 128 && !('a' <= name@[0] <= 'z') ==> text@ == name@,
{
    let length: usize = name.unicode_len();
    if length == 0 {
        return String::new();
    }
    let mut text = to_uppercase(name.get_char(0));
    text.append(name.substring_char(1, length));
    assert(name@.subrange(1, length as int) =~= name@.skip(1));
    assert(seq![name@[0]] + name@.skip(1) =~= name@);
    text
}

/// The characters that stand for themselves in a name.
pub open spec fn is_word_char(c: char) -> bool {
    ||| 'A' <= c <= 'Z'
    ||| 'a' <= c <= 'z'
    ||| '0' <= c <= '9'
    ||| c == '_'
}

/// The character that stands for `c` in a name: the letters and digits of ASCII and the
/// underscore for themselves, and an underscore for anything else.
pub open spec fn sanitized_char(c: char) -> char {
    if is_word_char(c) {
        c
    } else {
        '_'
    }
}

/// The text with an underscore for every character that cannot stand in a name.
pub open spec fn sanitized(text: Seq<char>) -> Seq<char> {
    text.map_values(|c: char| sanitized_char(c))
}

/// Puts an underscore in place of every character but the letters and digits of ASCII.
pub fn sanitize(text: &str) -> (name: String)
    ensures
        name@ == sanitized(text@),
{
    let length: usize = text.unicode_len();
    let mut name = String::new();
    let mut i: usize = 0;
    assert(name@ =~= sanitized(text@.take(0)));
    while i < length
        invariant
            length == text@.len(),
            i <= length,
            name@ == sanitized(text@.take(i as int)),
        decreases length - i,
    {
        let c: char = text.get_char(i);
        if ('A' <= c && c <= 'Z') || ('a' <= c && c <= 'z') || ('0' <= c && c <= '9') || c == '_' {
            name.push(c);
        } else {
            name.push('_');
        }
        assert(name@ =~= sanitized(text@.take(i + 1)));
        i = i + 1;
    }
    assert(text@.take(i as int) =~= text@);
    name
}

/// A number in decimal notation is never empty and holds digits only.
pub proof fn lemma_decimal_digits(n: nat)
    ensures
        decimal(n).len() > 0,
        forall|i: int| 0 <= i < decimal(n).len() ==> '0' <= #[trigger] decimal(n)[i] <= '9',
    decreases n,
{
    if n >= 10 {
        lemma_decimal_digits(n / 10);
    }
}

/// Two numbers that are written the same way are the same number.
pub proof fn lemma_decimal_injective(a: nat, b: nat)
    requires
        decimal(a) == decimal(b),
    ensures
        a == b,
    decreases a,
{
    lemma_decimal_digits(a / 10);
    lemma_decimal_digits(b / 10);
    if a >= 10 && b >= 10 {
        assert(decimal(a) == decimal(a / 10).push(digit(a % 10)));
        assert(decimal(b) == decimal(b / 10).push(digit(b % 10)));
        assert(decimal(a).drop_last() =~= decimal(a / 10));
        assert(decimal(b).drop_last() =~= decimal(b / 10));
        lemma_decimal_injective(a / 10, b / 10);
        assert(decimal(a).last() == digit(a % 10));
        assert(decimal(b).last() == digit(b % 10));
    } else if a < 10 && b >= 10 {
        assert(decimal(b).len() >= 2);
    } else if a >= 10 && b < 10 {
        assert(decimal(a).len() >= 2);
    } else {
        assert(decimal(a)[0] == digit(a));
        assert(decimal(b)[0] == digit(b));
    }
}

} // verus!

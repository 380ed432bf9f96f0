//! Building strings: characters of a string, and numbers written out in
//! decimal.

use vstd::prelude::*;
use vstd::string::StrSliceExecFns;

verus! {

/// Appends `c` to `s` with `String::push`; the contract claims that the
/// characters of the string are then its old ones followed by `c`.
#[verifier::external_body]
pub(crate) fn push_char(s: &mut String, c: char)
    ensures
        final(s)@ == old(s)@.push(c),
{
    s.push(c);
}

/// The characters of `s`, in order.
pub fn chars_of(s: &str) -> (chars: Vec<char>)
    ensures
        chars@ == s@,
{
    let len = s.unicode_len();
    let mut chars: Vec<char> = Vec::new();
    let mut i: usize = 0;
    while i < len
        invariant
            len == s@.len(),
            i <= len,
            chars@ == s@.take(i as int),
        decreases len - i,
    {
        chars.push(s.get_char(i));
        assert(s@.take(i as int).push(s@[i as int]) =~= s@.take(i + 1));
        i = i + 1;
    }
    assert(s@.take(i as int) =~= s@);
    chars
}

/// The digit `d` as a character.
pub open spec fn digit_char(d: int) -> char {
    (d + 48) as char
}

/// `n` written in decimal, without leading zeros.
pub open spec fn decimal(n: nat) -> Seq<char>
    decreases n,
{
    if n < 10 {
        seq![digit_char(n as int)]
    } else {
        decimal(n / 10).push(digit_char((n % 10) as int))
    }
}

/// `v` written in decimal, with a minus sign when it is negative.
pub open spec fn signed_decimal(v: int) -> Seq<char> {
    if v < 0 {
        seq!['-'] + decimal((-v) as nat)
    } else {
        decimal(v as nat)
    }
}

/// `v` written in decimal, always with its sign.
pub open spec fn plus_signed_decimal(v: int) -> Seq<char> {
    if v < 0 {
        seq!['-'] + decimal((-v) as nat)
    } else {
        seq!['+'] + decimal(v as nat)
    }
}

/// `n` written in decimal with at least two digits.
pub open spec fn two_digit_decimal(n: nat) -> Seq<char> {
    if n < 10 {
        seq!['0'] + decimal(n)
    } else {
        decimal(n)
    }
}

fn digit(d: u64) -> (c: char)
    requires
        d < 10,
    ensures
        c == digit_char(d as int),
{
    match d {
        0 => '0',
        1 => '1',
        2 => '2',
        3 => '3',
        4 => '4',
        5 => '5',
        6 => '6',
        7 => '7',
        8 => '8',
        _ => '9',
    }
}

/// Appends `n` in decimal to `s`.
pub fn push_decimal(s: &mut String, n: u64)
    ensures
        final(s)@ == old(s)@ + decimal(n as nat),
    decreases n,
{
    if n >= 10 {
        push_decimal(s, n / 10);
    }
    push_char(s, digit(n % 10));
    assert(decimal(n as nat) == if n < 10 {
        seq![digit_char(n as int)]
    } else {
        decimal((n / 10) as nat).push(digit_char((n % 10) as int))
    });
}

/// Appends `v` in decimal to `s`, with a minus sign when it is negative.
pub fn push_signed_decimal(s: &mut String, v: i64)
    ensures
        final(s)@ == old(s)@ + signed_decimal(v as int),
{
    if v < 0 {
        push_char(s, '-');
        push_decimal(s, (-(v as i128)) as u64);
        assert(old(s)@.push('-') + decimal((-v) as nat) =~= old(s)@ + (seq!['-'] + decimal((-v) as nat)));
    } else {
        push_decimal(s, v as u64);
    }
}

/// Appends `v` in decimal to `s`, always with its sign.
pub fn push_plus_signed_decimal(s: &mut String, v: i64)
    ensures
        final(s)@ == old(s)@ + plus_signed_decimal(v as int),
{
    if v < 0 {
        push_char(s, '-');
        push_decimal(s, (-(v as i128)) as u64);
        assert(old(s)@.push('-') + decimal((-v) as nat) =~= old(s)@ + (seq!['-'] + decimal((-v) as nat)));
    } else {
        push_char(s, '+');
        push_decimal(s, v as u64);
        assert(old(s)@.push('+') + decimal(v as nat) =~= old(s)@ + (seq!['+'] + decimal(v as nat)));
    }
}

/// Whether `text` ends with `suffix`.
pub fn ends_with(text: &str, suffix: &str) -> (ends: bool)
    ensures
        ends == (suffix@.len() <= text@.len() && text@.subrange(text@.len() - suffix@.len(), text@.len() as int)
            == suffix@),
{
    let text_chars = chars_of(text);
    let suffix_chars = chars_of(suffix);
    if suffix_chars.len() > text_chars.len() {
        return false;
    }
    let start = text_chars.len() - suffix_chars.len();
    let ghost tail = text@.subrange(start as int, text@.len() as int);
    let mut i: usize = 0;
    while i < suffix_chars.len()
        invariant
            text_chars@ == text@,
            suffix_chars@ == suffix@,
            start + suffix_chars.len() == text_chars.len(),
            tail == text@.subrange(start as int, text@.len() as int),
            i <= suffix_chars.len(),
            forall|k: int| 0 <= k < i ==> suffix@[k] == text@[start + k],
        decreases suffix_chars.len() - i,
    {
        if suffix_chars[i] != text_chars[start + i] {
            assert(tail[i as int] == text@[start + i]);
            return false;
        }
        i = i + 1;
    }
    assert(tail =~= suffix@);
    true
}

} // verus!

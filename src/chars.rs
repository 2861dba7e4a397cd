//! Character classes of the format.
use vstd::prelude::*;

verus! {

/// What `char::is_alphanumeric` answers for `c`.
pub uninterp spec fn alphanumeric(c: char) -> bool;

/// An ASCII letter or digit.
pub open spec fn ascii_alphanumeric(c: char) -> bool {
    ('a' <= c && c <= 'z') || ('A' <= c && c <= 'Z') || ('0' <= c && c <= '9')
}

/// Relies on `char::is_alphanumeric`: whether `c` has the Unicode Alphabetic
/// or Numeric property.
#[verifier::external_body]
fn is_alphanumeric(c: char) -> (r: bool)
    ensures
        r == alphanumeric(c),
{
    c.is_alphanumeric()
}

/// A character that may stand in a bare word: a letter or digit, `.`, `_` or
/// `-`. Among ASCII characters the letters and digits are `a`-`z`, `A`-`Z` and
/// `0`-`9`.
pub open spec fn is_word_char(c: char) -> bool {
    if (c as u32) < 128 {
        ascii_alphanumeric(c) || c == '.' || c == '_' || c == '-'
    } else {
        alphanumeric(c)
    }
}

/// A character with the Unicode White_Space property.
pub open spec fn is_blank(c: char) -> bool {
    ('\u{9}' <= c && c <= '\u{d}') || c == ' ' || c == '\u{85}' || c == '\u{a0}'
        || c == '\u{1680}' || ('\u{2000}' <= c && c <= '\u{200a}') || c == '\u{2028}'
        || c == '\u{2029}' || c == '\u{202f}' || c == '\u{205f}' || c == '\u{3000}'
}

pub fn word_char(c: char) -> (r: bool)
    ensures
        r == is_word_char(c),
{
    if (c as u32) < 128 {
        ('a' <= c && c <= 'z') || ('A' <= c && c <= 'Z') || ('0' <= c && c <= '9') || c == '.'
            || c == '_' || c == '-'
    } else {
        is_alphanumeric(c)
    }
}

pub fn blank(c: char) -> (r: bool)
    ensures
        r == is_blank(c),
{
    ('\u{9}' <= c && c <= '\u{d}') || c == ' ' || c == '\u{85}' || c == '\u{a0}'
        || c == '\u{1680}' || ('\u{2000}' <= c && c <= '\u{200a}') || c == '\u{2028}'
        || c == '\u{2029}' || c == '\u{202f}' || c == '\u{205f}' || c == '\u{3000}'
}

} // verus!

verus! {

/// The characters of `text`, in order.
pub(crate) fn chars_of(text: &str) -> (r: Vec<char>)
    ensures
        r@ == text@,
{
    let mut v: Vec<char> = Vec::new();
    for c in it: text.chars()
        invariant
            it.seq() == text@,
            v@ == it.seq().take(it.index() as int),
    {
        v.push(c);
    }
    v
}

/// Relies on `String::push`: appends one character.
#[verifier::external_body]
pub(crate) fn push_char(s: &mut String, c: char)
    ensures
        final(s)@ == old(s)@.push(c),
{
    s.push(c)
}

} // verus!

use vstd::prelude::*;

verus! {

/// Whether a character beyond ASCII has Unicode's `White_Space` property,
/// as `char::is_whitespace` reports it.
pub uninterp spec fn white_space(c: char) -> bool;

/// Whether a character beyond ASCII is alphabetic or numeric in Unicode's
/// sense, as `char::is_alphanumeric` reports it.
pub uninterp spec fn alphabetic_or_numeric(c: char) -> bool;

/// Whether `c` is white space: a space, one of the five control characters
/// from tab to carriage return, or white space beyond ASCII.
pub open spec fn is_whitespace(c: char) -> bool {
    c == ' ' || ('\t' <= c && c <= '\r') || (c > '\x7f' && white_space(c))
}

/// Whether `c` is a letter or a digit: an ASCII letter, an ASCII digit, or
/// alphabetic or numeric beyond ASCII.
pub open spec fn is_alphanumeric(c: char) -> bool {
    ('a' <= c && c <= 'z') || ('A' <= c && c <= 'Z') || ('0' <= c && c <= '9') || (c > '\x7f'
        && alphabetic_or_numeric(c))
}

/// Whether `c` is one of the ten decimal digits.
pub open spec fn is_digit(c: char) -> bool {
    '0' <= c && c <= '9'
}

/// Whether `c` can stand in a word: a letter, a digit or an underscore.
pub open spec fn is_word_char(c: char) -> bool {
    is_alphanumeric(c) || c == '_'
}

/// `char::is_whitespace`. Within ASCII it holds of the space and of the
/// characters from tab to carriage return and of no other; beyond ASCII it
/// is whatever Unicode's table says.
#[verifier::external_body]
pub(crate) fn whitespace(c: char) -> (r: bool)
    ensures
        r == is_whitespace(c),
        c > '\x7f' ==> r == white_space(c),
{
    c.is_whitespace()
}

/// `char::is_alphanumeric`. Within ASCII it holds of the letters and the
/// digits and of no other; beyond ASCII it is whatever Unicode's tables say.
#[verifier::external_body]
pub(crate) fn alphanumeric(c: char) -> (r: bool)
    ensures
        r == is_alphanumeric(c),
        c > '\x7f' ==> r == alphabetic_or_numeric(c),
{
    c.is_alphanumeric()
}

/// `String::push`: appends the character `c` to `text`.
#[verifier::external_body]
pub(crate) fn push_char(text: &mut String, c: char)
    ensures
        final(text)@ == old(text)@.push(c),
{
    text.push(c)
}

/// Tests whether `c` is a decimal digit.
pub fn digit(c: char) -> (r: bool)
    ensures
        r == is_digit(c),
{
    c >= '0' && c <= '9'
}

/// Tests whether `c` can stand in a word.
pub fn word_char(c: char) -> (r: bool)
    ensures
        r == is_word_char(c),
{
    alphanumeric(c) || c == '_'
}

/// Tests whether two texts hold the same characters.
pub fn same_text(a: &str, b: &str) -> (r: bool)
    ensures
        r == (a@ == b@),
{
    let n = a.unicode_len();
    if n != b.unicode_len() {
        return false;
    }
    let mut i: usize = 0;
    while i < n
        invariant
            i <= n,
            n == a@.len(),
            n == b@.len(),
            forall|j: int| 0 <= j < i ==> a@[j] == b@[j],
        decreases n - i,
    {
        if a.get_char(i) != b.get_char(i) {
            return false;
        }
        i += 1;
    }
    assert(a@ =~= b@);
    true
}

} // verus!

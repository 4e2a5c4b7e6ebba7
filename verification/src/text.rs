use vstd::prelude::*;

verus! {

/// Whether `c` is an alphabetic character, as `char::is_alphabetic` decides
/// it by the Unicode property of that name.
pub uninterp spec fn alphabetic(c: char) -> bool;

/// Whether `c` is a numeric character, as `char::is_numeric` decides it by
/// the Unicode categories of numbers.
pub uninterp spec fn numeric(c: char) -> bool;

/// Whether `c` is white space, as `char::is_whitespace` decides it by the
/// Unicode property of that name.
pub uninterp spec fn whitespace(c: char) -> bool;

/// Whether `c` is one of the first 128 characters.
pub open spec fn ascii(c: char) -> bool {
    c <= '\u{7f}'
}

/// Whether `c` is a letter: among the first 128 characters the letters `a`
/// to `z` and `A` to `Z`, beyond them what is alphabetic.
pub open spec fn letter(c: char) -> bool {
    if ascii(c) {
        'a' <= c <= 'z' || 'A' <= c <= 'Z'
    } else {
        alphabetic(c)
    }
}

/// Whether `c` is a numeral: among the first 128 characters the digits `0`
/// to `9`, beyond them what is numeric.
pub open spec fn numeral(c: char) -> bool {
    if ascii(c) {
        '0' <= c <= '9'
    } else {
        numeric(c)
    }
}

/// Whether `c` is a space: among the first 128 characters the space and
/// the five characters from the tabulator to the carriage return, beyond
/// them what is white space.
pub open spec fn space(c: char) -> bool {
    if ascii(c) {
        c == ' ' || '\t' <= c <= '\r'
    } else {
        whitespace(c)
    }
}

/// Calls `char::is_alphabetic`. Trusted: the result is the Unicode property
/// Alphabetic, which among the first 128 characters the letters `a` to `z`
/// and `A` to `Z` have and no other; beyond them it is named `alphabetic`
/// in contracts.
#[verifier::external_body]
pub(crate) fn is_alphabetic(c: char) -> (r: bool)
    ensures
        r == letter(c),
        !ascii(c) ==> r == alphabetic(c),
{
    c.is_alphabetic()
}

/// Calls `char::is_numeric`. Trusted: the result says whether the character
/// is in one of the Unicode categories of numbers, in which among the first
/// 128 characters the digits `0` to `9` are and no other; beyond them it
/// is named `numeric` in contracts.
#[verifier::external_body]
pub(crate) fn is_numeric(c: char) -> (r: bool)
    ensures
        r == numeral(c),
        !ascii(c) ==> r == numeric(c),
{
    c.is_numeric()
}

/// Calls `char::is_alphanumeric`. Trusted: the standard library documents
/// the result as "alphabetic or numeric".
#[verifier::external_body]
pub(crate) fn is_alphanumeric(c: char) -> (r: bool)
    ensures
        r == (letter(c) || numeral(c)),
{
    c.is_alphanumeric()
}

/// Calls `char::is_whitespace`. Trusted: the result is the Unicode property
/// White_Space, which among the first 128 characters the space and the
/// characters from U+0009 to U+000D have and no other; beyond them it is
/// named `whitespace` in contracts.
#[verifier::external_body]
pub(crate) fn is_whitespace(c: char) -> (r: bool)
    ensures
        r == space(c),
        !ascii(c) ==> r == whitespace(c),
{
    c.is_whitespace()
}

/// Calls `String::push`. Trusted: the character is appended at the end and
/// nothing else changes.
#[verifier::external_body]
pub(crate) fn push_char(s: &mut String, c: char)
    ensures
        final(s)@ == old(s)@.push(c),
{
    s.push(c)
}

/// Whether two pieces of text hold the same characters.
pub fn same_text(a: &str, b: &str) -> (r: bool)
    ensures
        r == (a@ == b@),
{
    let n = a.unicode_len();
    if b.unicode_len() != n {
        return false;
    }
    let mut i: usize = 0;
    while i < n
        invariant
            i <= n,
            n == a@.len(),
            n == b@.len(),
            forall|j: int| 0 <= j < i ==> a@[j] == b@[j],
        decreases n - i,
    {
        if a.get_char(i) != b.get_char(i) {
            return false;
        }
        i += 1;
    }
    assert(a@ =~= b@);
    true
}

} // verus!

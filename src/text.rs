//! Conversions between bytes, characters and strings, and the character
//! classes that the extraction rules depend on.

use vstd::prelude::*;
use vstd::utf8::{decode_utf8, valid_utf8};

verus! {

/// Whether `c` has the Unicode `White_Space` property.
pub open spec fn is_white_space(c: char) -> bool {
    ||| ('\u{9}' <= c && c <= '\u{d}')
    ||| c == ' '
    ||| c == '\u{85}'
    ||| c == '\u{a0}'
    ||| c == '\u{1680}'
    ||| ('\u{2000}' <= c && c <= '\u{200a}')
    ||| c == '\u{2028}'
    ||| c == '\u{2029}'
    ||| c == '\u{202f}'
    ||| c == '\u{205f}'
    ||| c == '\u{3000}'
}

/// Relies on `char::is_whitespace`: true exactly for the characters with the
/// Unicode `White_Space` property.
#[verifier::external_body]
pub fn is_whitespace(c: char) -> (r: bool)
    ensures
        r == is_white_space(c),
{
    c.is_whitespace()
}

/// Relies on `String::from_utf8`: succeeds exactly on well-formed UTF-8 and
/// then holds the decoded characters.
#[verifier::external_body]
pub fn decode_utf8_bytes(bytes: Vec<u8>) -> (r: Option<String>)
    ensures
        r is Some <==> valid_utf8(bytes@),
        r is Some ==> r->0@ == decode_utf8(bytes@),
{
    String::from_utf8(bytes).ok()
}

/// Relies on `str::chars`: the characters of `s`, in order.
#[verifier::external_body]
pub fn chars_of(s: &str) -> (r: Vec<char>)
    ensures
        r@ == s@,
{
    s.chars().collect()
}

/// Relies on `String::from_iter` over characters: the string of `cs`, in order.
#[verifier::external_body]
pub fn string_of(cs: &[char]) -> (r: String)
    ensures
        r@ == cs@,
{
    String::from_iter(cs)
}

/// Whether `a` and `b` hold the same characters.
pub fn chars_equal(a: &[char], b: &[char]) -> (r: bool)
    ensures
        r == (a@ == b@),
{
    if a.len() != b.len() {
        return false;
    }
    let mut k: usize = 0;
    while k < a.len()
        invariant
            k <= a@.len(),
            a@.len() == b@.len(),
            forall|j: int| 0 <= j < k ==> a@[j] == b@[j],
        decreases a@.len() - k,
    {
        if a[k] != b[k] {
            return false;
        }
        k = k + 1;
    }
    assert(a@ =~= b@);
    true
}

/// Whether `s` starts with `prefix`.
pub fn starts_with_chars(s: &[char], prefix: &[char]) -> (r: bool)
    ensures
        r == (prefix@.len() <= s@.len() && s@.subrange(0, prefix@.len() as int) == prefix@),
{
    if prefix.len() > s.len() {
        return false;
    }
    let mut k: usize = 0;
    while k < prefix.len()
        invariant
            k <= prefix@.len(),
            prefix@.len() <= s@.len(),
            forall|j: int| 0 <= j < k ==> s@[j] == prefix@[j],
        decreases prefix@.len() - k,
    {
        if s[k] != prefix[k] {
            assert(s@.subrange(0, prefix@.len() as int)[k as int] != prefix@[k as int]);
            return false;
        }
        k = k + 1;
    }
    assert(s@.subrange(0, prefix@.len() as int) =~= prefix@);
    true
}

} // verus!

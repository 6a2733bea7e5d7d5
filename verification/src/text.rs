//! Character classification and small string utilities used by the lexer.
//!
//! Decimal digits and ASCII letters are defined directly.  The full Unicode
//! classes behind `char::is_alphabetic`, `char::is_alphanumeric` and
//! `char::is_whitespace` are tables no contract should restate, so beyond
//! ASCII they are only named.

use vstd::prelude::*;
use vstd::string::StrSliceExecFns;

verus! {

/// A decimal digit: `'0'` through `'9'`.
pub open spec fn is_digit10(c: char) -> bool {
    48 <= c as u32 && c as u32 <= 57
}

/// Executable check for a decimal digit.
pub fn digit10(c: char) -> (r: bool)
    ensures
        r == is_digit10(c),
{
    let u = c as u32;
    48 <= u && u <= 57
}

/// An ASCII letter: `'A'` through `'Z'` or `'a'` through `'z'`.
pub open spec fn is_ascii_letter(c: char) -> bool {
    (65 <= c as u32 && c as u32 <= 90) || (97 <= c as u32 && c as u32 <= 122)
}

/// Whether a character beyond ASCII has Unicode's `Alphabetic` property.
pub uninterp spec fn alphabetic_beyond_ascii(c: char) -> bool;

/// Unicode's `Alphabetic` class: among ASCII characters, exactly the letters.
pub open spec fn is_alphabetic_char(c: char) -> bool {
    if c as u32 <= 127 {
        is_ascii_letter(c)
    } else {
        alphabetic_beyond_ascii(c)
    }
}

/// Relies on `char::is_alphabetic`: true exactly for characters with
/// Unicode's `Alphabetic` property; among ASCII those are the letters.
#[verifier::external_body]
pub fn char_alphabetic(c: char) -> (r: bool)
    ensures
        r == is_alphabetic_char(c),
        c as u32 > 127 ==> r == alphabetic_beyond_ascii(c),
{
    c.is_alphabetic()
}

/// Whether a character beyond ASCII is alphanumeric (Unicode `Alphabetic`
/// or numeric).
pub uninterp spec fn alphanumeric_beyond_ascii(c: char) -> bool;

/// The class of `char::is_alphanumeric`: among ASCII characters, exactly
/// letters and decimal digits.
pub open spec fn is_alphanumeric_char(c: char) -> bool {
    if c as u32 <= 127 {
        is_ascii_letter(c) || is_digit10(c)
    } else {
        alphanumeric_beyond_ascii(c)
    }
}

/// Relies on `char::is_alphanumeric`: true exactly for characters that are
/// alphabetic or numeric in Unicode; among ASCII those are letters and digits.
#[verifier::external_body]
pub fn char_alphanumeric(c: char) -> (r: bool)
    ensures
        r == is_alphanumeric_char(c),
        c as u32 > 127 ==> r == alphanumeric_beyond_ascii(c),
{
    c.is_alphanumeric()
}

/// Whether a character beyond ASCII has Unicode's `White_Space` property.
pub uninterp spec fn whitespace_beyond_ascii(c: char) -> bool;

/// Unicode's `White_Space` class: among ASCII characters, exactly horizontal
/// tab through carriage return (U+0009..U+000D) and the space.
pub open spec fn is_whitespace_char(c: char) -> bool {
    if c as u32 <= 127 {
        (9 <= c as u32 && c as u32 <= 13) || c as u32 == 32
    } else {
        whitespace_beyond_ascii(c)
    }
}

/// Relies on `char::is_whitespace`: true exactly for characters with
/// Unicode's `White_Space` property.
#[verifier::external_body]
pub fn char_whitespace(c: char) -> (r: bool)
    ensures
        r == is_whitespace_char(c),
        c as u32 > 127 ==> r == whitespace_beyond_ascii(c),
{
    c.is_whitespace()
}

/// Relies on `String::push`: appends one character at the end.
#[verifier::external_body]
pub fn push_char(s: &mut String, c: char)
    ensures
        final(s)@ == old(s)@.push(c),
{
    s.push(c)
}

/// Copies the characters of a string slice into a vector.
pub fn str_chars(s: &str) -> (r: Vec<char>)
    ensures
        r@ == s@,
{
    let n = s.unicode_len();
    let mut r: Vec<char> = Vec::new();
    let mut i: usize = 0;
    while i < n
        invariant
            n == s@.len(),
            i <= n,
            r@ == s@.subrange(0, i as int),
        decreases n - i,
    {
        r.push(s.get_char(i));
        proof {
            assert(s@.subrange(0, i + 1) =~= s@.subrange(0, i as int).push(s@[i as int]));
        }
        i = i + 1;
    }
    proof {
        assert(s@.subrange(0, n as int) =~= s@);
    }
    r
}

/// Builds an owned string out of the characters `cs[from..to]`.
pub fn chars_to_string(cs: &Vec<char>, from: usize, to: usize) -> (s: String)
    requires
        from <= to <= cs@.len(),
    ensures
        s@ == cs@.subrange(from as int, to as int),
{
    let mut s = String::new();
    let mut i = from;
    while i < to
        invariant
            from <= i <= to <= cs@.len(),
            s@ == cs@.subrange(from as int, i as int),
        decreases to - i,
    {
        push_char(&mut s, cs[i]);
        proof {
            assert(cs@.subrange(from as int, i + 1) =~= cs@.subrange(
                from as int,
                i as int,
            ).push(cs@[i as int]));
        }
        i = i + 1;
    }
    s
}

/// Compares two string slices character by character.
pub fn str_eq(a: &str, b: &str) -> (r: bool)
    ensures
        r == (a@ == b@),
{
    let na = a.unicode_len();
    let nb = b.unicode_len();
    if na != nb {
        return false;
    }
    let mut i: usize = 0;
    while i < na
        invariant
            na == a@.len(),
            na == b@.len(),
            i <= na,
            forall|k: int| 0 <= k < i ==> a@[k] == b@[k],
        decreases na - i,
    {
        if a.get_char(i) != b.get_char(i) {
            return false;
        }
        i = i + 1;
    }
    proof {
        assert(a@ =~= b@);
    }
    true
}

} // verus!

//! Character-level helpers shared by the serializer and the parser: JSON
//! whitespace, hexadecimal digits, Unicode scalar values, and conversions
//! between `String` and `Vec<char>`.

use vstd::prelude::*;
use vstd::string::StrSliceExecFns;

verus! {

/// JSON insignificant whitespace.
pub open spec fn is_ws(c: char) -> bool {
    c == ' ' || c == '\n' || c == '\t' || c == '\r'
}

/// Executable test for [`is_ws`].
pub fn ws_char(c: char) -> (b: bool)
    ensures
        b == is_ws(c),
{
    c == ' ' || c == '\n' || c == '\t' || c == '\r'
}

/// A hexadecimal digit, upper or lower case.
pub open spec fn is_hex_digit(c: char) -> bool {
    (48 <= c as u32 && c as u32 <= 57) || (97 <= c as u32 && c as u32 <= 102) || (65 <= c as u32
        && c as u32 <= 70)
}

/// The numeric value of a hexadecimal digit.
pub open spec fn hex_val(c: char) -> u32
    recommends
        is_hex_digit(c),
{
    if 48 <= c as u32 && c as u32 <= 57 {
        (c as u32 - 48) as u32
    } else if 97 <= c as u32 && c as u32 <= 102 {
        (c as u32 - 87) as u32
    } else {
        (c as u32 - 55) as u32
    }
}

/// The lower-case hexadecimal digit for a value below sixteen.
pub open spec fn hex_char(d: u32) -> char
    recommends
        d < 16,
{
    if d < 10 {
        (48 + d) as char
    } else {
        (87 + d) as char
    }
}

/// Executable test for [`is_hex_digit`].
pub fn hex_digit_char(c: char) -> (b: bool)
    ensures
        b == is_hex_digit(c),
{
    let u = c as u32;
    (48 <= u && u <= 57) || (97 <= u && u <= 102) || (65 <= u && u <= 70)
}

/// Executable version of [`hex_val`].
pub fn hex_value(c: char) -> (v: u32)
    requires
        is_hex_digit(c),
    ensures
        v == hex_val(c),
        v < 16,
{
    let u = c as u32;
    if 48 <= u && u <= 57 {
        u - 48
    } else if 97 <= u && u <= 102 {
        u - 87
    } else {
        u - 55
    }
}

/// Executable version of [`hex_char`].
pub fn hex_char_of(d: u32) -> (c: char)
    requires
        d < 16,
    ensures
        c == hex_char(d),
{
    if d < 10 {
        ((48 + d) as u8) as char
    } else {
        ((87 + d) as u8) as char
    }
}

/// A value below sixteen round-trips through its hexadecimal digit.
pub proof fn lemma_hex_digit_round_trip(d: u32)
    requires
        d < 16,
    ensures
        is_hex_digit(hex_char(d)),
        hex_val(hex_char(d)) == d,
{
}

/// A Unicode scalar value: a code point that is not a surrogate.
pub open spec fn is_scalar_value(v: u32) -> bool {
    v < 0xD800 || (0xDFFF < v && v <= 0x10FFFF)
}

/// Relies on char::from_u32: it returns Some exactly when the argument is a
/// Unicode scalar value, and the resulting char has that code point.
#[verifier::external_body]
pub fn char_from_u32(v: u32) -> (r: Option<char>)
    ensures
        match r {
            Some(c) => is_scalar_value(v) && c as u32 == v,
            None => !is_scalar_value(v),
        },
{
    char::from_u32(v)
}

/// Relies on String::push: it appends the given character to the end of the
/// string and changes nothing else.
#[verifier::external_body]
pub fn push_char(s: &mut String, c: char)
    ensures
        final(s)@ == old(s)@.push(c),
{
    s.push(c)
}

/// Copies the characters of a string slice into a vector.
pub fn str_to_chars(s: &str) -> (r: Vec<char>)
    ensures
        r@ == s@,
{
    let n: usize = s.unicode_len();
    let mut v: Vec<char> = Vec::new();
    let mut i: usize = 0;
    assert(v@ =~= s@.subrange(0, 0));
    while i < n
        invariant
            i <= n,
            n == s@.len(),
            v@ == s@.subrange(0, i as int),
        decreases n - i,
    {
        let c = s.get_char(i);
        v.push(c);
        assert(v@ =~= s@.subrange(0, i + 1));
        i = i + 1;
    }
    assert(v@ =~= s@);
    v
}

/// Collects a vector of characters into a String.
pub fn chars_to_string(v: &Vec<char>) -> (r: String)
    ensures
        r@ == v@,
{
    let mut s = String::new();
    let mut i: usize = 0;
    assert(s@ =~= v@.subrange(0, 0));
    while i < v.len()
        invariant
            i <= v@.len(),
            s@ == v@.subrange(0, i as int),
        decreases v@.len() - i,
    {
        push_char(&mut s, v[i]);
        assert(s@ =~= v@.subrange(0, i + 1));
        i = i + 1;
    }
    assert(s@ =~= v@);
    s
}

} // verus!

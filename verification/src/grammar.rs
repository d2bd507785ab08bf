//! What a complete JSON value is, byte by byte.
use vstd::prelude::*;

verus! {

pub open spec fn is_space(b: u8) -> bool {
    b == 0x20 || b == 0x09 || b == 0x0A || b == 0x0D
}

/// The bytes of `true`.
pub open spec fn true_bytes() -> Seq<u8> {
    seq![0x74u8, 0x72u8, 0x75u8, 0x65u8]
}

/// The bytes of `false`.
pub open spec fn false_bytes() -> Seq<u8> {
    seq![0x66u8, 0x61u8, 0x6Cu8, 0x73u8, 0x65u8]
}

/// The bytes of `null`.
pub open spec fn null_bytes() -> Seq<u8> {
    seq![0x6Eu8, 0x75u8, 0x6Cu8, 0x6Cu8]
}

/// Whether every byte is white space.
pub open spec fn is_blank(s: Seq<u8>) -> bool {
    forall|i: int| 0 <= i < s.len() ==> is_space(#[trigger] s[i])
}

pub open spec fn is_digit(b: u8) -> bool {
    0x30 <= b <= 0x39
}

pub open spec fn is_hex_digit(b: u8) -> bool {
    is_digit(b) || 0x41 <= b <= 0x46 || 0x61 <= b <= 0x66
}

/// Whether every byte is a digit, and there is one.
pub open spec fn all_digits(s: Seq<u8>) -> bool {
    s.len() > 0 && forall|i: int| 0 <= i < s.len() ==> is_digit(#[trigger] s[i])
}

/// Digits without a leading zero.
pub open spec fn is_whole_number(s: Seq<u8>) -> bool {
    all_digits(s) && (s.len() > 1 ==> s[0] != 0x30)
}

/// A point and digits.
pub open spec fn is_fraction(s: Seq<u8>) -> bool {
    s.len() > 0 && s[0] == 0x2E && all_digits(s.skip(1))
}

/// The letter `e` in either case, a sign or none, and digits.
pub open spec fn is_exponent(s: Seq<u8>) -> bool {
    &&& s.len() > 1
    &&& s[0] == 0x65 || s[0] == 0x45
    &&& all_digits(s.skip(1)) || ((s[1] == 0x2B || s[1] == 0x2D) && all_digits(s.skip(2)))
}

/// A sign or none up to `i`, digits up to `j`, a fraction or none up to `k`,
/// an exponent or none.
pub open spec fn number_parts(s: Seq<u8>, i: int, j: int, k: int) -> bool {
    &&& 0 <= i <= j <= k <= s.len()
    &&& i == 0 || s.take(i) == seq![0x2Du8]
    &&& is_whole_number(s.subrange(i, j))
    &&& j == k || is_fraction(s.subrange(j, k))
    &&& k == s.len() || is_exponent(s.skip(k))
}

/// A number.
pub open spec fn is_number(s: Seq<u8>) -> bool {
    exists|i: int, j: int, k: int| number_parts(s, i, j, k)
}

/// What may stand between the quotes of a string: bytes that need no escape,
/// and escapes.
pub open spec fn is_string_content(s: Seq<u8>) -> bool
    decreases s.len(),
{
    if s.len() == 0 {
        true
    } else if s[0] == 0x5C {
        if s.len() >= 6 && s[1] == 0x75 {
            &&& is_hex_digit(s[2]) && is_hex_digit(s[3]) && is_hex_digit(s[4]) && is_hex_digit(s[5])
            &&& is_string_content(s.skip(6))
        } else {
            &&& s.len() >= 2
            &&& s[1] == 0x22 || s[1] == 0x5C || s[1] == 0x2F || s[1] == 0x62 || s[1] == 0x66
                || s[1] == 0x6E || s[1] == 0x72 || s[1] == 0x74
            &&& is_string_content(s.skip(2))
        }
    } else {
        s[0] >= 0x20 && s[0] != 0x22 && is_string_content(s.skip(1))
    }
}

/// A string, in its quotes.
pub open spec fn is_text(s: Seq<u8>) -> bool {
    s.len() >= 2 && s[0] == 0x22 && s.last() == 0x22 && is_string_content(s.subrange(1, s.len() - 1))
}

/// A complete JSON value: a literal, a number, a string, an array or an
/// object, from its first byte to its last.
pub open spec fn is_value(s: Seq<u8>) -> bool
    decreases s.len(), 0int,
{
    ||| s == true_bytes()
    ||| s == false_bytes()
    ||| s == null_bytes()
    ||| is_number(s)
    ||| is_text(s)
    ||| s.len() >= 2 && s[0] == 0x5B && s.last() == 0x5D && (is_blank(s.subrange(1, s.len() - 1))
        || is_items(s.subrange(1, s.len() - 1)))
    ||| s.len() >= 2 && s[0] == 0x7B && s.last() == 0x7D && (is_blank(s.subrange(1, s.len() - 1))
        || is_members(s.subrange(1, s.len() - 1)))
}

/// A value with white space around it.
pub open spec fn is_padded(s: Seq<u8>) -> bool
    decreases s.len(), 1int,
{
    exists|i: int, j: int|
        {
            &&& 0 <= i <= j <= s.len()
            &&& is_blank(s.take(i))
            &&& is_blank(s.skip(j))
            &&& is_value(#[trigger] s.subrange(i, j))
        }
}

/// Padded values, with commas between.
pub open spec fn is_items(s: Seq<u8>) -> bool
    decreases s.len(), 2int,
{
    is_padded(s) || exists|k: int|
        {
            &&& 0 <= k < s.len()
            &&& #[trigger] s[k] == 0x2C
            &&& is_padded(s.take(k))
            &&& is_items(s.skip(k + 1))
        }
}

/// A string with white space around it.
pub open spec fn is_padded_text(s: Seq<u8>) -> bool {
    exists|i: int, j: int|
        {
            &&& 0 <= i <= j <= s.len()
            &&& is_blank(s.take(i))
            &&& is_blank(s.skip(j))
            &&& is_text(#[trigger] s.subrange(i, j))
        }
}

/// A name, a colon and a value.
pub open spec fn is_member(s: Seq<u8>) -> bool
    decreases s.len(), 1int,
{
    exists|k: int|
        {
            &&& 0 <= k < s.len()
            &&& #[trigger] s[k] == 0x3A
            &&& is_padded_text(s.take(k))
            &&& is_padded(s.skip(k + 1))
        }
}

/// Members, with commas between.
pub open spec fn is_members(s: Seq<u8>) -> bool
    decreases s.len(), 2int,
{
    is_member(s) || exists|k: int|
        {
            &&& 0 <= k < s.len()
            &&& #[trigger] s[k] == 0x2C
            &&& is_member(s.take(k))
            &&& is_members(s.skip(k + 1))
        }
}

} // verus!

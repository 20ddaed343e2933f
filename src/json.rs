//! Reading argument values from tokens with serde_json.

use vstd::prelude::*;

use crate::text::{has_no_ws, is_ascii_ws};

verus! {

pub open spec fn is_digit(c: char) -> bool {
    '0' <= c && c <= '9'
}

pub open spec fn digit_value(c: char) -> int {
    (c as u32) as int - ('0' as u32) as int
}

/// The value of a run of decimal digits, most significant first.
pub open spec fn digits_value(s: Seq<char>) -> int
    decreases s.len(),
{
    if s.len() == 0 {
        0
    } else {
        digits_value(s.drop_last()) * 10 + digit_value(s.last())
    }
}

/// Decimal digits with no superfluous leading zero.
pub open spec fn is_plain_digits(s: Seq<char>) -> bool {
    &&& s.len() > 0
    &&& forall|i: int| 0 <= i < s.len() ==> is_digit(#[trigger] s[i])
    &&& (s[0] == '0' ==> s.len() == 1)
}

/// The integer that `s` writes as a JSON integer literal: an optional minus
/// sign and plain digits. A negative zero is not an integer to serde_json.
pub open spec fn json_integer(s: Seq<char>) -> Option<int> {
    if s.len() > 0 && s[0] == '-' && is_plain_digits(s.drop_first()) && digits_value(
        s.drop_first(),
    ) != 0 {
        Some(-digits_value(s.drop_first()))
    } else if is_plain_digits(s) {
        Some(digits_value(s))
    } else {
        None
    }
}

/// The value of `s` as an `i32`, if it is a JSON integer in range.
pub open spec fn json_i32(s: Seq<char>) -> Option<i32> {
    match json_integer(s) {
        Some(n) => if i32::MIN <= n <= i32::MAX {
            Some(n as i32)
        } else {
            None
        },
        None => None,
    }
}

/// The value of `s` as an `i64`, if it is a JSON integer in range.
pub open spec fn json_i64(s: Seq<char>) -> Option<i64> {
    match json_integer(s) {
        Some(n) => if i64::MIN <= n <= i64::MAX {
            Some(n as i64)
        } else {
            None
        },
        None => None,
    }
}

/// The value of `s` as a JSON boolean literal.
pub open spec fn json_bool(s: Seq<char>) -> Option<bool> {
    if s == seq!['t', 'r', 'u', 'e'] {
        Some(true)
    } else if s == seq!['f', 'a', 'l', 's', 'e'] {
        Some(false)
    } else {
        None
    }
}

/// Whether serde_json reads `s` as a JSON number that fits a finite `f64`.
pub uninterp spec fn json_number_accepted(s: Seq<char>) -> bool;

/// Relies on `serde_json::from_str::<i32>`: a JSON integer literal in range
/// is read as its value; anything else (a fraction, an exponent, a leading
/// zero, `-0`, trailing text, a value out of range) is an error. Whitespace,
/// which serde_json would skip, is left out by `requires`.
#[verifier::external_body]
pub(crate) fn parse_i32(s: &str) -> (r: Option<i32>)
    requires
        has_no_ws(s@),
    ensures
        r == json_i32(s@),
{
    serde_json::from_str::<i32>(s).ok()
}

/// Relies on `serde_json::from_str::<i64>`, as `parse_i32` does on `i32`.
#[verifier::external_body]
pub(crate) fn parse_i64(s: &str) -> (r: Option<i64>)
    requires
        has_no_ws(s@),
    ensures
        r == json_i64(s@),
{
    serde_json::from_str::<i64>(s).ok()
}

/// Relies on `serde_json::from_str::<bool>`: exactly `true` and `false`.
#[verifier::external_body]
pub(crate) fn parse_bool(s: &str) -> (r: Option<bool>)
    requires
        has_no_ws(s@),
    ensures
        r == json_bool(s@),
{
    serde_json::from_str::<bool>(s).ok()
}

/// Relies on `serde_json::from_str::<serde_json::Number>`, which accepts
/// the same texts as serde_json's reading of a float.
#[verifier::external_body]
pub(crate) fn accepts_number(s: &str) -> (r: bool)
    ensures
        r == json_number_accepted(s@),
{
    serde_json::from_str::<serde_json::Number>(s).is_ok()
}

} // verus!

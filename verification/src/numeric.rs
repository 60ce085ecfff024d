//! IEEE-754 binary64 numbers, carried as their 64-bit encodings.
//!
//! Runtime numbers are doubles. Verified code never touches a native float:
//! a number is its bit pattern (a `u64`), and the arithmetic, ordering and
//! decimal parsing of doubles are delegated to `rustc_apfloat`'s software
//! implementation of IEEE-754, behind the trusted wrappers below. Each
//! operation is deterministic in its arguments; where a few lines can
//! state its result over the encodings (equality and ordering), they
//! do, and the rest (rounded arithmetic, decimal parsing) is given a name
//! (an uninterpreted spec function) that contracts elsewhere build on.
//! Negation is the one operation done here directly: IEEE-754 negation
//! flips the sign bit and nothing else.

use vstd::prelude::*;
use rustc_apfloat::Float;
use rustc_apfloat::ieee::Double;

verus! {

/// The sign bit of a binary64 encoding.
pub const SIGN_BIT: u64 = 0x8000_0000_0000_0000;

/// The bits of the double that is the IEEE-754 sum of the doubles
/// encoded by `a` and `b`, rounding to nearest, ties to even.
pub uninterp spec fn ieee_add(a: u64, b: u64) -> u64;

/// The bits of the IEEE-754 difference of the doubles `a` and `b` encode.
pub uninterp spec fn ieee_sub(a: u64, b: u64) -> u64;

/// The bits of the IEEE-754 product of the doubles `a` and `b` encode.
pub uninterp spec fn ieee_mul(a: u64, b: u64) -> u64;

/// The bits of the IEEE-754 quotient of the doubles `a` and `b` encode.
/// Division by zero yields an infinity or NaN, never an error.
pub uninterp spec fn ieee_div(a: u64, b: u64) -> u64;

/// A binary64 encoding read as a signed sign-magnitude key: for a fixed
/// sign the encoding is monotone in the value, so two non-NaN doubles
/// order exactly as their keys do, with both zeros at key `0`.
pub open spec fn order_key(a: u64) -> int {
    if a & 0x8000_0000_0000_0000 == 0 {
        (a & 0x7fff_ffff_ffff_ffff) as int
    } else {
        -((a & 0x7fff_ffff_ffff_ffff) as int)
    }
}

/// Whether the double encoded by `a` is IEEE-754 less than the one
/// encoded by `b`. False whenever either is NaN.
pub open spec fn ieee_lt(a: u64, b: u64) -> bool {
    !is_nan_bits(a) && !is_nan_bits(b) && order_key(a) < order_key(b)
}

/// Whether the double encoded by `a` is IEEE-754 less than or equal to
/// the one encoded by `b`. False whenever either is NaN.
pub open spec fn ieee_le(a: u64, b: u64) -> bool {
    !is_nan_bits(a) && !is_nan_bits(b) && order_key(a) <= order_key(b)
}

/// A NaN encoding: exponent bits all ones and a nonzero fraction.
pub open spec fn is_nan_bits(a: u64) -> bool {
    (a & 0x7fff_ffff_ffff_ffff) > 0x7ff0_0000_0000_0000
}

/// A zero encoding: every bit but possibly the sign is clear.
pub open spec fn is_zero_bits(a: u64) -> bool {
    (a & 0x7fff_ffff_ffff_ffff) == 0
}

/// IEEE-754 equality of two binary64 encodings: NaN equals nothing, the
/// two zeros equal each other, and every other double equals exactly
/// its own encoding, which is canonical.
pub open spec fn ieee_eq(a: u64, b: u64) -> bool {
    !is_nan_bits(a) && !is_nan_bits(b) && (a == b || (is_zero_bits(a) && is_zero_bits(b)))
}

/// The bits of the double nearest to the decimal numeral `s`
/// (ties to even), for `s` a numeral in the sense of [`is_numeral`].
pub uninterp spec fn ieee_of_decimal(s: Seq<u8>) -> u64;

/// An ASCII decimal digit.
pub open spec fn is_digit(b: u8) -> bool {
    48 <= b <= 57
}

/// The numeral shapes the evaluator accepts: a leading digit, then digits
/// and dots, with at most one dot in all. This is exactly the subset of
/// the lexer's number-token texts that parse as a floating-point literal.
pub open spec fn is_numeral(s: Seq<u8>) -> bool {
    &&& s.len() > 0
    &&& is_digit(s[0])
    &&& forall|i: int| 0 <= i < s.len() ==> is_digit(#[trigger] s[i]) || s[i] == 46
    &&& forall|i: int, j: int|
        0 <= i < j < s.len() ==> !(#[trigger] s[i] == 46 && #[trigger] s[j] == 46)
}

/// Relies on `rustc_apfloat::ieee::Double`'s `core::ops::Add` impl:
/// IEEE-754 binary64 addition, rounding to nearest, ties to even.
#[verifier::external_body]
pub fn add_bits(a: u64, b: u64) -> (r: u64)
    ensures
        r == ieee_add(a, b),
{
    let x = Double::from_bits(a as u128);
    let y = Double::from_bits(b as u128);
    (x + y).value.to_bits() as u64
}

/// Relies on `rustc_apfloat::ieee::Double`'s `core::ops::Sub` impl:
/// IEEE-754 binary64 subtraction, rounding to nearest, ties to even.
#[verifier::external_body]
pub fn sub_bits(a: u64, b: u64) -> (r: u64)
    ensures
        r == ieee_sub(a, b),
{
    let x = Double::from_bits(a as u128);
    let y = Double::from_bits(b as u128);
    (x - y).value.to_bits() as u64
}

/// Relies on `rustc_apfloat::ieee::Double`'s `core::ops::Mul` impl:
/// IEEE-754 binary64 multiplication, rounding to nearest, ties to even.
#[verifier::external_body]
pub fn mul_bits(a: u64, b: u64) -> (r: u64)
    ensures
        r == ieee_mul(a, b),
{
    let x = Double::from_bits(a as u128);
    let y = Double::from_bits(b as u128);
    (x * y).value.to_bits() as u64
}

/// Relies on `rustc_apfloat::ieee::Double`'s `core::ops::Div` impl:
/// IEEE-754 binary64 division, rounding to nearest, ties to even.
#[verifier::external_body]
pub fn div_bits(a: u64, b: u64) -> (r: u64)
    ensures
        r == ieee_div(a, b),
{
    let x = Double::from_bits(a as u128);
    let y = Double::from_bits(b as u128);
    (x / y).value.to_bits() as u64
}

/// Relies on `rustc_apfloat::ieee::Double`'s `PartialOrd` impl, the
/// IEEE-754 ordering — exactly [`ieee_lt`] of the encodings: NaN is
/// unordered, zeros tie, and otherwise sign first, then magnitude.
#[verifier::external_body]
pub fn lt_bits(a: u64, b: u64) -> (r: bool)
    ensures
        r == ieee_lt(a, b),
{
    Double::from_bits(a as u128) < Double::from_bits(b as u128)
}

/// Relies on `rustc_apfloat::ieee::Double`'s `PartialOrd` impl, the
/// IEEE-754 ordering — exactly [`ieee_le`] of the encodings: NaN is
/// unordered, zeros tie, and otherwise sign first, then magnitude.
#[verifier::external_body]
pub fn le_bits(a: u64, b: u64) -> (r: bool)
    ensures
        r == ieee_le(a, b),
{
    Double::from_bits(a as u128) <= Double::from_bits(b as u128)
}

/// Relies on `rustc_apfloat::ieee::Double`'s `PartialEq` impl, which is
/// IEEE-754 equality — exactly [`ieee_eq`] of the encodings: its
/// `partial_cmp` answers `Equal` for two zeros, for no NaN, and
/// otherwise only for equal canonical encodings.
#[verifier::external_body]
pub fn eq_bits(a: u64, b: u64) -> (r: bool)
    ensures
        r == ieee_eq(a, b),
{
    Double::from_bits(a as u128) == Double::from_bits(b as u128)
}

/// Relies on `rustc_apfloat::ieee::Double`'s `FromStr` impl
/// (`from_str_r`, reached through `from_decimal_string`): a string of
/// decimal digits with at most one dot parses to the nearest binary64
/// value, rounding ties to even, exactly as a floating-point literal does.
#[verifier::external_body]
pub fn decimal_to_bits(s: &[u8]) -> (r: u64)
    requires
        is_numeral(s@),
    ensures
        r == ieee_of_decimal(s@),
{
    let text = core::str::from_utf8(s).unwrap();
    let d: Double = text.parse().unwrap();
    d.to_bits() as u64
}

/// IEEE-754 negation: the sign bit flips and nothing else changes.
pub fn neg_bits(a: u64) -> (r: u64)
    ensures
        r == (a ^ SIGN_BIT),
{
    a ^ SIGN_BIT
}

} // verus!

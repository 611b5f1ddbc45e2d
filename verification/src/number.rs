//! Double-precision numbers, carried as IEEE-754 binary64 bit patterns.
//!
//! Sign handling and comparison are decided here from the bits. Rounding
//! arithmetic and decimal conversion are delegated to `rustc_apfloat`.
use rustc_apfloat::ieee::Double;
use rustc_apfloat::Float;
use vstd::prelude::*;

verus! {

/// The bit that holds the sign of a double.
pub const SIGN_BIT: u64 = 0x8000_0000_0000_0000;

/// The bit pattern of positive infinity; every larger magnitude is a NaN.
pub const INFINITY_BITS: u64 = 0x7ff0_0000_0000_0000;

/// The bits of `bits` without its sign.
pub open spec fn magnitude(bits: u64) -> int {
    if bits >= SIGN_BIT {
        bits - SIGN_BIT
    } else {
        bits as int
    }
}

/// Whether the sign bit of `bits` is set.
pub open spec fn sign_is_set(bits: u64) -> bool {
    bits >= SIGN_BIT
}

/// Whether `bits` encodes a NaN.
pub open spec fn nan(bits: u64) -> bool {
    magnitude(bits) > INFINITY_BITS
}

/// Position of a non-NaN double on the number line: doubles are stored as
/// sign and magnitude, so the order of two of them is the order of their
/// signed magnitudes. Both zeros sit at 0.
pub open spec fn ordinal(bits: u64) -> int {
    if sign_is_set(bits) {
        -magnitude(bits)
    } else {
        magnitude(bits)
    }
}

/// `bits` with its sign flipped, which is what negation does to a double,
/// NaN included.
pub open spec fn negated(bits: u64) -> u64 {
    if bits >= SIGN_BIT {
        (bits - SIGN_BIT) as u64
    } else {
        (bits + SIGN_BIT) as u64
    }
}

/// IEEE-754 `==`: false as soon as one side is a NaN, and the two zeros are
/// equal.
pub open spec fn equal_numbers(a: u64, b: u64) -> bool {
    !nan(a) && !nan(b) && ordinal(a) == ordinal(b)
}

/// IEEE-754 `<`: false as soon as one side is a NaN.
pub open spec fn less_than(a: u64, b: u64) -> bool {
    !nan(a) && !nan(b) && ordinal(a) < ordinal(b)
}

/// The double that `a + b` rounds to.
pub uninterp spec fn ieee_sum(a: u64, b: u64) -> u64;

/// The double that `a - b` rounds to.
pub uninterp spec fn ieee_difference(a: u64, b: u64) -> u64;

/// The double that `a * b` rounds to.
pub uninterp spec fn ieee_product(a: u64, b: u64) -> u64;

/// The double that `a / b` rounds to.
pub uninterp spec fn ieee_quotient(a: u64, b: u64) -> u64;

/// The double that the decimal literal `text` denotes, if it denotes one.
pub uninterp spec fn ieee_parse(text: Seq<char>) -> Option<u64>;

/// Calls `Double + Double` of `rustc_apfloat`, which rounds to nearest,
/// ties to even, on the doubles that `Float::from_bits` makes of the two
/// bit patterns, and gives the bits of the sum as `Float::to_bits` does.
/// Trusted: the result is a function of the operands alone, named
/// `ieee_sum`.
#[verifier::external_body]
pub(crate) fn sum_of(a: u64, b: u64) -> (r: u64)
    ensures
        r == ieee_sum(a, b),
{
    (Double::from_bits(a as u128) + Double::from_bits(b as u128)).value.to_bits() as u64
}

/// Calls `Double - Double` of `rustc_apfloat`, which rounds to nearest,
/// ties to even, on the doubles that `Float::from_bits` makes of the two
/// bit patterns, and gives the bits of the difference as `Float::to_bits`
/// does. Trusted: the result is a function of the operands alone, named
/// `ieee_difference`.
#[verifier::external_body]
pub(crate) fn difference_of(a: u64, b: u64) -> (r: u64)
    ensures
        r == ieee_difference(a, b),
{
    (Double::from_bits(a as u128) - Double::from_bits(b as u128)).value.to_bits() as u64
}

/// Calls `Double * Double` of `rustc_apfloat`, which rounds to nearest,
/// ties to even, on the doubles that `Float::from_bits` makes of the two
/// bit patterns, and gives the bits of the product as `Float::to_bits`
/// does. Trusted: the result is a function of the operands alone, named
/// `ieee_product`.
#[verifier::external_body]
pub(crate) fn product_of(a: u64, b: u64) -> (r: u64)
    ensures
        r == ieee_product(a, b),
{
    (Double::from_bits(a as u128) * Double::from_bits(b as u128)).value.to_bits() as u64
}

/// Calls `Double / Double` of `rustc_apfloat`, which rounds to nearest,
/// ties to even, on the doubles that `Float::from_bits` makes of the two
/// bit patterns, and gives the bits of the quotient as `Float::to_bits`
/// does; a zero divisor is no failure. Trusted: the result is a function of
/// the operands alone, named `ieee_quotient`.
#[verifier::external_body]
pub(crate) fn quotient_of(a: u64, b: u64) -> (r: u64)
    ensures
        r == ieee_quotient(a, b),
{
    (Double::from_bits(a as u128) / Double::from_bits(b as u128)).value.to_bits() as u64
}

/// Calls `<Double as FromStr>::from_str` of `rustc_apfloat`, which rounds
/// to nearest, ties to even, and rejects text that it cannot read; the
/// double is given by its bits, as `Float::to_bits` gives them. Trusted:
/// whether it succeeds, and with which double, is a function of the text
/// alone, named `ieee_parse`.
#[verifier::external_body]
pub(crate) fn parse_decimal(text: &str) -> (r: Option<u64>)
    ensures
        r == ieee_parse(text@),
{
    match text.parse::<Double>() {
        Ok(value) => Some(value.to_bits() as u64),
        Err(_) => None,
    }
}

/// Whether `bits` encodes a NaN.
pub fn is_nan(bits: u64) -> (r: bool)
    ensures
        r == nan(bits),
{
    let magnitude: u64 = if bits >= SIGN_BIT {
        bits - SIGN_BIT
    } else {
        bits
    };
    magnitude > INFINITY_BITS
}

/// Negates a double by flipping its sign bit.
pub fn negate(bits: u64) -> (r: u64)
    ensures
        r == negated(bits),
{
    if bits >= SIGN_BIT {
        bits - SIGN_BIT
    } else {
        bits + SIGN_BIT
    }
}

/// IEEE-754 `==` on two doubles.
pub fn equal(a: u64, b: u64) -> (r: bool)
    ensures
        r == equal_numbers(a, b),
{
    if is_nan(a) || is_nan(b) {
        false
    } else if a == b {
        true
    } else {
        // Distinct patterns are equal only when both are zeros.
        (a == 0 || a == SIGN_BIT) && (b == 0 || b == SIGN_BIT)
    }
}

/// IEEE-754 `<` on two doubles.
pub fn less(a: u64, b: u64) -> (r: bool)
    ensures
        r == less_than(a, b),
{
    if is_nan(a) || is_nan(b) {
        false
    } else if a >= SIGN_BIT {
        if b >= SIGN_BIT {
            // Both negative: the larger magnitude is the smaller number.
            a > b
        } else {
            // A negative number is below a positive one, unless both are zero.
            a > SIGN_BIT || b > 0
        }
    } else {
        b < SIGN_BIT && a < b
    }
}

/// IEEE-754 `>` on two doubles.
pub fn greater(a: u64, b: u64) -> (r: bool)
    ensures
        r == less_than(b, a),
{
    less(b, a)
}

} // verus!

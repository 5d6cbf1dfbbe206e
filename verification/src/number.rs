//! Arithmetic, comparison, parsing and rendering of the language's 64-bit
//! binary floating-point numbers.
//!
//! Verified code carries a number as the 64 bits of its IEEE-754 encoding.
//! The operations themselves are performed by `rustc_apfloat`, a pure-integer
//! implementation of IEEE-754 binary64 arithmetic, behind trusted wrappers.
//! Each operation's result is named by an uninterpreted spec function of the
//! operand bits alone; negation is the one operation simple enough to state
//! and verify directly (it flips the sign bit).

use vstd::prelude::*;
use vstd::string::StringExecFns;

use rustc_apfloat::Float;
use rustc_apfloat::ieee::Double;

verus! {

/// The sum of the two numbers encoded by the operand bits, rounding to
/// nearest, ties to even.
pub uninterp spec fn add_bits(a: u64, b: u64) -> u64;

/// The difference of the two numbers encoded by the operand bits.
pub uninterp spec fn sub_bits(a: u64, b: u64) -> u64;

/// The product of the two numbers encoded by the operand bits.
pub uninterp spec fn mul_bits(a: u64, b: u64) -> u64;

/// The quotient of the two numbers encoded by the operand bits.
pub uninterp spec fn div_bits(a: u64, b: u64) -> u64;

/// Whether the number encoded by `a` is less than the one encoded by `b`
/// (false when either is a not-a-number value).
pub uninterp spec fn lt_bits(a: u64, b: u64) -> bool;

/// Whether the number encoded by `a` is less than or equal to the one
/// encoded by `b`.
pub uninterp spec fn le_bits(a: u64, b: u64) -> bool;

/// Whether the number encoded by `a` is greater than the one encoded by `b`.
pub uninterp spec fn gt_bits(a: u64, b: u64) -> bool;

/// Whether the number encoded by `a` is greater than or equal to the one
/// encoded by `b`.
pub uninterp spec fn ge_bits(a: u64, b: u64) -> bool;

/// IEEE-754 equality of the numbers encoded by the operand bits: not
/// bitwise (positive and negative zero are equal, not-a-number values are
/// unequal to everything, themselves included).
pub uninterp spec fn eq_bits(a: u64, b: u64) -> bool;

/// The number encoded by a numeric lexeme, rounding to nearest, ties to
/// even; `None` where the text is not a valid decimal number.
pub uninterp spec fn number_of_lexeme(s: Seq<char>) -> Option<u64>;

/// The decimal rendering of the number encoded by the given bits, to the
/// given number of significant digits, trailing zeros dropped, in plain
/// positional notation (no exponent).
pub uninterp spec fn number_digits(bits: u64, digits: usize) -> Seq<char>;

/// The exponent field of the encoding: all ones on an infinity or a
/// not-a-number value, and only there.
pub open spec fn exponent_field(bits: u64) -> u64 {
    (bits >> 52) & 0x7ff
}

/// The fraction field of the encoding.
pub open spec fn fraction_field(bits: u64) -> u64 {
    bits & 0x000f_ffff_ffff_ffff
}

/// Whether the encoded value is finite: neither an infinity nor a
/// not-a-number value.
pub open spec fn is_finite_bits(bits: u64) -> bool {
    exponent_field(bits) != 0x7ff
}

/// The decimal rendering of a finite number from `digits` significant
/// digits upwards: the shortest rendering that parses back to the same
/// bits, or the full-precision rendering where none does.
pub open spec fn number_text_from(bits: u64, digits: int) -> Seq<char>
    decreases 17 - digits,
{
    if digits >= 17 {
        number_digits(bits, 17)
    } else if number_of_lexeme(number_digits(bits, digits as usize)) == Some(bits) {
        number_digits(bits, digits as usize)
    } else {
        number_text_from(bits, digits + 1)
    }
}

/// The decimal rendering of the number encoded by the given bits: `inf`,
/// `-inf` or `NaN` for the non-finite encodings, otherwise the shortest
/// decimal that reads back as the same number. One deliberate deviation
/// from the positional form a host float's display would give: for
/// magnitudes whose positional spelling needs more places than their
/// significant digits (about `1e17` and beyond), the renderer keeps the
/// scientific form the soft-float library produces (`1.0E+21`), since
/// reshaping it would mean reimplementing binary-to-decimal conversion
/// here.
pub open spec fn number_text(bits: u64) -> Seq<char> {
    if exponent_field(bits) == 0x7ff {
        if fraction_field(bits) != 0 {
            "NaN"@
        } else if bits & 0x8000_0000_0000_0000 != 0 {
            "-inf"@
        } else {
            "inf"@
        }
    } else {
        number_text_from(bits, 1)
    }
}

/// The bits of the negated number: IEEE-754 negation flips the sign bit
/// and changes nothing else.
pub open spec fn neg_bits(a: u64) -> u64 {
    a ^ 0x8000_0000_0000_0000
}

/// Relies on `rustc_apfloat::ieee::Double`'s `Add`: IEEE-754 binary64
/// addition, rounding to nearest, ties to even.
#[verifier::external_body]
pub(crate) fn add_numbers(a: u64, b: u64) -> (r: u64)
    ensures
        r == add_bits(a, b),
{
    (Double::from_bits(a as u128) + Double::from_bits(b as u128)).value.to_bits() as u64
}

/// Relies on `rustc_apfloat::ieee::Double`'s `Sub`: IEEE-754 binary64
/// subtraction, rounding to nearest, ties to even.
#[verifier::external_body]
pub(crate) fn sub_numbers(a: u64, b: u64) -> (r: u64)
    ensures
        r == sub_bits(a, b),
{
    (Double::from_bits(a as u128) - Double::from_bits(b as u128)).value.to_bits() as u64
}

/// Relies on `rustc_apfloat::ieee::Double`'s `Mul`: IEEE-754 binary64
/// multiplication, rounding to nearest, ties to even.
#[verifier::external_body]
pub(crate) fn mul_numbers(a: u64, b: u64) -> (r: u64)
    ensures
        r == mul_bits(a, b),
{
    (Double::from_bits(a as u128) * Double::from_bits(b as u128)).value.to_bits() as u64
}

/// Relies on `rustc_apfloat::ieee::Double`'s `Div`: IEEE-754 binary64
/// division, rounding to nearest, ties to even.
#[verifier::external_body]
pub(crate) fn div_numbers(a: u64, b: u64) -> (r: u64)
    ensures
        r == div_bits(a, b),
{
    (Double::from_bits(a as u128) / Double::from_bits(b as u128)).value.to_bits() as u64
}

/// Relies on `rustc_apfloat::ieee::Double`'s `PartialOrd::lt`: the IEEE-754
/// less-than predicate.
#[verifier::external_body]
pub(crate) fn lt_numbers(a: u64, b: u64) -> (r: bool)
    ensures
        r == lt_bits(a, b),
{
    Double::from_bits(a as u128) < Double::from_bits(b as u128)
}

/// Relies on `rustc_apfloat::ieee::Double`'s `PartialOrd::le`: the IEEE-754
/// less-than-or-equal predicate.
#[verifier::external_body]
pub(crate) fn le_numbers(a: u64, b: u64) -> (r: bool)
    ensures
        r == le_bits(a, b),
{
    Double::from_bits(a as u128) <= Double::from_bits(b as u128)
}

/// Relies on `rustc_apfloat::ieee::Double`'s `PartialOrd::gt`: the IEEE-754
/// greater-than predicate.
#[verifier::external_body]
pub(crate) fn gt_numbers(a: u64, b: u64) -> (r: bool)
    ensures
        r == gt_bits(a, b),
{
    Double::from_bits(a as u128) > Double::from_bits(b as u128)
}

/// Relies on `rustc_apfloat::ieee::Double`'s `PartialOrd::ge`: the IEEE-754
/// greater-than-or-equal predicate.
#[verifier::external_body]
pub(crate) fn ge_numbers(a: u64, b: u64) -> (r: bool)
    ensures
        r == ge_bits(a, b),
{
    Double::from_bits(a as u128) >= Double::from_bits(b as u128)
}

/// Relies on `rustc_apfloat::ieee::Double`'s `PartialEq`: IEEE-754 equality
/// (`partial_cmp == Some(Equal)`).
#[verifier::external_body]
pub(crate) fn eq_numbers(a: u64, b: u64) -> (r: bool)
    ensures
        r == eq_bits(a, b),
{
    Double::from_bits(a as u128) == Double::from_bits(b as u128)
}

/// Relies on `rustc_apfloat::ieee::Double`'s `FromStr`: decimal parsing,
/// rounding to nearest, ties to even; the result depends on the characters
/// alone.
#[verifier::external_body]
pub(crate) fn parse_number(lexeme: &str) -> (r: Option<u64>)
    ensures
        r == number_of_lexeme(lexeme@),
{
    match lexeme.parse::<Double>() {
        Ok(value) => Some(value.to_bits() as u64),
        Err(_) => None,
    }
}

/// Relies on `rustc_apfloat::ieee::Double`'s `Display` with an explicit
/// precision: the rendering to that many significant digits, a function
/// of the bits and the digit count alone. The width grants enough zero
/// padding that every finite value stays in positional notation.
#[verifier::external_body]
fn render_number_digits(bits: u64, digits: usize) -> (r: String)
    ensures
        r@ == number_digits(bits, digits),
{
    format!("{:400.*}", digits, Double::from_bits(bits as u128))
}

/// The decimal rendering of the number encoded by the given bits: `inf`,
/// `-inf` or `NaN` for the non-finite encodings, otherwise the shortest
/// decimal that reads back as the same number.
pub fn render_number(bits: u64) -> (r: String)
    ensures
        r@ == number_text(bits),
{
    if (bits >> 52) & 0x7ff == 0x7ff {
        if bits & 0x000f_ffff_ffff_ffff != 0 {
            return String::from_str("NaN");
        } else if bits & 0x8000_0000_0000_0000 != 0 {
            return String::from_str("-inf");
        } else {
            return String::from_str("inf");
        }
    }
    let mut digits: usize = 1;
    while digits < 17
        invariant
            1 <= digits <= 17,
            is_finite_bits(bits),
            number_text(bits) == number_text_from(bits, digits as int),
        decreases 17 - digits,
    {
        let candidate = render_number_digits(bits, digits);
        match parse_number(candidate.as_str()) {
            Some(read_back) => {
                if read_back == bits {
                    return candidate;
                }
            },
            None => {},
        }
        digits = digits + 1;
    }
    render_number_digits(bits, 17)
}

/// The bits of the negated number.
pub fn negate_number(a: u64) -> (r: u64)
    ensures
        r == neg_bits(a),
{
    a ^ 0x8000_0000_0000_0000
}

} // verus!

//! The trusted boundary: calls into the `bigdecimal` and `num_bigint`
//! crates, and into the two `std` functions this library needs that have
//! no specification in vstd. Everything else in the library is verified
//! against the contracts stated here.

use vstd::prelude::*;
use num_bigint::ToBigInt;
use crate::text::spec_exponent_ok;

verus! {

/// Relies on `BigDecimal`'s `FromStr` (exact decimal parsing, including
/// exponent notation), `ToPrimitive::to_f64` (conversion to a nearby
/// double-precision value, infinite on overflow) and `f64::to_bits`.
///
/// The conversion goes through `BigDecimal` because floating-point text
/// has no place in this library's verified sources, and it promises
/// nothing of its result: `to_f64` multiplies by a power of ten computed
/// with machine-dependent precision, so the same text may convert to
/// slightly different bit patterns on different machines — a literal
/// whose exponent falls outside the 32-bit range converts to an infinity
/// even where a direct double parse would round to zero, and a literal
/// with more than about 25 significant digits may land a unit in the
/// last place away from a correctly rounded parse. Callers treat the
/// outcome as an oracle. The exponent bound is required because `to_f64`
/// repeatedly subtracts from the 64-bit scale while trimming digits,
/// which overflows — a panic — when the parsed scale nears the far end
/// of its range.
#[verifier::external_body]
pub(crate) fn parse_float_bits(s: &str) -> (r: Option<u64>)
    requires
        spec_exponent_ok(s@),
{
    let d: bigdecimal::BigDecimal = match s.parse() {
        Ok(d) => d,
        Err(_) => return None,
    };
    match bigdecimal::ToPrimitive::to_f64(&d) {
        Some(v) => Some(v.to_bits()),
        None => None,
    }
}

/// The canonical decimal digit string of the integer denoted by the cleaned,
/// suffix-free text of an arbitrary-precision integer literal: `None` where
/// the text is not a decimal number, `Some(None)` where it is a number but
/// not an integer. The result is a function of the text alone.
pub uninterp spec fn bigint_digits_of(s: Seq<char>) -> Option<Option<Seq<char>>>;

/// The view of a doubly-optional string, for stating contracts over
/// [`bigint_digits_of`].
pub open spec fn opt_opt_str_view(r: Option<Option<String>>) -> Option<Option<Seq<char>>> {
    match r {
        None => None,
        Some(None) => Some(None),
        Some(Some(s)) => Some(Some(s@)),
    }
}

/// Relies on `BigDecimal`'s `FromStr`, `BigDecimal::is_integer`,
/// `ToBigInt::to_bigint` (exact for integral values) and
/// `BigInt::to_str_radix` (canonical decimal digits, `-`-prefixed when
/// negative).
///
/// The exponent bound is required because `to_bigint` reaches
/// `with_scale(0)`, whose 64-bit scale subtraction overflows — a panic —
/// when the parsed scale nears the far end of its range, and because
/// `is_integer` materializes ten to the scale's power.
#[verifier::external_body]
pub(crate) fn parse_bigint_digits(s: &str) -> (r: Option<Option<String>>)
    requires
        spec_exponent_ok(s@),
    ensures
        opt_opt_str_view(r) == bigint_digits_of(s@),
{
    let d: bigdecimal::BigDecimal = match s.parse() {
        Ok(d) => d,
        Err(_) => return None,
    };
    if !d.is_integer() {
        return Some(None);
    }
    match d.to_bigint() {
        Some(b) => Some(Some(b.to_str_radix(10))),
        None => Some(None),
    }
}

/// The canonical representation of the arbitrary-precision decimal denoted
/// by the cleaned, suffix-free text of a decimal literal, or `None` where
/// the text is not a decimal number. Texts denoting equal decimal values
/// yield the same representation. The result is a function of the text
/// alone.
pub uninterp spec fn decimal_repr_of(s: Seq<char>) -> Option<Seq<char>>;

/// The view of an optional string, for stating contracts over
/// [`decimal_repr_of`].
pub open spec fn opt_str_view(r: Option<String>) -> Option<Seq<char>> {
    match r {
        None => None,
        Some(s) => Some(s@),
    }
}

/// Relies on `BigDecimal`'s `FromStr`, `BigDecimal::normalized` (strips
/// trailing zero digits, so equal values get equal digit/scale pairs) and
/// `BigDecimal::to_scientific_notation` (renders digits and exponent
/// compactly and deterministically).
///
/// The exponent bound is required because `normalized` subtracts the
/// count of trailing zero digits from the 64-bit scale, which overflows —
/// a panic — when the parsed scale nears the far end of its range.
#[verifier::external_body]
pub(crate) fn parse_decimal_repr(s: &str) -> (r: Option<String>)
    requires
        spec_exponent_ok(s@),
    ensures
        opt_str_view(r) == decimal_repr_of(s@),
{
    match s.parse::<bigdecimal::BigDecimal>() {
        Ok(d) => Some(d.normalized().to_scientific_notation()),
        Err(_) => None,
    }
}

/// Relies on `String::push`: appends exactly the given character.
#[verifier::external_body]
pub(crate) fn push_char(s: &mut String, c: char)
    ensures
        final(s)@ == old(s)@.push(c),
{
    s.push(c);
}

/// Whether a code point is a Unicode scalar value, i.e. the code of a
/// `char`: anything below the surrogate range, or between it and the
/// maximum code point.
pub open spec fn is_scalar_value(u: u32) -> bool {
    u < 0xD800 || (0xE000 <= u && u <= 0x10FFFF)
}

/// Relies on `char::from_u32`: `Some` exactly on Unicode scalar values,
/// returning the character with that code.
#[verifier::external_body]
pub(crate) fn char_from_u32(u: u32) -> (r: Option<char>)
    ensures
        r == (if is_scalar_value(u) {
            Some(u as char)
        } else {
            None::<char>
        }),
{
    char::from_u32(u)
}

} // verus!

//! Correctly rounded arithmetic, from `rustc_apfloat`.
//!
//! Values cross this boundary as IEEE 754 interchange bit patterns, so nothing
//! outside this file holds a value of that crate. What an operation returns is
//! a fixed function of the operand patterns and the rounding direction; each
//! has a name here, which the contracts of the callers speak of.
use rustc_apfloat::ieee::{Double, Quad, Single};
use rustc_apfloat::{Float, FloatConvert, Round};
use vstd::prelude::*;

verus! {

/// A rounding direction, in the order of the `frm` encodings 0 to 4.
#[derive(Debug, Clone, Copy, PartialEq, Eq, Structural)]
pub enum Rounding {
    /// RNE: to nearest, ties to even.
    NearestEven,
    /// RTZ: towards zero.
    Zero,
    /// RDN: down.
    Down,
    /// RUP: up.
    Up,
    /// RMM: to nearest, ties to max magnitude.
    NearestAway,
}

/// A rounded result: its bit pattern and the exceptions raised, as the bits
/// [`INVALID_OP`], [`DIV_BY_ZERO`], [`OVERFLOW`], [`UNDERFLOW`] and
/// [`INEXACT`].
#[derive(Debug, Clone, Copy, PartialEq, Eq, Structural)]
pub struct Rounded {
    pub value: u128,
    pub status: u8,
}

pub const INVALID_OP: u8 = 0x01;

pub const DIV_BY_ZERO: u8 = 0x02;

pub const OVERFLOW: u8 = 0x04;

pub const UNDERFLOW: u8 = 0x08;

pub const INEXACT: u8 = 0x10;

/// What `Single::add_r` returns.
pub uninterp spec fn single_sum(a: u128, b: u128, round: Rounding) -> Rounded;

/// `Single::add_r`: the sum of two singles, rounded. The result depends on the two
/// patterns and the direction alone and is a single pattern, which has 32 bits.
#[verifier::external_body]
pub(crate) fn add_single(a: u128, b: u128, round: Rounding) -> (r: Rounded)
    ensures
        r == single_sum(a, b, round),
        r.value < 0x1_0000_0000,
{
    let mode = match round {
        Rounding::NearestEven => Round::NearestTiesToEven,
        Rounding::Zero => Round::TowardZero,
        Rounding::Down => Round::TowardNegative,
        Rounding::Up => Round::TowardPositive,
        Rounding::NearestAway => Round::NearestTiesToAway,
    };
    let r = Single::from_bits(a).add_r(Single::from_bits(b), mode);
    Rounded { value: r.value.to_bits(), status: r.status.bits() }
}

/// What `Double::add_r` returns.
pub uninterp spec fn double_sum(a: u128, b: u128, round: Rounding) -> Rounded;

/// `Double::add_r`: the sum of two doubles, rounded. The result depends on the two
/// patterns and the direction alone and is a double pattern, which has 64 bits.
#[verifier::external_body]
pub(crate) fn add_double(a: u128, b: u128, round: Rounding) -> (r: Rounded)
    ensures
        r == double_sum(a, b, round),
        r.value < 0x1_0000_0000_0000_0000,
{
    let mode = match round {
        Rounding::NearestEven => Round::NearestTiesToEven,
        Rounding::Zero => Round::TowardZero,
        Rounding::Down => Round::TowardNegative,
        Rounding::Up => Round::TowardPositive,
        Rounding::NearestAway => Round::NearestTiesToAway,
    };
    let r = Double::from_bits(a).add_r(Double::from_bits(b), mode);
    Rounded { value: r.value.to_bits(), status: r.status.bits() }
}

/// What `Single::sub_r` returns.
pub uninterp spec fn single_difference(a: u128, b: u128, round: Rounding) -> Rounded;

/// `Single::sub_r`: the difference of two singles, rounded. The result depends on the two
/// patterns and the direction alone and is a single pattern, which has 32 bits.
#[verifier::external_body]
pub(crate) fn sub_single(a: u128, b: u128, round: Rounding) -> (r: Rounded)
    ensures
        r == single_difference(a, b, round),
        r.value < 0x1_0000_0000,
{
    let mode = match round {
        Rounding::NearestEven => Round::NearestTiesToEven,
        Rounding::Zero => Round::TowardZero,
        Rounding::Down => Round::TowardNegative,
        Rounding::Up => Round::TowardPositive,
        Rounding::NearestAway => Round::NearestTiesToAway,
    };
    let r = Single::from_bits(a).sub_r(Single::from_bits(b), mode);
    Rounded { value: r.value.to_bits(), status: r.status.bits() }
}

/// What `Double::sub_r` returns.
pub uninterp spec fn double_difference(a: u128, b: u128, round: Rounding) -> Rounded;

/// `Double::sub_r`: the difference of two doubles, rounded. The result depends on the two
/// patterns and the direction alone and is a double pattern, which has 64 bits.
#[verifier::external_body]
pub(crate) fn sub_double(a: u128, b: u128, round: Rounding) -> (r: Rounded)
    ensures
        r == double_difference(a, b, round),
        r.value < 0x1_0000_0000_0000_0000,
{
    let mode = match round {
        Rounding::NearestEven => Round::NearestTiesToEven,
        Rounding::Zero => Round::TowardZero,
        Rounding::Down => Round::TowardNegative,
        Rounding::Up => Round::TowardPositive,
        Rounding::NearestAway => Round::NearestTiesToAway,
    };
    let r = Double::from_bits(a).sub_r(Double::from_bits(b), mode);
    Rounded { value: r.value.to_bits(), status: r.status.bits() }
}

/// What `Quad::sub_r` returns.
pub uninterp spec fn quad_difference(a: u128, b: u128, round: Rounding) -> Rounded;

/// `Quad::sub_r`: the difference of two quads, rounded. The result depends on the two
/// patterns and the direction alone and is a quad pattern.
#[verifier::external_body]
pub(crate) fn sub_quad(a: u128, b: u128, round: Rounding) -> (r: Rounded)
    ensures
        r == quad_difference(a, b, round),
{
    let mode = match round {
        Rounding::NearestEven => Round::NearestTiesToEven,
        Rounding::Zero => Round::TowardZero,
        Rounding::Down => Round::TowardNegative,
        Rounding::Up => Round::TowardPositive,
        Rounding::NearestAway => Round::NearestTiesToAway,
    };
    let r = Quad::from_bits(a).sub_r(Quad::from_bits(b), mode);
    Rounded { value: r.value.to_bits(), status: r.status.bits() }
}

/// What `Single::mul_r` returns.
pub uninterp spec fn single_product(a: u128, b: u128, round: Rounding) -> Rounded;

/// `Single::mul_r`: the product of two singles, rounded. The result depends on the two
/// patterns and the direction alone and is a single pattern, which has 32 bits.
#[verifier::external_body]
pub(crate) fn mul_single(a: u128, b: u128, round: Rounding) -> (r: Rounded)
    ensures
        r == single_product(a, b, round),
        r.value < 0x1_0000_0000,
{
    let mode = match round {
        Rounding::NearestEven => Round::NearestTiesToEven,
        Rounding::Zero => Round::TowardZero,
        Rounding::Down => Round::TowardNegative,
        Rounding::Up => Round::TowardPositive,
        Rounding::NearestAway => Round::NearestTiesToAway,
    };
    let r = Single::from_bits(a).mul_r(Single::from_bits(b), mode);
    Rounded { value: r.value.to_bits(), status: r.status.bits() }
}

/// What `Double::mul_r` returns.
pub uninterp spec fn double_product(a: u128, b: u128, round: Rounding) -> Rounded;

/// `Double::mul_r`: the product of two doubles, rounded. The result depends on the two
/// patterns and the direction alone and is a double pattern, which has 64 bits.
#[verifier::external_body]
pub(crate) fn mul_double(a: u128, b: u128, round: Rounding) -> (r: Rounded)
    ensures
        r == double_product(a, b, round),
        r.value < 0x1_0000_0000_0000_0000,
{
    let mode = match round {
        Rounding::NearestEven => Round::NearestTiesToEven,
        Rounding::Zero => Round::TowardZero,
        Rounding::Down => Round::TowardNegative,
        Rounding::Up => Round::TowardPositive,
        Rounding::NearestAway => Round::NearestTiesToAway,
    };
    let r = Double::from_bits(a).mul_r(Double::from_bits(b), mode);
    Rounded { value: r.value.to_bits(), status: r.status.bits() }
}

/// What `Quad::mul_r` returns.
pub uninterp spec fn quad_product(a: u128, b: u128, round: Rounding) -> Rounded;

/// `Quad::mul_r`: the product of two quads, rounded. The result depends on the two
/// patterns and the direction alone and is a quad pattern.
#[verifier::external_body]
pub(crate) fn mul_quad(a: u128, b: u128, round: Rounding) -> (r: Rounded)
    ensures
        r == quad_product(a, b, round),
{
    let mode = match round {
        Rounding::NearestEven => Round::NearestTiesToEven,
        Rounding::Zero => Round::TowardZero,
        Rounding::Down => Round::TowardNegative,
        Rounding::Up => Round::TowardPositive,
        Rounding::NearestAway => Round::NearestTiesToAway,
    };
    let r = Quad::from_bits(a).mul_r(Quad::from_bits(b), mode);
    Rounded { value: r.value.to_bits(), status: r.status.bits() }
}

/// What `Single::div_r` returns.
pub uninterp spec fn single_quotient(a: u128, b: u128, round: Rounding) -> Rounded;

/// `Single::div_r`: the quotient of two singles, rounded. The result depends on the two
/// patterns and the direction alone and is a single pattern, which has 32 bits.
#[verifier::external_body]
pub(crate) fn div_single(a: u128, b: u128, round: Rounding) -> (r: Rounded)
    ensures
        r == single_quotient(a, b, round),
        r.value < 0x1_0000_0000,
{
    let mode = match round {
        Rounding::NearestEven => Round::NearestTiesToEven,
        Rounding::Zero => Round::TowardZero,
        Rounding::Down => Round::TowardNegative,
        Rounding::Up => Round::TowardPositive,
        Rounding::NearestAway => Round::NearestTiesToAway,
    };
    let r = Single::from_bits(a).div_r(Single::from_bits(b), mode);
    Rounded { value: r.value.to_bits(), status: r.status.bits() }
}

/// What `Double::div_r` returns.
pub uninterp spec fn double_quotient(a: u128, b: u128, round: Rounding) -> Rounded;

/// `Double::div_r`: the quotient of two doubles, rounded. The result depends on the two
/// patterns and the direction alone and is a double pattern, which has 64 bits.
#[verifier::external_body]
pub(crate) fn div_double(a: u128, b: u128, round: Rounding) -> (r: Rounded)
    ensures
        r == double_quotient(a, b, round),
        r.value < 0x1_0000_0000_0000_0000,
{
    let mode = match round {
        Rounding::NearestEven => Round::NearestTiesToEven,
        Rounding::Zero => Round::TowardZero,
        Rounding::Down => Round::TowardNegative,
        Rounding::Up => Round::TowardPositive,
        Rounding::NearestAway => Round::NearestTiesToAway,
    };
    let r = Double::from_bits(a).div_r(Double::from_bits(b), mode);
    Rounded { value: r.value.to_bits(), status: r.status.bits() }
}

/// What `Quad::div_r` returns.
pub uninterp spec fn quad_quotient(a: u128, b: u128, round: Rounding) -> Rounded;

/// `Quad::div_r`: the quotient of two quads, rounded. The result depends on the two
/// patterns and the direction alone and is a quad pattern.
#[verifier::external_body]
pub(crate) fn div_quad(a: u128, b: u128, round: Rounding) -> (r: Rounded)
    ensures
        r == quad_quotient(a, b, round),
{
    let mode = match round {
        Rounding::NearestEven => Round::NearestTiesToEven,
        Rounding::Zero => Round::TowardZero,
        Rounding::Down => Round::TowardNegative,
        Rounding::Up => Round::TowardPositive,
        Rounding::NearestAway => Round::NearestTiesToAway,
    };
    let r = Quad::from_bits(a).div_r(Quad::from_bits(b), mode);
    Rounded { value: r.value.to_bits(), status: r.status.bits() }
}

/// What `Single::mul_add_r` returns.
pub uninterp spec fn single_fused(a: u128, b: u128, c: u128, round: Rounding) -> Rounded;

/// `Single::mul_add_r`: `a * b + c` on singles, rounded once. The result depends
/// on the three patterns and the direction alone and is a single pattern,
/// which has 32 bits.
#[verifier::external_body]
pub(crate) fn mul_add_single(a: u128, b: u128, c: u128, round: Rounding) -> (r: Rounded)
    ensures
        r == single_fused(a, b, c, round),
        r.value < 0x1_0000_0000,
{
    let mode = match round {
        Rounding::NearestEven => Round::NearestTiesToEven,
        Rounding::Zero => Round::TowardZero,
        Rounding::Down => Round::TowardNegative,
        Rounding::Up => Round::TowardPositive,
        Rounding::NearestAway => Round::NearestTiesToAway,
    };
    let r = Single::from_bits(a).mul_add_r(Single::from_bits(b), Single::from_bits(c), mode);
    Rounded { value: r.value.to_bits(), status: r.status.bits() }
}

/// What `Single::from_i128_r` returns.
pub uninterp spec fn single_of_int(v: i128, round: Rounding) -> Rounded;

/// `Single::from_i128_r`: the single nearest an integer in the rounding
/// direction. The result depends on the integer and the direction alone and
/// is a single pattern, which has 32 bits.
#[verifier::external_body]
pub(crate) fn from_int_single(v: i128, round: Rounding) -> (r: Rounded)
    ensures
        r == single_of_int(v, round),
        r.value < 0x1_0000_0000,
{
    let mode = match round {
        Rounding::NearestEven => Round::NearestTiesToEven,
        Rounding::Zero => Round::TowardZero,
        Rounding::Down => Round::TowardNegative,
        Rounding::Up => Round::TowardPositive,
        Rounding::NearestAway => Round::NearestTiesToAway,
    };
    let r = Single::from_i128_r(v, mode);
    Rounded { value: r.value.to_bits(), status: r.status.bits() }
}

/// What `Double::mul_add_r` returns.
pub uninterp spec fn double_fused(a: u128, b: u128, c: u128, round: Rounding) -> Rounded;

/// `Double::mul_add_r`: `a * b + c` on doubles, rounded once. The result depends
/// on the three patterns and the direction alone and is a double pattern,
/// which has 64 bits.
#[verifier::external_body]
pub(crate) fn mul_add_double(a: u128, b: u128, c: u128, round: Rounding) -> (r: Rounded)
    ensures
        r == double_fused(a, b, c, round),
        r.value < 0x1_0000_0000_0000_0000,
{
    let mode = match round {
        Rounding::NearestEven => Round::NearestTiesToEven,
        Rounding::Zero => Round::TowardZero,
        Rounding::Down => Round::TowardNegative,
        Rounding::Up => Round::TowardPositive,
        Rounding::NearestAway => Round::NearestTiesToAway,
    };
    let r = Double::from_bits(a).mul_add_r(Double::from_bits(b), Double::from_bits(c), mode);
    Rounded { value: r.value.to_bits(), status: r.status.bits() }
}

/// What `Double::from_i128_r` returns.
pub uninterp spec fn double_of_int(v: i128, round: Rounding) -> Rounded;

/// `Double::from_i128_r`: the double nearest an integer in the rounding
/// direction. The result depends on the integer and the direction alone and
/// is a double pattern, which has 64 bits.
#[verifier::external_body]
pub(crate) fn from_int_double(v: i128, round: Rounding) -> (r: Rounded)
    ensures
        r == double_of_int(v, round),
        r.value < 0x1_0000_0000_0000_0000,
{
    let mode = match round {
        Rounding::NearestEven => Round::NearestTiesToEven,
        Rounding::Zero => Round::TowardZero,
        Rounding::Down => Round::TowardNegative,
        Rounding::Up => Round::TowardPositive,
        Rounding::NearestAway => Round::NearestTiesToAway,
    };
    let r = Double::from_i128_r(v, mode);
    Rounded { value: r.value.to_bits(), status: r.status.bits() }
}

/// What converting a single to a double with `convert_r` returns.
pub uninterp spec fn single_to_double(a: u128, round: Rounding) -> Rounded;

/// `FloatConvert::<Double>::convert_r` on a `Single`: the double of the same value. The
/// result depends on the pattern and the direction alone and is a double
/// pattern, which has 64 bits.
#[verifier::external_body]
pub(crate) fn convert_single_to_double(a: u128, round: Rounding) -> (r: Rounded)
    ensures
        r == single_to_double(a, round),
        r.value < 0x1_0000_0000_0000_0000,
{
    let mode = match round {
        Rounding::NearestEven => Round::NearestTiesToEven,
        Rounding::Zero => Round::TowardZero,
        Rounding::Down => Round::TowardNegative,
        Rounding::Up => Round::TowardPositive,
        Rounding::NearestAway => Round::NearestTiesToAway,
    };
    let r: rustc_apfloat::StatusAnd<Double> = Single::from_bits(a).convert_r(mode, &mut false);
    Rounded { value: r.value.to_bits(), status: r.status.bits() }
}

/// What converting a double to a single with `convert_r` returns.
pub uninterp spec fn double_to_single(a: u128, round: Rounding) -> Rounded;

/// `FloatConvert::<Single>::convert_r` on a `Double`: the single it rounds to. The
/// result depends on the pattern and the direction alone and is a single
/// pattern, which has 32 bits.
#[verifier::external_body]
pub(crate) fn convert_double_to_single(a: u128, round: Rounding) -> (r: Rounded)
    ensures
        r == double_to_single(a, round),
        r.value < 0x1_0000_0000,
{
    let mode = match round {
        Rounding::NearestEven => Round::NearestTiesToEven,
        Rounding::Zero => Round::TowardZero,
        Rounding::Down => Round::TowardNegative,
        Rounding::Up => Round::TowardPositive,
        Rounding::NearestAway => Round::NearestTiesToAway,
    };
    let r: rustc_apfloat::StatusAnd<Single> = Double::from_bits(a).convert_r(mode, &mut false);
    Rounded { value: r.value.to_bits(), status: r.status.bits() }
}

/// What converting a double to a quad with `convert_r` returns.
pub uninterp spec fn double_to_quad(a: u128, round: Rounding) -> Rounded;

/// `FloatConvert::<Quad>::convert_r` on a `Double`: the quad of the same value. The
/// result depends on the pattern and the direction alone and is a quad
/// pattern.
#[verifier::external_body]
pub(crate) fn convert_double_to_quad(a: u128, round: Rounding) -> (r: Rounded)
    ensures
        r == double_to_quad(a, round),
{
    let mode = match round {
        Rounding::NearestEven => Round::NearestTiesToEven,
        Rounding::Zero => Round::TowardZero,
        Rounding::Down => Round::TowardNegative,
        Rounding::Up => Round::TowardPositive,
        Rounding::NearestAway => Round::NearestTiesToAway,
    };
    let r: rustc_apfloat::StatusAnd<Quad> = Double::from_bits(a).convert_r(mode, &mut false);
    Rounded { value: r.value.to_bits(), status: r.status.bits() }
}

} // verus!

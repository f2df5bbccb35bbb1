//! Rounded arithmetic on singles and doubles, with RISC-V's exception flags.
//!
//! Overflow is detected after rounding with an unbounded exponent, and
//! tininess likewise, where the softfloat layer looks at the delivered result.
//! Both are decided here.
use vstd::prelude::*;

use super::pattern::{canonical, canonical_nan, Layout};
use super::softfloat::{
    add_double, add_single, convert_double_to_quad, convert_double_to_single,
    convert_single_to_double, div_double, div_quad, div_single, from_int_double, from_int_single,
    mul_add_double, mul_add_single, mul_double, mul_quad, mul_single, sub_double, sub_quad,
    sub_single, Rounded, Rounding, DIV_BY_ZERO, INEXACT, INVALID_OP, UNDERFLOW,
};
use super::softfloat::{
    double_difference, double_fused, double_of_int, double_product, double_quotient, double_sum,
    double_to_quad, double_to_single, quad_difference, quad_product, quad_quotient,
    single_difference, single_fused, single_of_int, single_product, single_quotient, single_sum,
    single_to_double,
};
use super::{DZ, NV, NX, OF, UF};
use crate::cpu::decode::FpOp;

verus! {

// ---------------------------------------------------------------------------
// Operations by format
// ---------------------------------------------------------------------------

/// The next wider format.
pub open spec fn wider(l: Layout) -> Layout {
    match l {
        Layout::Single => Layout::Double,
        _ => Layout::Quad,
    }
}

pub open spec fn sum(l: Layout, a: u128, b: u128, round: Rounding) -> Rounded {
    match l {
        Layout::Single => single_sum(a, b, round),
        _ => double_sum(a, b, round),
    }
}

pub open spec fn difference(l: Layout, a: u128, b: u128, round: Rounding) -> Rounded {
    match l {
        Layout::Single => single_difference(a, b, round),
        Layout::Double => double_difference(a, b, round),
        Layout::Quad => quad_difference(a, b, round),
    }
}

pub open spec fn product(l: Layout, a: u128, b: u128, round: Rounding) -> Rounded {
    match l {
        Layout::Single => single_product(a, b, round),
        Layout::Double => double_product(a, b, round),
        Layout::Quad => quad_product(a, b, round),
    }
}

pub open spec fn quotient(l: Layout, a: u128, b: u128, round: Rounding) -> Rounded {
    match l {
        Layout::Single => single_quotient(a, b, round),
        Layout::Double => double_quotient(a, b, round),
        Layout::Quad => quad_quotient(a, b, round),
    }
}

/// `a * b + c`, rounded once.
pub open spec fn fused(l: Layout, a: u128, b: u128, c: u128, round: Rounding) -> Rounded {
    match l {
        Layout::Single => single_fused(a, b, c, round),
        _ => double_fused(a, b, c, round),
    }
}

pub open spec fn of_int(l: Layout, v: i128, round: Rounding) -> Rounded {
    match l {
        Layout::Single => single_of_int(v, round),
        _ => double_of_int(v, round),
    }
}

/// The same value in the next wider format.
pub open spec fn widened(l: Layout, x: u128) -> u128 {
    match l {
        Layout::Single => single_to_double(x, Rounding::NearestEven).value,
        _ => double_to_quad(x, Rounding::NearestEven).value,
    }
}

fn wide(l: Layout) -> (r: Layout)
    ensures
        r == wider(l),
{
    match l {
        Layout::Single => Layout::Double,
        _ => Layout::Quad,
    }
}

fn add_values(l: Layout, a: u128, b: u128, round: Rounding) -> (r: Rounded)
    requires
        l != Layout::Quad,
    ensures
        r == sum(l, a, b, round),
        l.holds(r.value),
{
    match l {
        Layout::Single => add_single(a, b, round),
        _ => add_double(a, b, round),
    }
}

fn sub_values(l: Layout, a: u128, b: u128, round: Rounding) -> (r: Rounded)
    ensures
        r == difference(l, a, b, round),
        l.holds(r.value),
{
    match l {
        Layout::Single => sub_single(a, b, round),
        Layout::Double => sub_double(a, b, round),
        Layout::Quad => sub_quad(a, b, round),
    }
}

fn mul_values(l: Layout, a: u128, b: u128, round: Rounding) -> (r: Rounded)
    ensures
        r == product(l, a, b, round),
        l.holds(r.value),
{
    match l {
        Layout::Single => mul_single(a, b, round),
        Layout::Double => mul_double(a, b, round),
        Layout::Quad => mul_quad(a, b, round),
    }
}

fn div_values(l: Layout, a: u128, b: u128, round: Rounding) -> (r: Rounded)
    ensures
        r == quotient(l, a, b, round),
        l.holds(r.value),
{
    match l {
        Layout::Single => div_single(a, b, round),
        Layout::Double => div_double(a, b, round),
        Layout::Quad => div_quad(a, b, round),
    }
}

fn fuse_values(l: Layout, a: u128, b: u128, c: u128, round: Rounding) -> (r: Rounded)
    requires
        l != Layout::Quad,
    ensures
        r == fused(l, a, b, c, round),
        l.holds(r.value),
{
    match l {
        Layout::Single => mul_add_single(a, b, c, round),
        _ => mul_add_double(a, b, c, round),
    }
}

fn widen(l: Layout, x: u128) -> (r: u128)
    requires
        l != Layout::Quad,
    ensures
        r == widened(l, x),
        wider(l).holds(r),
{
    match l {
        Layout::Single => convert_single_to_double(x, Rounding::NearestEven).value,
        _ => convert_double_to_quad(x, Rounding::NearestEven).value,
    }
}

// ---------------------------------------------------------------------------
// Overflow
// ---------------------------------------------------------------------------

/// The largest finite value, in the next wider format.
pub open spec fn wide_max(l: Layout) -> u128 {
    match l {
        Layout::Single => 0x47ef_ffff_e000_0000,
        _ => 0x43fe_ffff_ffff_ffff_f000_0000_0000_0000,
    }
}

/// Half a unit in the last place above the largest finite value.
pub open spec fn wide_midpoint(l: Layout) -> u128 {
    match l {
        Layout::Single => 0x47ef_ffff_f000_0000,
        _ => 0x43fe_ffff_ffff_ffff_f800_0000_0000_0000,
    }
}

/// One unit in the last place above the largest finite value: the power of two
/// that is the first to overflow.
pub open spec fn wide_one_past(l: Layout) -> u128 {
    match l {
        Layout::Single => 0x47f0_0000_0000_0000,
        _ => 0x43ff_0000_0000_0000_0000_0000_0000_0000,
    }
}

fn largest(l: Layout) -> (r: u128)
    ensures
        r == wide_max(l),
{
    match l {
        Layout::Single => 0x47ef_ffff_e000_0000,
        _ => 0x43fe_ffff_ffff_ffff_f000_0000_0000_0000,
    }
}

fn midpoint(l: Layout) -> (r: u128)
    ensures
        r == wide_midpoint(l),
{
    match l {
        Layout::Single => 0x47ef_ffff_f000_0000,
        _ => 0x43fe_ffff_ffff_ffff_f800_0000_0000_0000,
    }
}

pub fn one_past(l: Layout) -> (r: u128)
    ensures
        r == wide_one_past(l),
{
    match l {
        Layout::Single => 0x47f0_0000_0000_0000,
        _ => 0x43ff_0000_0000_0000_0000_0000_0000_0000,
    }
}

/// Whether a value of this sign is rounded away from zero.
pub open spec fn outward(round: Rounding, negative: bool) -> bool {
    (round == Rounding::Up && !negative) || (round == Rounding::Down && negative)
}

/// Whether a value of the wider format, rounded to the narrow precision with
/// an unbounded exponent, is past the largest finite value. That is so just
/// beyond the largest finite value for rounding outward, from halfway to the
/// next power of two for nearest, and from that power for rounding inward.
pub open spec fn past_range(l: Layout, x: u128, round: Rounding) -> bool {
    let w = wider(l);
    !w.nan(x) && if outward(round, w.negative(x)) {
        w.magnitude(x) > wide_max(l)
    } else if round == Rounding::NearestEven || round == Rounding::NearestAway {
        w.magnitude(x) >= wide_midpoint(l)
    } else {
        w.magnitude(x) >= wide_one_past(l)
    }
}

pub fn wide_overflows(l: Layout, x: u128, round: Rounding) -> (r: bool)
    ensures
        r == past_range(l, x, round),
{
    let w = wide(l);
    if w.is_nan(x) {
        return false;
    }
    let negative = w.is_negative(x);
    let size: u128 = w.abs(x);
    match round {
        Rounding::NearestEven | Rounding::NearestAway => size >= midpoint(l),
        Rounding::Zero => size >= one_past(l),
        Rounding::Up => if negative {
            size >= one_past(l)
        } else {
            size > largest(l)
        },
        Rounding::Down => if negative {
            size > largest(l)
        } else {
            size >= one_past(l)
        },
    }
}

/// The direction in which a quotient is rounded to the wider format, so that
/// it lies on the same side of the limit of [`past_range`] as the exact one:
/// the limit has a place in that format, so outward serves to tell what is
/// beyond it and inward what reaches it.
pub open spec fn sided(round: Rounding) -> Rounding {
    if round == Rounding::NearestEven || round == Rounding::NearestAway {
        Rounding::Zero
    } else {
        round
    }
}

/// A value below zero; the negative zero is not.
pub open spec fn below_zero(l: Layout, x: u128) -> bool {
    l.negative(x) && !l.zero(x)
}

/// Whether the exact sum of two values exceeds (or reaches) `limit` in
/// magnitude.
///
/// The wider formats can represent an exact single/double product, but they
/// still cannot retain a min-subnormal added to a maximum finite value.
/// Comparing the smaller magnitude with the exact distance to the boundary
/// avoids losing that information during the addition itself.
pub open spec fn sum_reaches(l: Layout, a: u128, b: u128, limit: u128, inclusive: bool) -> bool {
    let (x, y) = (l.magnitude(a), l.magnitude(b));
    let big = if x >= y {
        x
    } else {
        y
    };
    let small = if x >= y {
        y
    } else {
        x
    };
    if l.nan(a) || l.nan(b) || l.infinite(a) || l.infinite(b) {
        false
    } else if below_zero(l, a) == below_zero(l, b) {
        if big > limit {
            true
        } else if big == limit {
            inclusive || small != 0
        } else {
            let gap = difference(l, limit, big, Rounding::NearestEven).value;
            l.less(gap, small) || (inclusive && l.equal(small, gap))
        }
    } else {
        if big < limit {
            false
        } else if big == limit {
            inclusive && small == 0
        } else {
            let excess = difference(l, big, limit, Rounding::NearestEven).value;
            l.less(small, excess) || (inclusive && l.equal(excess, small))
        }
    }
}

pub fn exact_sum_reaches(l: Layout, a: u128, b: u128, limit: u128, inclusive: bool) -> (r: bool)
    ensures
        r == sum_reaches(l, a, b, limit, inclusive),
{
    if l.is_nan(a) || l.is_nan(b) || l.is_infinite(a) || l.is_infinite(b) {
        return false;
    }
    let a_negative = l.is_negative(a) && !l.is_zero(a);
    let b_negative = l.is_negative(b) && !l.is_zero(b);
    let (x, y) = (l.abs(a), l.abs(b));
    let (larger, smaller) = if x >= y {
        (x, y)
    } else {
        (y, x)
    };
    if a_negative == b_negative {
        if larger > limit {
            return true;
        }
        if larger == limit {
            return inclusive || smaller != 0;
        }
        let gap: u128 = sub_values(l, limit, larger, Rounding::NearestEven).value;
        l.lt_values(gap, smaller) || (inclusive && l.eq_values(smaller, gap))
    } else {
        if larger < limit {
            return false;
        }
        if larger == limit {
            return inclusive && smaller == 0;
        }
        let excess: u128 = sub_values(l, larger, limit, Rounding::NearestEven).value;
        l.lt_values(smaller, excess) || (inclusive && l.eq_values(excess, smaller))
    }
}

/// The sign of an exact sum.
pub open spec fn sum_below_zero(l: Layout, a: u128, b: u128) -> bool {
    if below_zero(l, a) == below_zero(l, b) || l.magnitude(a) >= l.magnitude(b) {
        below_zero(l, a)
    } else {
        below_zero(l, b)
    }
}

/// Whether the sum of two values of the wider format overflows the narrow one.
///
/// IEEE overflow is detected after rounding with an unbounded exponent. The
/// boundary is therefore rounding-mode dependent: just beyond max finite for
/// rounding toward the result's infinity, halfway to 2^emax for nearest, and
/// 2^emax for rounding inward.
pub open spec fn sum_overflows(l: Layout, a: u128, b: u128, round: Rounding) -> bool {
    let w = wider(l);
    let negative = sum_below_zero(w, a, b);
    if outward(round, negative) {
        sum_reaches(w, a, b, wide_max(l), false)
    } else if round == Rounding::NearestEven || round == Rounding::NearestAway {
        sum_reaches(w, a, b, wide_midpoint(l), true)
    } else {
        sum_reaches(w, a, b, wide_one_past(l), true)
    }
}

pub fn rounded_sum_overflows(l: Layout, a: u128, b: u128, round: Rounding) -> (r: bool)
    requires
        l != Layout::Quad,
    ensures
        r == sum_overflows(l, a, b, round),
{
    let w = wide(l);
    let a_negative = w.is_negative(a) && !w.is_zero(a);
    let b_negative = w.is_negative(b) && !w.is_zero(b);
    let negative = if a_negative == b_negative || w.abs(a) >= w.abs(b) {
        a_negative
    } else {
        b_negative
    };
    match round {
        Rounding::NearestEven | Rounding::NearestAway => {
            exact_sum_reaches(w, a, b, midpoint(l), true)
        },
        Rounding::Zero => exact_sum_reaches(w, a, b, one_past(l), true),
        Rounding::Up => if negative {
            exact_sum_reaches(w, a, b, one_past(l), true)
        } else {
            exact_sum_reaches(w, a, b, largest(l), false)
        },
        Rounding::Down => if negative {
            exact_sum_reaches(w, a, b, largest(l), false)
        } else {
            exact_sum_reaches(w, a, b, one_past(l), true)
        },
    }
}

// ---------------------------------------------------------------------------
// Arithmetic
// ---------------------------------------------------------------------------

pub open spec fn is_arithmetic(op: FpOp) -> bool {
    op == FpOp::Add || op == FpOp::Sub || op == FpOp::Mul || op == FpOp::Div || op == FpOp::Madd
        || op == FpOp::Msub || op == FpOp::Nmsub || op == FpOp::Nmadd
}

/// The rounded result as delivered.
pub open spec fn computed(
    l: Layout,
    op: FpOp,
    a: u128,
    b: u128,
    c: u128,
    round: Rounding,
) -> Rounded {
    match op {
        FpOp::Add => sum(l, a, b, round),
        FpOp::Sub => difference(l, a, b, round),
        FpOp::Mul => product(l, a, b, round),
        FpOp::Div => quotient(l, a, b, round),
        FpOp::Madd => fused(l, a, b, c, round),
        FpOp::Msub => fused(l, a, b, l.negated(c), round),
        FpOp::Nmsub => fused(l, l.negated(a), b, c, round),
        _ => fused(l, l.negated(a), b, l.negated(c), round),
    }
}

fn compute(l: Layout, op: FpOp, a: u128, b: u128, c: u128, round: Rounding) -> (r: Rounded)
    requires
        l != Layout::Quad,
        is_arithmetic(op),
        l.holds(a),
        l.holds(c),
    ensures
        r == computed(l, op, a, b, c, round),
        l.holds(r.value),
{
    match op {
        FpOp::Add => add_values(l, a, b, round),
        FpOp::Sub => sub_values(l, a, b, round),
        FpOp::Mul => mul_values(l, a, b, round),
        FpOp::Div => div_values(l, a, b, round),
        FpOp::Madd => fuse_values(l, a, b, c, round),
        FpOp::Msub => fuse_values(l, a, b, l.neg(c), round),
        FpOp::Nmsub => fuse_values(l, l.neg(a), b, c, round),
        _ => fuse_values(l, l.neg(a), b, l.neg(c), round),
    }
}

/// Whether the result, rounded with an unbounded exponent, is past the largest
/// finite value. The wider format holds a product exactly.
pub open spec fn overflows(
    l: Layout,
    op: FpOp,
    a: u128,
    b: u128,
    c: u128,
    round: Rounding,
) -> bool {
    let w = wider(l);
    let (x, y, z) = (widened(l, a), widened(l, b), widened(l, c));
    let xy = product(w, x, y, Rounding::NearestEven).value;
    match op {
        FpOp::Add => sum_overflows(l, x, y, round),
        FpOp::Sub => sum_overflows(l, x, w.negated(y), round),
        FpOp::Mul => past_range(l, xy, round),
        FpOp::Div => past_range(l, quotient(w, x, y, sided(round)).value, round),
        FpOp::Madd => sum_overflows(l, xy, z, round),
        FpOp::Msub => sum_overflows(l, xy, w.negated(z), round),
        FpOp::Nmsub => sum_overflows(l, w.negated(xy), z, round),
        _ => sum_overflows(l, w.negated(xy), w.negated(z), round),
    }
}

fn overflowed(l: Layout, op: FpOp, a: u128, b: u128, c: u128, round: Rounding) -> (r: bool)
    requires
        l != Layout::Quad,
        is_arithmetic(op),
    ensures
        r == overflows(l, op, a, b, c, round),
{
    let w = wide(l);
    let (x, y) = (widen(l, a), widen(l, b));
    match op {
        FpOp::Add => rounded_sum_overflows(l, x, y, round),
        FpOp::Sub => rounded_sum_overflows(l, x, w.neg(y), round),
        FpOp::Mul => {
            wide_overflows(l, mul_values(w, x, y, Rounding::NearestEven).value, round)
        },
        FpOp::Div => {
            let side = match round {
                Rounding::NearestEven | Rounding::NearestAway => Rounding::Zero,
                _ => round,
            };
            wide_overflows(l, div_values(w, x, y, side).value, round)
        },
        _ => {
            let z: u128 = widen(l, c);
            let xy: u128 = mul_values(w, x, y, Rounding::NearestEven).value;
            match op {
                FpOp::Madd => rounded_sum_overflows(l, xy, z, round),
                FpOp::Msub => rounded_sum_overflows(l, xy, w.neg(z), round),
                FpOp::Nmsub => rounded_sum_overflows(l, w.neg(xy), z, round),
                _ => rounded_sum_overflows(l, w.neg(xy), w.neg(z), round),
            }
        },
    }
}

// ---------------------------------------------------------------------------
// Tininess
// ---------------------------------------------------------------------------

/// The power of two that lifts values near the smallest normal one well clear
/// of it: 2^64 in single, 2^128 in double.
pub open spec fn lift_factor(l: Layout) -> u128 {
    match l {
        Layout::Single => 0x5f80_0000,
        _ => 0x47f0_0000_0000_0000,
    }
}

/// The smallest normal value times [`lift_factor`].
pub open spec fn lifted_normal(l: Layout) -> u128 {
    match l {
        Layout::Single => 0x2080_0000,
        _ => 0x0810_0000_0000_0000,
    }
}

/// A value times [`lift_factor`], which is exact for the operands of a result
/// near the smallest normal value.
pub open spec fn lifted(l: Layout, x: u128) -> u128 {
    product(l, x, lift_factor(l), Rounding::NearestEven).value
}

/// The result times [`lift_factor`], rounded as if the exponent had no lower
/// bound: lifted, no result near the smallest normal value is subnormal, so
/// it keeps its full precision.
pub open spec fn unbounded(
    l: Layout,
    op: FpOp,
    a: u128,
    b: u128,
    c: u128,
    round: Rounding,
) -> u128 {
    if op == FpOp::Add || op == FpOp::Sub {
        computed(l, op, lifted(l, a), lifted(l, b), c, round).value
    } else {
        computed(l, op, lifted(l, a), b, lifted(l, c), round).value
    }
}

fn unbounded_value(l: Layout, op: FpOp, a: u128, b: u128, c: u128, round: Rounding) -> (r: u128)
    requires
        l != Layout::Quad,
        is_arithmetic(op),
        l.holds(c),
    ensures
        r == unbounded(l, op, a, b, c, round),
{
    let factor: u128 = match l {
        Layout::Single => 0x5f80_0000,
        _ => 0x47f0_0000_0000_0000,
    };
    let x: u128 = mul_values(l, a, factor, Rounding::NearestEven).value;
    match op {
        FpOp::Add | FpOp::Sub => {
            let y: u128 = mul_values(l, b, factor, Rounding::NearestEven).value;
            compute(l, op, x, y, c, round).value
        },
        _ => {
            let z: u128 = mul_values(l, c, factor, Rounding::NearestEven).value;
            compute(l, op, x, b, z, round).value
        },
    }
}

/// An inexact result that stands at the smallest normal value.
pub open spec fn at_normal_edge(l: Layout, r: Rounded) -> bool {
    r.status & INEXACT != 0 && l.magnitude(r.value) == l.normal()
}

/// After-rounding tininess uses destination precision before clamping the
/// exponent. A tiny value can subsequently round up to minimum normal.
pub open spec fn hides_tiny(l: Layout, r: Rounded, lifted_result: u128) -> bool {
    at_normal_edge(l, r) && l.magnitude(lifted_result) < lifted_normal(l)
}

fn is_at_edge(l: Layout, r: Rounded) -> (e: bool)
    ensures
        e == at_normal_edge(l, r),
{
    r.status & INEXACT != 0 && l.abs(r.value) == l.smallest_normal()
}

/// Whether a delivered result was tiny before it was rounded up to the
/// smallest normal value.
pub fn was_tiny(l: Layout, r: Rounded, lifted_result: u128) -> (t: bool)
    ensures
        t == hides_tiny(l, r, lifted_result),
{
    let edge: u128 = match l {
        Layout::Single => 0x2080_0000,
        _ => 0x0810_0000_0000_0000,
    };
    is_at_edge(l, r) && l.abs(lifted_result) < edge
}

// ---------------------------------------------------------------------------
// Flags and the value to write
// ---------------------------------------------------------------------------

/// The fflags a delivered result raises.
pub open spec fn flags_of(l: Layout, r: Rounded, overflowed: bool, tiny: bool) -> u64 {
    let inexact = r.status & INEXACT != 0;
    let underflow = r.status & UNDERFLOW != 0 || tiny || (inexact && !overflowed && (l.subnormal(
        r.value,
    ) || l.zero(r.value)));
    (if r.status & INVALID_OP != 0 {
        NV
    } else {
        0
    }) | (if r.status & DIV_BY_ZERO != 0 {
        DZ
    } else {
        0
    }) | (if inexact && overflowed {
        OF
    } else {
        0
    }) | (if underflow {
        UF
    } else {
        0
    }) | (if inexact {
        NX
    } else {
        0
    })
}

/// The value written: every NaN becomes the canonical one.
pub open spec fn written(l: Layout, x: u128) -> u128 {
    if l.nan(x) {
        canonical_nan(l)
    } else {
        x
    }
}

/// The value and the flags of a delivered result.
pub open spec fn finished(l: Layout, r: Rounded, overflowed: bool, tiny: bool) -> (u128, u64) {
    (written(l, r.value), flags_of(l, r, overflowed, tiny))
}

/// The value to write and the flags to raise for a delivered result.
pub fn finish(l: Layout, r: Rounded, overflowed: bool, tiny: bool) -> (o: (u128, u64))
    requires
        l.holds(r.value),
    ensures
        o == finished(l, r, overflowed, tiny),
        l.holds(o.0),
{
    let inexact = r.status & INEXACT != 0;
    let nv: u64 = if r.status & INVALID_OP != 0 {
        NV
    } else {
        0
    };
    let dz: u64 = if r.status & DIV_BY_ZERO != 0 {
        DZ
    } else {
        0
    };
    // Overflow is recomputed at an unbounded exponent; tininess is repaired
    // at the normal/subnormal boundary before reaching this function.
    let of: u64 = if inexact && overflowed {
        OF
    } else {
        0
    };
    let uf: u64 = if r.status & UNDERFLOW != 0 || tiny || (inexact && !overflowed && (
    l.is_subnormal(r.value) || l.is_zero(r.value))) {
        UF
    } else {
        0
    };
    let nx: u64 = if inexact {
        NX
    } else {
        0
    };
    let value: u128 = if l.is_nan(r.value) {
        canonical(l)
    } else {
        r.value
    };
    (value, nv | dz | of | uf | nx)
}

/// An arithmetic instruction: the value and the flags.
pub open spec fn arithmetic_result(
    l: Layout,
    op: FpOp,
    a: u128,
    b: u128,
    c: u128,
    round: Rounding,
) -> (u128, u64) {
    let r = computed(l, op, a, b, c, round);
    finished(
        l,
        r,
        r.status & INEXACT != 0 && overflows(l, op, a, b, c, round),
        hides_tiny(l, r, unbounded(l, op, a, b, c, round)),
    )
}

pub fn arithmetic(l: Layout, op: FpOp, a: u128, b: u128, c: u128, round: Rounding) -> (o: (
    u128,
    u64,
))
    requires
        l != Layout::Quad,
        is_arithmetic(op),
        l.holds(a),
        l.holds(b),
        l.holds(c),
    ensures
        o == arithmetic_result(l, op, a, b, c, round),
        l.holds(o.0),
{
    let r = compute(l, op, a, b, c, round);
    let past = r.status & INEXACT != 0 && overflowed(l, op, a, b, c, round);
    let tiny = is_at_edge(l, r) && was_tiny(l, r, unbounded_value(l, op, a, b, c, round));
    finish(l, r, past, tiny)
}

/// A single or double made from an integer: the value and the flags.
pub open spec fn int_result(l: Layout, v: i128, round: Rounding) -> (u128, u64) {
    finished(l, of_int(l, v, round), false, false)
}

pub fn from_int(l: Layout, v: i128, round: Rounding) -> (o: (u128, u64))
    requires
        l != Layout::Quad,
    ensures
        o == int_result(l, v, round),
        l.holds(o.0),
{
    let r = match l {
        Layout::Single => from_int_single(v, round),
        _ => from_int_double(v, round),
    };
    finish(l, r, false, false)
}

/// A double narrowed to single: the value and the flags.
pub open spec fn narrowed(a: u128, round: Rounding) -> (u128, u64) {
    let r = double_to_single(a, round);
    let up = double_product(a, 0x43f0_0000_0000_0000, Rounding::NearestEven).value;
    finished(
        Layout::Single,
        r,
        past_range(Layout::Single, a, round),
        hides_tiny(Layout::Single, r, double_to_single(up, round).value),
    )
}

pub fn narrow(a: u128, round: Rounding) -> (o: (u128, u64))
    ensures
        o == narrowed(a, round),
        Layout::Single.holds(o.0),
{
    let r = convert_double_to_single(a, round);
    let tiny = if is_at_edge(Layout::Single, r) {
        // Lifted by 2^64, as [`lifted_normal`] is.
        let up: u128 = mul_double(a, 0x43f0_0000_0000_0000, Rounding::NearestEven).value;
        was_tiny(Layout::Single, r, convert_double_to_single(up, round).value)
    } else {
        false
    };
    finish(Layout::Single, r, wide_overflows(Layout::Single, a, round), tiny)
}

/// A single widened to double: the value and the flags.
pub open spec fn double_of_single(a: u128, round: Rounding) -> (u128, u64) {
    finished(Layout::Double, single_to_double(a, round), false, false)
}

pub fn from_single(a: u128, round: Rounding) -> (o: (u128, u64))
    ensures
        o == double_of_single(a, round),
        Layout::Double.holds(o.0),
{
    finish(Layout::Double, convert_single_to_double(a, round), false, false)
}

} // verus!

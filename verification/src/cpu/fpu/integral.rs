//! Floating-point values as integers scaled by a power of two, and their
//! conversion to integers.
use vstd::arithmetic::power2::{
    lemma2_to64, lemma_pow2_pos, lemma_pow2_strictly_increases, lemma_pow2_unfold, pow2,
};
use vstd::prelude::*;

use super::pattern::Layout;
use super::softfloat::Rounding;
use super::{NV, NX};

verus! {

impl Layout {
    /// The exponent field.
    pub open spec fn field(self, x: u128) -> u128 {
        self.magnitude(x) / self.normal()
    }

    /// The significand as an integer. A finite value is, but for its sign,
    /// `significand * 2^exponent`.
    pub open spec fn significand(self, x: u128) -> nat {
        if self.field(x) == 0 {
            self.magnitude(x) as nat
        } else {
            (self.magnitude(x) % self.normal() + self.normal()) as nat
        }
    }

    /// What the exponent field exceeds the exponent of the significand by.
    pub open spec fn point(self) -> int {
        match self {
            Layout::Single => 150,
            Layout::Double => 1075,
            Layout::Quad => 16495,
        }
    }

    /// The power of two the significand is scaled by.
    pub open spec fn exponent(self, x: u128) -> int {
        if self.field(x) == 0 {
            1 - self.point()
        } else {
            self.field(x) - self.point()
        }
    }

    /// The significand and the exponent of a finite value.
    pub fn parts(self, x: u128) -> (r: (u128, i64))
        requires
            self != Layout::Quad,
            self.holds(x),
        ensures
            r.0 == self.significand(x),
            r.1 == self.exponent(x),
            r.0 < 2 * self.normal(),
            self.field(x) < self.sign() / self.normal(),
            -1074 <= r.1 <= 972,
    {
        let m: u128 = self.abs(x);
        let normal: u128 = self.smallest_normal();
        let field: u128 = m / normal;
        let point: i64 = match self {
            Layout::Single => 150,
            _ => 1075,
        };
        if field == 0 {
            (m, 1 - point)
        } else {
            (m % normal + normal, field as i64 - point)
        }
    }
}

/// Whether rounding a magnitude goes to the next unit up: `rest` of `unit` is
/// left over, and `odd` is the parity of the units kept.
pub open spec fn rounds_up(
    round: Rounding,
    negative: bool,
    odd: bool,
    rest: nat,
    unit: nat,
) -> bool {
    match round {
        Rounding::NearestEven => 2 * rest > unit || (2 * rest == unit && odd),
        Rounding::Zero => false,
        Rounding::Down => negative && rest > 0,
        Rounding::Up => !negative && rest > 0,
        Rounding::NearestAway => 2 * rest >= unit,
    }
}

/// The integer a magnitude `s * 2^e` rounds to.
pub open spec fn whole(round: Rounding, negative: bool, s: nat, e: int) -> nat {
    if e >= 0 {
        s * pow2(e as nat)
    } else {
        let unit = pow2((-e) as nat);
        s / unit + (if rounds_up(round, negative, s / unit % 2 == 1, s % unit, unit) {
            1nat
        } else {
            0nat
        })
    }
}

/// Whether a magnitude `s * 2^e` is an integer.
pub open spec fn is_whole(s: nat, e: int) -> bool {
    e >= 0 || s % pow2((-e) as nat) == 0
}

/// The integer a finite value rounds to.
pub open spec fn integral(l: Layout, x: u128, round: Rounding) -> int {
    let m = whole(round, l.negative(x), l.significand(x), l.exponent(x));
    if l.negative(x) {
        -(m as int)
    } else {
        m as int
    }
}

/// fp -> integer conversion with clamping: the value and the flags.
/// NaN -> max; out of range -> min/max; both set NV. In-range inexact -> NX.
pub open spec fn int_of(l: Layout, x: u128, round: Rounding, min: int, max: int) -> (int, u64) {
    if l.nan(x) {
        (max, NV)
    } else if l.infinite(x) || !(min <= integral(l, x, round) <= max) {
        (
            if l.negative(x) {
                min
            } else {
                max
            },
            NV,
        )
    } else {
        (
            integral(l, x, round),
            if is_whole(l.significand(x), l.exponent(x)) {
                0
            } else {
                NX
            },
        )
    }
}

/// A conversion never leaves its range, and raises at most one flag: NV for
/// what has no place in the range, NX for what is not an integer.
pub proof fn law_conversion_clamps(l: Layout, x: u128, round: Rounding, min: int, max: int)
    requires
        min <= 0 <= max,
    ensures
        min <= int_of(l, x, round, min, max).0 <= max,
        int_of(l, x, round, min, max).1 == 0 || int_of(l, x, round, min, max).1 == NX || int_of(
            l,
            x,
            round,
            min,
            max,
        ).1 == NV,
        l.nan(x) ==> int_of(l, x, round, min, max) == (max, NV),
{
}

/// Rounding down gives the least integer of all directions and rounding up the
/// greatest, they differ by at most one, and an integer is itself in all.
pub proof fn law_rounding_directions(l: Layout, x: u128, round: Rounding)
    ensures
        integral(l, x, Rounding::Down) <= integral(l, x, round) <= integral(l, x, Rounding::Up),
        integral(l, x, Rounding::Up) <= integral(l, x, Rounding::Down) + 1,
        is_whole(l.significand(x), l.exponent(x)) ==> integral(l, x, Rounding::Down) == integral(
            l,
            x,
            Rounding::Up,
        ),
{
    if l.exponent(x) < 0 {
        lemma_pow2_pos((-l.exponent(x)) as nat);
    }
}

/// `2^n`.
fn power(n: u32) -> (r: u128)
    requires
        n <= 64,
    ensures
        r == pow2(n as nat),
        1 <= r <= 0x1_0000_0000_0000_0000,
{
    let mut r: u128 = 1;
    let mut i: u32 = 0;
    proof {
        lemma2_to64();
    }
    while i < n
        invariant
            i <= n <= 64,
            r == pow2(i as nat),
            1 <= r <= 0x1_0000_0000_0000_0000,
        decreases n - i,
    {
        proof {
            lemma2_to64();
            lemma_pow2_unfold((i + 1) as nat);
            if i + 1 < 64 {
                lemma_pow2_strictly_increases((i + 1) as nat, 64);
            }
        }
        r = r * 2;
        i = i + 1;
    }
    r
}

/// A magnitude rounded to an integer, or anything past `u64::MAX` if it is
/// past that, and whether it was an integer to begin with.
fn round_whole(round: Rounding, negative: bool, s: u128, e: i64) -> (r: (u128, bool))
    requires
        s < 0x20_0000_0000_0000,
        -1074 <= e <= 972,
        e > 0 ==> s > 0,
    ensures
        r.0 < 0x1_0000_0000_0000_0000 ==> r.0 == whole(round, negative, s as nat, e as int),
        r.0 >= 0x1_0000_0000_0000_0000 ==> whole(round, negative, s as nat, e as int)
            >= 0x1_0000_0000_0000_0000,
        r.0 < 0x80_0000_0000_0000_0000_0000_0000_0000,
        r.1 == is_whole(s as nat, e as int),
{
    proof {
        lemma2_to64();
    }
    if e > 64 {
        proof {
            lemma_pow2_strictly_increases(64, e as nat);
            let p = pow2(e as nat);
            assert(s * p >= p) by (nonlinear_arith)
                requires
                    s > 0,
                    p >= 0,
            ;
        }
        return (0x1_0000_0000_0000_0000, true);
    }
    if e >= 0 {
        let p: u128 = power(e as u32);
        assert(s * p < 0x80_0000_0000_0000_0000_0000_0000_0000) by (nonlinear_arith)
            requires
                s < 0x20_0000_0000_0000,
                p <= 0x1_0000_0000_0000_0000,
        ;
        return (s * p, true);
    }
    // A unit past twice the significand leaves all of it as the rest.
    let n: u32 = if e < -64 {
        64
    } else {
        (-e) as u32
    };
    let unit: u128 = power(n);
    let kept: u128 = s / unit;
    let rest: u128 = s % unit;
    proof {
        if e < -64 {
            lemma_pow2_strictly_increases(64, (-e) as nat);
            let wide = pow2((-e) as nat);
            assert(s / unit == 0 && s % unit == s);
            assert(s as nat / wide == 0 && s as nat % wide == s as nat) by {
                vstd::arithmetic::div_mod::lemma_basic_div(s as int, wide as int);
                vstd::arithmetic::div_mod::lemma_small_mod(s as nat, wide);
            }
        }
        assert(kept <= s) by (nonlinear_arith)
            requires
                kept == s / unit,
                unit >= 1,
        ;
        assert(0 <= rest < unit) by (nonlinear_arith)
            requires
                rest == s % unit,
                unit >= 1,
        ;
    }
    let odd = kept % 2 == 1;
    let up = match round {
        Rounding::NearestEven => 2 * rest > unit || (2 * rest == unit && odd),
        Rounding::Zero => false,
        Rounding::Down => negative && rest > 0,
        Rounding::Up => !negative && rest > 0,
        Rounding::NearestAway => 2 * rest >= unit,
    };
    let rounded: u128 = if up {
        kept + 1
    } else {
        kept
    };
    (rounded, rest == 0)
}

pub fn fcvt_to_int(l: Layout, x: u128, round: Rounding, min: i128, max: i128) -> (r: (i128, u64))
    requires
        l != Layout::Quad,
        l.holds(x),
        -0x8000_0000_0000_0000 <= min <= 0 <= max <= 0xffff_ffff_ffff_ffff,
    ensures
        (r.0 as int, r.1) == int_of(l, x, round, min as int, max as int),
{
    if l.is_nan(x) {
        return (max, NV);
    }
    let negative = l.is_negative(x);
    let clamped: i128 = if negative {
        min
    } else {
        max
    };
    if l.is_infinite(x) {
        return (clamped, NV);
    }
    let (s, e) = l.parts(x);
    let (m, exact) = round_whole(round, negative, s, e);
    if m >= 0x1_0000_0000_0000_0000 {
        return (clamped, NV);
    }
    let v: i128 = if negative {
        0 - m as i128
    } else {
        m as i128
    };
    if v < min || v > max {
        return (clamped, NV);
    }
    (
        v,
        if exact {
            0
        } else {
            NX
        },
    )
}

} // verus!

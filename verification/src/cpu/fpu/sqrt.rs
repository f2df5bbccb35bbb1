//! Square roots, rounded from an exact integer root.
use vstd::arithmetic::power2::{lemma_pow2_adds, lemma_pow2_pos, lemma_pow2_unfold, pow2};
use vstd::prelude::*;

use super::pattern::{canonical, canonical_nan, Layout};
use super::softfloat::{Rounded, Rounding, INEXACT, INVALID_OP};

verus! {

/// The pattern is of a positive normal value.
pub open spec fn positive_normal(l: Layout, f: u128) -> bool {
    l.normal() <= f < l.infinity()
}

/// `f` is the greatest value whose square is no greater than `x`: with `c` its
/// significand, `c^2 <= x < (c + 1)^2` in units of the square of its last
/// place.
pub open spec fn root_below(l: Layout, x: u128, f: u128) -> bool {
    let c = l.significand(f);
    let d = l.exponent(x) - 2 * l.exponent(f);
    &&& positive_normal(l, f)
    &&& d >= 0
    &&& c * c <= l.significand(x) * pow2(d as nat) < (c + 1) * (c + 1)
}

/// The root of a positive finite value, rounded down.
pub open spec fn floor_root(l: Layout, x: u128) -> u128 {
    choose|f: u128| root_below(l, x, f)
}

/// The square of the root's significand is all of `x`.
pub open spec fn root_exact(l: Layout, x: u128, f: u128) -> bool {
    let c = l.significand(f);
    c * c == l.significand(x) * pow2((l.exponent(x) - 2 * l.exponent(f)) as nat)
}

/// The root lies above the middle between `f` and the next value.
pub open spec fn root_past_middle(l: Layout, x: u128, f: u128) -> bool {
    let c = l.significand(f);
    (2 * c + 1) * (2 * c + 1) < 4 * (l.significand(x) * pow2(
        (l.exponent(x) - 2 * l.exponent(f)) as nat,
    ))
}

/// The root of a positive finite value, rounded. No binary value has its root
/// exactly in the middle between two others, so both directions to nearest
/// agree.
pub open spec fn rounded_root(l: Layout, x: u128, round: Rounding) -> Rounded {
    let f = floor_root(l, x);
    if root_exact(l, x, f) {
        Rounded { value: f, status: 0 }
    } else {
        let up = match round {
            Rounding::Up => true,
            Rounding::Down | Rounding::Zero => false,
            Rounding::NearestEven | Rounding::NearestAway => root_past_middle(l, x, f),
        };
        Rounded {
            value: if up {
                (f + 1) as u128
            } else {
                f
            },
            status: INEXACT,
        }
    }
}

/// The square root of any value.
pub open spec fn sqrt_of(l: Layout, x: u128, round: Rounding) -> Rounded {
    if l.nan(x) {
        Rounded {
            value: canonical_nan(l),
            status: if l.signaling(x) {
                INVALID_OP
            } else {
                0
            },
        }
    } else if l.negative(x) && !l.zero(x) {
        Rounded { value: canonical_nan(l), status: INVALID_OP }
    } else if l.zero(x) || l.infinite(x) {
        Rounded { value: x, status: 0 }
    } else {
        rounded_root(l, x, round)
    }
}

proof fn lemma_square_order(a: nat, b: nat)
    ensures
        a * a < b * b ==> a < b,
        a <= b ==> a * a <= b * b,
{
    assert(a * a < b * b ==> a < b) by (nonlinear_arith);
    assert(a <= b ==> a * a <= b * b) by (nonlinear_arith);
}

/// A root further down the exponents would have too large a significand.
proof fn lemma_same_exponent(l: Layout, x: u128, f: u128, g: u128)
    requires
        l != Layout::Quad,
        root_below(l, x, f),
        root_below(l, x, g),
    ensures
        l.exponent(f) >= l.exponent(g),
{
    if l.exponent(f) < l.exponent(g) {
        let (c1, c2) = (l.significand(f), l.significand(g));
        let d1 = (l.exponent(x) - 2 * l.exponent(f)) as nat;
        let d2 = (l.exponent(x) - 2 * l.exponent(g)) as nat;
        let more = (d1 - d2) as nat;
        let s = l.significand(x);
        lemma_pow2_adds(d2, more);
        lemma_pow2_pos(d2);
        assert(pow2(more) >= 4) by {
            lemma_pow2_adds(2, (more - 2) as nat);
            lemma_pow2_pos((more - 2) as nat);
            vstd::arithmetic::power2::lemma2_to64();
            let rest = pow2((more - 2) as nat);
            assert(4 * rest >= 4);
        }
        let (p1, p2, pm) = (pow2(d1), pow2(d2), pow2(more));
        assert(s * p1 >= 4 * (s * p2)) by (nonlinear_arith)
            requires
                p1 == p2 * pm,
                pm >= 4,
                s >= 0,
                p2 >= 0,
        ;
        assert((2 * c2) * (2 * c2) == 4 * (c2 * c2)) by (nonlinear_arith);
        lemma_square_order(2 * c2, c1 + 1);
        // c1 + 1 > 2 * c2, but c2 is at least half the largest significand.
        assert(false);
    }
}

/// There is only one root rounded down.
pub proof fn law_floor_root_is_unique(l: Layout, x: u128, f: u128, g: u128)
    requires
        l != Layout::Quad,
        root_below(l, x, f),
        root_below(l, x, g),
    ensures
        f == g,
{
    lemma_same_exponent(l, x, f, g);
    lemma_same_exponent(l, x, g, f);
    let (c1, c2) = (l.significand(f), l.significand(g));
    lemma_square_order(c1, c2 + 1);
    lemma_square_order(c2, c1 + 1);
    assert(c1 == c2);
    let n = l.normal() as int;
    assert(f == n * (f as int / n) + f as int % n);
    assert(g == n * (g as int / n) + g as int % n);
}

/// No root lies exactly in the middle between two values, so the two
/// directions to nearest never differ.
pub proof fn law_root_is_never_midway(l: Layout, x: u128, f: u128)
    requires
        root_below(l, x, f),
    ensures
        (2 * l.significand(f) + 1) * (2 * l.significand(f) + 1) != 4 * (l.significand(x) * pow2(
            (l.exponent(x) - 2 * l.exponent(f)) as nat,
        )),
        rounded_root(l, x, Rounding::NearestEven) == rounded_root(l, x, Rounding::NearestAway),
{
    let c = l.significand(f);
    assert((2 * c + 1) * (2 * c + 1) == 4 * (c * c + c) + 1) by (nonlinear_arith);
}

/// The integer square root.
fn isqrt(n: u128) -> (q: u128)
    requires
        n < 0x1000_0000_0000_0000_0000_0000_0000,
    ensures
        q * q <= n < (q + 1) * (q + 1),
        q < 0x40_0000_0000_0000,
{
    let mut low: u128 = 0;
    let mut high: u128 = 0x40_0000_0000_0000;
    while high - low > 1
        invariant
            low < high <= 0x40_0000_0000_0000,
            low * low <= n < high * high,
        decreases high - low,
    {
        let mid: u128 = low + (high - low) / 2;
        assert(mid * mid < 0x1000_0000_0000_0000_0000_0000_0000) by (nonlinear_arith)
            requires
                0 <= mid < 0x40_0000_0000_0000,
        ;
        if mid * mid <= n {
            low = mid;
        } else {
            high = mid;
        }
    }
    low
}

proof fn lemma_power_order(k: nat, n: nat)
    ensures
        pow2(k) < pow2(n) ==> k < n,
{
    if k >= n {
        lemma_pow2_adds(n, (k - n) as nat);
        lemma_pow2_pos((k - n) as nat);
        let (a, b) = (pow2(n), pow2((k - n) as nat));
        assert(a * b >= a) by (nonlinear_arith)
            requires
                b >= 1,
                a >= 0,
        ;
    }
}

/// The powers of two around the two formats' precisions.
proof fn lemma_powers()
    ensures
        pow2(23) == 0x80_0000,
        pow2(25) == 4 * 0x80_0000,
        pow2(26) == 8 * 0x80_0000,
        pow2(52) == 0x10_0000_0000_0000,
        pow2(54) == 4 * 0x10_0000_0000_0000,
        pow2(55) == 8 * 0x10_0000_0000_0000,
{
    vstd::arithmetic::power2::lemma2_to64();
    lemma_pow2_adds(20, 32);
    lemma_pow2_adds(22, 32);
    lemma_pow2_adds(23, 32);
}

/// The radicand scaled to an integer whose root has one bit more than a
/// significand: the integer, and the exponent of that root's last place.
fn radicand(l: Layout, x: u128) -> (r: (u128, i64))
    requires
        l != Layout::Quad,
        0 < x < l.infinity(),
    ensures
        r.1 * 2 <= l.exponent(x) - 2,
        r.0 == l.significand(x) * pow2((l.exponent(x) - 2 * r.1) as nat),
        4 * (l.normal() * l.normal()) <= r.0 < 16 * (l.normal() * l.normal()),
        -592 <= r.1 <= 459,
        l == Layout::Single ==> -100 <= r.1 <= 40,
{
    let (sig, exp) = l.parts(x);
    let normal: u128 = l.smallest_normal();
    let mut s: u128 = sig;
    let mut e: i64 = exp;
    let ghost mut k: nat = 0;
    proof {
        vstd::arithmetic::power2::lemma2_to64();
    }
    while s < normal
        invariant
            l != Layout::Quad,
            normal == l.normal(),
            0 < s < 2 * normal,
            s == sig * pow2(k),
            e == exp - k,
            k <= 52,
            l == Layout::Single ==> k <= 23,
            exp == l.exponent(x),
            -1074 <= exp <= 972,
            l == Layout::Single ==> -149 <= exp <= 104,
            sig > 0,
            pow2(k) <= s,
        decreases 2 * normal - s,
    {
        proof {
            lemma_powers();
            lemma_power_order(k, 52);
            if l == Layout::Single {
                lemma_power_order(k, 23);
            }
            lemma_pow2_unfold(k + 1);
            let p = pow2(k);
            assert(2 * (sig * p) == sig * (2 * p)) by (nonlinear_arith);
            k = k + 1;
        }
        s = s * 2;
        e = e - 1;
    }
    // An even power of two is left over, so the root of it is exact.
    let places: i64 = match l {
        Layout::Single => 25,
        _ => 54,
    };
    let even = (e - places + 2000) % 2 == 0;
    let shift: i64 = if even {
        places
    } else {
        places + 1
    };
    let factor: u128 = if even {
        4 * normal
    } else {
        8 * normal
    };
    let place: i64 = (e - shift + 2000) / 2 - 1000;
    proof {
        lemma_powers();
        assert(factor == pow2(shift as nat));
        lemma_pow2_adds(k, shift as nat);
        let (a, b) = (pow2(k), pow2(shift as nat));
        assert((sig * a) * b == sig * (a * b)) by (nonlinear_arith);
        assert(normal * factor <= s * factor < 2 * normal * factor) by (nonlinear_arith)
            requires
                normal <= s < 2 * normal,
                factor > 0,
        ;
        assert(l.exponent(x) - 2 * place == k + shift);
        if l == Layout::Single {
            assert(normal * factor == 4 * (normal * normal) || normal * factor == 8 * (normal
                * normal));
        } else {
            assert(normal * factor == 4 * (normal * normal) || normal * factor == 8 * (normal
                * normal));
        }
    }
    (s * factor, place)
}

/// From the root of the scaled radicand to the root rounded down.
proof fn lemma_root(l: Layout, x: u128, n: u128, place: int, q: u128, f: u128)
    requires
        l != Layout::Quad,
        0 < x < l.infinity(),
        place * 2 <= l.exponent(x) - 2,
        n == l.significand(x) * pow2((l.exponent(x) - 2 * place) as nat),
        4 * (l.normal() * l.normal()) <= n < 16 * (l.normal() * l.normal()),
        -592 <= place <= 459,
        l == Layout::Single ==> -100 <= place <= 40,
        q * q <= n < (q + 1) * (q + 1),
        f == (place + l.point()) * l.normal() + q / 2,
    ensures
        2 * l.normal() <= q < 4 * l.normal(),
        root_below(l, x, f),
        l.significand(f) == q / 2,
        f + 1 <= l.infinity(),
        root_exact(l, x, f) <==> (2 * (q / 2)) * (2 * (q / 2)) == n,
        root_past_middle(l, x, f) <==> (2 * (q / 2) + 1) * (2 * (q / 2) + 1) < n,
{
    let m = l.normal();
    assert(2 * m <= q < 4 * m) by (nonlinear_arith)
        requires
            q * q <= n < (q + 1) * (q + 1),
            4 * (m * m) <= n < 16 * (m * m),
            m > 0,
            q >= 0,
    ;
    let c = (q / 2) as nat;
    assert(l.field(f) == place + l.point() + 1);
    assert(l.significand(f) == c);
    assert(l.exponent(f) == place + 1);
    let d = (l.exponent(x) - 2 * place) as nat;
    let s = l.significand(x);
    vstd::arithmetic::power2::lemma2_to64();
    lemma_pow2_adds(2, (d - 2) as nat);
    let u = pow2((d - 2) as nat);
    assert(n == 4 * (s * u)) by (nonlinear_arith)
        requires
            n == s * (4 * u),
    ;
    assert((2 * c) * (2 * c) == 4 * (c * c)) by (nonlinear_arith);
    assert((2 * (c + 1)) * (2 * (c + 1)) == 4 * ((c + 1) * (c + 1))) by (nonlinear_arith);
    lemma_square_order(2 * c, q as nat);
    lemma_square_order((q + 1) as nat, 2 * (c + 1));
}

/// The square root of any single or double.
pub fn sqrt(l: Layout, x: u128, round: Rounding) -> (r: Rounded)
    requires
        l != Layout::Quad,
        l.holds(x),
    ensures
        r == sqrt_of(l, x, round),
        l.holds(r.value),
{
    if l.is_nan(x) {
        let status: u8 = if l.is_signaling(x) {
            INVALID_OP
        } else {
            0
        };
        return Rounded { value: canonical(l), status };
    }
    if l.is_zero(x) {
        return Rounded { value: x, status: 0 };
    }
    if l.is_negative(x) {
        return Rounded { value: canonical(l), status: INVALID_OP };
    }
    if l.is_infinite(x) {
        return Rounded { value: x, status: 0 };
    }
    let (n, place) = radicand(l, x);
    assert(16 * (l.normal() * l.normal()) <= 0x1000_0000_0000_0000_0000_0000_0000);
    let q: u128 = isqrt(n);
    let half: u128 = q / 2;
    let point: i64 = match l {
        Layout::Single => 150,
        _ => 1075,
    };
    let above: u128 = (place + point) as u128;
    let normal: u128 = l.smallest_normal();
    assert(above * normal <= 2000 * 0x10_0000_0000_0000) by (nonlinear_arith)
        requires
            0 <= above <= 2000,
            0 <= normal <= 0x10_0000_0000_0000,
    ;
    let f: u128 = above * normal + half;
    proof {
        lemma_root(l, x, n, place as int, q, f);
        law_floor_root_is_unique(l, x, f, floor_root(l, x));
        assert((2 * half + 1) * (2 * half + 1) < 0x1_0000_0000_0000_0000_0000_0000_0000_0000)
            by (nonlinear_arith)
            requires
                0 <= half < 0x20_0000_0000_0000,
        ;
        assert((2 * half) * (2 * half) <= (2 * half + 1) * (2 * half + 1)) by (nonlinear_arith)
            requires
                half >= 0,
        ;
    }
    if (2 * half) * (2 * half) == n {
        return Rounded { value: f, status: 0 };
    }
    let up = match round {
        Rounding::Up => true,
        Rounding::Down | Rounding::Zero => false,
        Rounding::NearestEven | Rounding::NearestAway => (2 * half + 1) * (2 * half + 1) < n,
    };
    Rounded {
        value: if up {
            f + 1
        } else {
            f
        },
        status: INEXACT,
    }
}

} // verus!

//! IEEE 754 interchange bit patterns: classes, signs, order and magnitude.
use vstd::prelude::*;

verus! {

/// A binary interchange format.
#[derive(Debug, Clone, Copy, PartialEq, Eq, Structural)]
pub enum Layout {
    Single,
    Double,
    Quad,
}

// Without its sign bit a pattern, read as a number, orders magnitudes as the
// values do: infinity stands above every finite value and the NaNs above it.
impl Layout {
    /// The weight of the sign bit.
    pub open spec fn sign(self) -> u128 {
        match self {
            Layout::Single => 0x8000_0000,
            Layout::Double => 0x8000_0000_0000_0000,
            Layout::Quad => 0x8000_0000_0000_0000_0000_0000_0000_0000,
        }
    }

    /// The weight of the lowest exponent bit, which is also the pattern of the
    /// smallest normal value.
    pub open spec fn normal(self) -> u128 {
        match self {
            Layout::Single => 0x80_0000,
            Layout::Double => 0x10_0000_0000_0000,
            Layout::Quad => 0x1_0000_0000_0000_0000_0000_0000_0000,
        }
    }

    /// The pattern of infinity.
    pub open spec fn infinity(self) -> u128 {
        (self.sign() - self.normal()) as u128
    }

    /// A pattern of this format, and no higher bits.
    pub open spec fn holds(self, x: u128) -> bool {
        self == Layout::Quad || x < 2 * self.sign()
    }

    pub open spec fn negative(self, x: u128) -> bool {
        x >= self.sign()
    }

    /// The pattern without its sign.
    pub open spec fn magnitude(self, x: u128) -> u128 {
        if self.negative(x) {
            (x - self.sign()) as u128
        } else {
            x
        }
    }

    pub open spec fn nan(self, x: u128) -> bool {
        self.magnitude(x) > self.infinity()
    }

    /// A NaN whose first significand bit is clear.
    pub open spec fn signaling(self, x: u128) -> bool {
        self.nan(x) && self.magnitude(x) < self.infinity() + self.normal() / 2
    }

    pub open spec fn infinite(self, x: u128) -> bool {
        self.magnitude(x) == self.infinity()
    }

    pub open spec fn zero(self, x: u128) -> bool {
        self.magnitude(x) == 0
    }

    pub open spec fn subnormal(self, x: u128) -> bool {
        0 < self.magnitude(x) < self.normal()
    }

    /// The pattern with its sign flipped.
    pub open spec fn negated(self, x: u128) -> u128 {
        if self.negative(x) {
            (x - self.sign()) as u128
        } else {
            (x + self.sign()) as u128
        }
    }

    /// A number that orders as the value does; both zeros are 0.
    pub open spec fn rank(self, x: u128) -> int {
        if self.negative(x) {
            -(self.magnitude(x) as int)
        } else {
            self.magnitude(x) as int
        }
    }

    /// Neither is a NaN.
    pub open spec fn ordered(self, a: u128, b: u128) -> bool {
        !self.nan(a) && !self.nan(b)
    }

    pub open spec fn equal(self, a: u128, b: u128) -> bool {
        self.ordered(a, b) && self.rank(a) == self.rank(b)
    }

    pub open spec fn less(self, a: u128, b: u128) -> bool {
        self.ordered(a, b) && self.rank(a) < self.rank(b)
    }

    pub fn sign_bit(self) -> (r: u128)
        ensures
            r == self.sign(),
    {
        match self {
            Layout::Single => 0x8000_0000,
            Layout::Double => 0x8000_0000_0000_0000,
            Layout::Quad => 0x8000_0000_0000_0000_0000_0000_0000_0000,
        }
    }

    pub fn smallest_normal(self) -> (r: u128)
        ensures
            r == self.normal(),
    {
        match self {
            Layout::Single => 0x80_0000,
            Layout::Double => 0x10_0000_0000_0000,
            Layout::Quad => 0x1_0000_0000_0000_0000_0000_0000_0000,
        }
    }

    pub fn is_negative(self, x: u128) -> (r: bool)
        ensures
            r == self.negative(x),
    {
        x >= self.sign_bit()
    }

    pub fn abs(self, x: u128) -> (r: u128)
        ensures
            r == self.magnitude(x),
    {
        if x >= self.sign_bit() {
            x - self.sign_bit()
        } else {
            x
        }
    }

    pub fn is_nan(self, x: u128) -> (r: bool)
        ensures
            r == self.nan(x),
    {
        self.abs(x) > self.sign_bit() - self.smallest_normal()
    }

    pub fn is_signaling(self, x: u128) -> (r: bool)
        ensures
            r == self.signaling(x),
    {
        let m: u128 = self.abs(x);
        let infinity: u128 = self.sign_bit() - self.smallest_normal();
        m > infinity && m < infinity + self.smallest_normal() / 2
    }

    pub fn is_infinite(self, x: u128) -> (r: bool)
        ensures
            r == self.infinite(x),
    {
        self.abs(x) == self.sign_bit() - self.smallest_normal()
    }

    pub fn is_zero(self, x: u128) -> (r: bool)
        ensures
            r == self.zero(x),
    {
        self.abs(x) == 0
    }

    pub fn is_subnormal(self, x: u128) -> (r: bool)
        ensures
            r == self.subnormal(x),
    {
        let m: u128 = self.abs(x);
        0 < m && m < self.smallest_normal()
    }

    pub fn neg(self, x: u128) -> (r: u128)
        requires
            self.holds(x),
        ensures
            r == self.negated(x),
            self.holds(r),
    {
        if x >= self.sign_bit() {
            x - self.sign_bit()
        } else {
            x + self.sign_bit()
        }
    }

    /// `a == b` on the values.
    pub fn eq_values(self, a: u128, b: u128) -> (r: bool)
        ensures
            r == self.equal(a, b),
    {
        if self.is_nan(a) || self.is_nan(b) {
            return false;
        }
        let (x, y) = (self.abs(a), self.abs(b));
        x == y && (x == 0 || self.is_negative(a) == self.is_negative(b))
    }

    /// `a < b` on the values.
    pub fn lt_values(self, a: u128, b: u128) -> (r: bool)
        ensures
            r == self.less(a, b),
    {
        if self.is_nan(a) || self.is_nan(b) {
            return false;
        }
        let (x, y) = (self.abs(a), self.abs(b));
        match (self.is_negative(a), self.is_negative(b)) {
            (false, false) => x < y,
            (true, true) => y < x,
            (true, false) => x != 0 || y != 0,
            (false, true) => false,
        }
    }
}

/// fclass bitmask (identical bit layout for both formats).
pub open spec fn class_of(l: Layout, x: u128) -> u64 {
    if l.nan(x) {
        if l.signaling(x) {
            0x100
        } else {
            0x200
        }
    } else if l.infinite(x) {
        if l.negative(x) {
            0x01
        } else {
            0x80
        }
    } else if l.zero(x) {
        if l.negative(x) {
            0x08
        } else {
            0x10
        }
    } else if l.subnormal(x) {
        if l.negative(x) {
            0x04
        } else {
            0x20
        }
    } else {
        if l.negative(x) {
            0x02
        } else {
            0x40
        }
    }
}

pub fn classify(l: Layout, x: u128) -> (r: u64)
    ensures
        r == class_of(l, x),
{
    if l.is_nan(x) {
        return if l.is_signaling(x) {
            0x100
        } else {
            0x200
        };
    }
    let negative = l.is_negative(x);
    if l.is_infinite(x) {
        if negative {
            0x01
        } else {
            0x80
        }
    } else if l.is_zero(x) {
        if negative {
            0x08
        } else {
            0x10
        }
    } else if l.is_subnormal(x) {
        if negative {
            0x04
        } else {
            0x20
        }
    } else {
        if negative {
            0x02
        } else {
            0x40
        }
    }
}

/// The quiet NaN that computations produce.
pub open spec fn canonical_nan(l: Layout) -> u128 {
    (l.infinity() + l.normal() / 2) as u128
}

pub fn canonical(l: Layout) -> (r: u128)
    ensures
        r == canonical_nan(l),
{
    (l.sign_bit() - l.smallest_normal()) + l.smallest_normal() / 2
}

/// RISC-V fmin: both NaN -> canonical NaN; one NaN -> the other; -0.0 < +0.0.
pub open spec fn smaller(l: Layout, a: u128, b: u128) -> u128 {
    if l.nan(a) && l.nan(b) {
        canonical_nan(l)
    } else if l.nan(a) {
        b
    } else if l.nan(b) {
        a
    } else if l.less(b, a) || (l.equal(a, b) && !l.negative(a)) {
        b
    } else {
        a
    }
}

/// RISC-V fmax: both NaN -> canonical NaN; one NaN -> the other; -0.0 < +0.0.
pub open spec fn larger(l: Layout, a: u128, b: u128) -> u128 {
    if l.nan(a) && l.nan(b) {
        canonical_nan(l)
    } else if l.nan(a) {
        b
    } else if l.nan(b) {
        a
    } else if l.less(a, b) || (l.equal(a, b) && l.negative(a)) {
        b
    } else {
        a
    }
}

pub fn min(l: Layout, a: u128, b: u128) -> (r: u128)
    ensures
        r == smaller(l, a, b),
{
    if l.is_nan(a) {
        if l.is_nan(b) {
            canonical(l)
        } else {
            b
        }
    } else if l.is_nan(b) {
        a
    } else if l.lt_values(b, a) || (l.eq_values(a, b) && !l.is_negative(a)) {
        b
    } else {
        a
    }
}

pub fn max(l: Layout, a: u128, b: u128) -> (r: u128)
    ensures
        r == larger(l, a, b),
{
    if l.is_nan(a) {
        if l.is_nan(b) {
            canonical(l)
        } else {
            b
        }
    } else if l.is_nan(b) {
        a
    } else if l.lt_values(a, b) || (l.eq_values(a, b) && l.is_negative(a)) {
        b
    } else {
        a
    }
}

/// Of two values that are not NaNs the minimum is one of them and no greater
/// than either, the maximum is the other and no less, and of two zeros the
/// minimum is the negative one if there is one.
pub proof fn law_min_max(l: Layout, a: u128, b: u128)
    requires
        l.holds(a),
        l.holds(b),
        l.ordered(a, b),
    ensures
        (smaller(l, a, b) == a && larger(l, a, b) == b) || (smaller(l, a, b) == b && larger(l, a, b)
            == a),
        !l.less(a, smaller(l, a, b)),
        !l.less(b, smaller(l, a, b)),
        !l.less(larger(l, a, b), a),
        !l.less(larger(l, a, b), b),
        l.zero(a) && l.zero(b) ==> l.negative(smaller(l, a, b)) == (l.negative(a) || l.negative(b)),
        l.zero(a) && l.zero(b) ==> l.negative(larger(l, a, b)) == (l.negative(a) && l.negative(b)),
{
}

/// Of two values exactly one is less, equal or greater, unless one is a NaN:
/// then none holds.
pub proof fn law_order(l: Layout, a: u128, b: u128)
    ensures
        l.ordered(a, b) ==> (l.less(a, b) || l.equal(a, b) || l.less(b, a)),
        !(l.less(a, b) && l.equal(a, b)),
        !(l.less(a, b) && l.less(b, a)),
        !(l.equal(a, b) && l.less(b, a)),
        !l.ordered(a, b) ==> !l.less(a, b) && !l.equal(a, b) && !l.less(b, a),
{
}

/// Every pattern has exactly one class.
pub proof fn law_class_is_one_bit(l: Layout, x: u128)
    ensures
        class_of(l, x) == 0x001 || class_of(l, x) == 0x002 || class_of(l, x) == 0x004 || class_of(
            l,
            x,
        ) == 0x008 || class_of(l, x) == 0x010 || class_of(l, x) == 0x020 || class_of(l, x) == 0x040
            || class_of(l, x) == 0x080 || class_of(l, x) == 0x100 || class_of(l, x) == 0x200,
        class_of(l, x) >= 0x100 <==> l.nan(x),
{
}

} // verus!

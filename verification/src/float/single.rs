//! Single-precision values.

use vstd::arithmetic::power2;
use vstd::prelude::*;

use crate::float::grid;
use crate::float::magnitude;
use crate::float::magnitude::Format;

verus! {

/// The sign bit.
pub const SIGN: u32 = 0x8000_0000;

/// The pattern of positive infinity.
pub const INFINITY: u32 = 0x7F80_0000;

/// The pattern of every undefined result.
pub const NAN: u32 = 0x7FC0_0000;

/// A `binary32` value, held as its bit pattern.
///
/// Equality of these values is equality of patterns; [`F32::same`] is the numeric one,
/// which holds of the two zeros and fails on an undefined value.
#[derive(Clone, Copy, Debug, PartialEq, Eq, Structural)]
pub struct F32 {
    pub bits: u32,
}

/// The format of [`F32`].
pub open spec fn format() -> Format {
    Format { p: 23, unit: 149, top: 0x7F80_0000 }
}

/// The value with the given sign and magnitude pattern.
pub open spec fn signed(negative: bool, k: nat) -> F32 {
    F32 {
        bits: if negative {
            (SIGN + k) as u32
        } else {
            k as u32
        },
    }
}

impl F32 {
    /// Whether the sign bit is set.
    pub open spec fn negative(self) -> bool {
        self.bits >= SIGN
    }

    /// The pattern without its sign.
    pub open spec fn magnitude(self) -> u32 {
        if self.bits >= SIGN {
            (self.bits - SIGN) as u32
        } else {
            self.bits
        }
    }

    /// Whether the value is undefined.
    pub open spec fn nan(self) -> bool {
        self.magnitude() > INFINITY
    }

    /// Whether the value is an infinity.
    pub open spec fn infinite(self) -> bool {
        self.magnitude() == INFINITY
    }

    /// Whether the value is a number other than an infinity.
    pub open spec fn finite(self) -> bool {
        self.magnitude() < INFINITY
    }

    /// The exact value of a finite number, in units of `2^-149`.
    pub open spec fn units(self) -> int {
        if self.negative() {
            -(format().value(self.magnitude() as u64) as int)
        } else {
            format().value(self.magnitude() as u64) as int
        }
    }

    /// The place of a defined value in the numeric order.
    pub open spec fn rank(self) -> int {
        if self.negative() {
            -(self.magnitude() as int)
        } else {
            self.magnitude() as int
        }
    }

    /// The value with its sign turned.
    pub open spec fn turned(self) -> F32 {
        signed(!self.negative(), self.magnitude() as nat)
    }

    /// The value without its sign.
    pub open spec fn unsigned(self) -> F32 {
        signed(false, self.magnitude() as nat)
    }
}

/// `a < b`.
pub open spec fn less(a: F32, b: F32) -> bool {
    !a.nan() && !b.nan() && a.rank() < b.rank()
}

/// `a <= b`.
pub open spec fn at_most(a: F32, b: F32) -> bool {
    !a.nan() && !b.nan() && a.rank() <= b.rank()
}

/// `a == b`, numerically.
pub open spec fn equal(a: F32, b: F32) -> bool {
    !a.nan() && !b.nan() && a.rank() == b.rank()
}

/// The greater of the two; an undefined operand gives way to the other.
pub open spec fn greater_of(a: F32, b: F32) -> F32 {
    if a.nan() || less(a, b) {
        b
    } else {
        a
    }
}

/// `a` held between `low` and `high`; an undefined value stays undefined.
pub open spec fn held(a: F32, low: F32, high: F32) -> F32 {
    if less(a, low) {
        low
    } else if less(high, a) {
        high
    } else {
        a
    }
}

/// `a + b`.
pub open spec fn sum(a: F32, b: F32) -> F32 {
    if a.nan() || b.nan() || (a.infinite() && b.infinite() && a.negative() != b.negative()) {
        F32 { bits: NAN }
    } else if a.infinite() {
        a
    } else if b.infinite() {
        b
    } else {
        let s = a.units() + b.units();
        if s == 0 {
            signed(a.negative() && b.negative(), 0)
        } else if s > 0 {
            signed(false, format().nearest(s as nat, 1))
        } else {
            signed(true, format().nearest((-s) as nat, 1))
        }
    }
}

/// `a - b`.
pub open spec fn difference(a: F32, b: F32) -> F32 {
    sum(a, b.turned())
}

/// `a * b`.
pub open spec fn product(a: F32, b: F32) -> F32 {
    let negative = a.negative() != b.negative();
    if a.nan() || b.nan() || (a.infinite() && b.magnitude() == 0) || (a.magnitude() == 0
        && b.infinite()) {
        F32 { bits: NAN }
    } else if a.infinite() || b.infinite() {
        signed(negative, INFINITY as nat)
    } else {
        signed(
            negative,
            format().nearest(
                a.unsigned().units() as nat * b.unsigned().units() as nat,
                power2::pow2(149),
            ),
        )
    }
}

/// `a / b`.
pub open spec fn quotient(a: F32, b: F32) -> F32 {
    let negative = a.negative() != b.negative();
    if a.nan() || b.nan() || (a.infinite() && b.infinite()) || (a.magnitude() == 0 && b.magnitude()
        == 0) {
        F32 { bits: NAN }
    } else if a.infinite() || b.magnitude() == 0 {
        signed(negative, INFINITY as nat)
    } else if b.infinite() {
        signed(negative, 0)
    } else {
        signed(
            negative,
            format().nearest(
                a.unsigned().units() as nat * power2::pow2(149),
                b.unsigned().units() as nat,
            ),
        )
    }
}

/// The value nearest to a whole number.
pub open spec fn whole(v: nat) -> F32 {
    signed(false, format().nearest(v * power2::pow2(149), 1))
}

/// Comparing places in the order compares the exact values.
pub proof fn order_is_numeric(a: F32, b: F32)
    requires
        a.finite(),
        b.finite(),
    ensures
        less(a, b) <==> a.units() < b.units(),
        at_most(a, b) <==> a.units() <= b.units(),
        equal(a, b) <==> a.units() == b.units(),
{
    let (x, y) = (a.magnitude() as nat, b.magnitude() as nat);
    power2::lemma_pow2_pos(23);
    grid::lemma_grid_increases(23, 0, x);
    grid::lemma_grid_increases(23, 0, y);
    if x <= y {
        grid::lemma_grid_increases(23, x, y);
    } else {
        grid::lemma_grid_increases(23, y, x);
    }
}

impl F32 {
    /// The value with the given bit pattern.
    pub fn from_bits(bits: u32) -> (r: F32)
        ensures
            r.bits == bits,
    {
        F32 { bits }
    }

    /// The bit pattern.
    pub fn to_bits(self) -> (r: u32)
        ensures
            r == self.bits,
    {
        self.bits
    }

    fn is_negative(self) -> (r: bool)
        ensures
            r == self.negative(),
    {
        self.bits >= SIGN
    }

    fn pattern(self) -> (r: u32)
        ensures
            r == self.magnitude(),
            r < SIGN,
    {
        if self.bits >= SIGN {
            self.bits - SIGN
        } else {
            self.bits
        }
    }

    fn with_sign(negative: bool, k: u32) -> (r: F32)
        requires
            k < SIGN,
        ensures
            r == signed(negative, k as nat),
    {
        if negative {
            F32 { bits: SIGN + k }
        } else {
            F32 { bits: k }
        }
    }

    /// Whether the value is undefined.
    pub fn is_nan(self) -> (r: bool)
        ensures
            r == self.nan(),
    {
        self.pattern() > INFINITY
    }

    /// Whether the value is a number other than an infinity.
    pub fn is_finite(self) -> (r: bool)
        ensures
            r == self.finite(),
    {
        self.pattern() < INFINITY
    }

    fn is_infinite(self) -> (r: bool)
        ensures
            r == self.infinite(),
    {
        self.pattern() == INFINITY
    }

    /// Whether this value is below `other`.
    pub fn below(self, other: F32) -> (r: bool)
        ensures
            r == less(self, other),
    {
        if self.is_nan() || other.is_nan() {
            return false;
        }
        let (a, b) = (self.pattern(), other.pattern());
        if self.is_negative() {
            if other.is_negative() {
                a > b
            } else {
                a > 0 || b > 0
            }
        } else if other.is_negative() {
            false
        } else {
            a < b
        }
    }

    /// Whether the two values are numerically equal.
    pub fn same(self, other: F32) -> (r: bool)
        ensures
            r == equal(self, other),
    {
        if self.is_nan() || other.is_nan() {
            return false;
        }
        let (a, b) = (self.pattern(), other.pattern());
        if self.is_negative() == other.is_negative() {
            a == b
        } else {
            a == 0 && b == 0
        }
    }

    /// Whether this value is at most `other`.
    pub fn at_most(self, other: F32) -> (r: bool)
        ensures
            r == at_most(self, other),
    {
        self.below(other) || self.same(other)
    }

    /// The greater of the two.
    pub fn max(self, other: F32) -> (r: F32)
        ensures
            r == greater_of(self, other),
    {
        if self.is_nan() || self.below(other) {
            other
        } else {
            self
        }
    }

    /// This value held between `low` and `high`.
    pub fn clamp(self, low: F32, high: F32) -> (r: F32)
        ensures
            r == held(self, low, high),
    {
        if self.below(low) {
            low
        } else if high.below(self) {
            high
        } else {
            self
        }
    }

    /// The absolute value.
    pub fn abs(self) -> (r: F32)
        ensures
            r == self.unsigned(),
    {
        F32::with_sign(false, self.pattern())
    }

    /// The negated value.
    pub fn negated(self) -> (r: F32)
        ensures
            r == self.turned(),
    {
        F32::with_sign(!self.is_negative(), self.pattern())
    }

    /// The sum.
    pub fn plus(self, other: F32) -> (r: F32)
        ensures
            r == sum(self, other),
    {
        if self.is_nan() || other.is_nan() || (self.is_infinite() && other.is_infinite()
            && self.is_negative() != other.is_negative()) {
            return F32 { bits: NAN };
        }
        if self.is_infinite() {
            return self;
        }
        if other.is_infinite() {
            return other;
        }
        let (a, b) = (self.pattern(), other.pattern());
        let (na, nb) = (self.is_negative(), other.is_negative());
        let f = magnitude::single_format();
        proof {
            let (x, y) = (a as nat, b as nat);
            power2::lemma_pow2_pos(23);
            grid::lemma_grid_increases(23, 0, x);
            grid::lemma_grid_increases(23, 0, y);
            if x <= y {
                grid::lemma_grid_increases(23, x, y);
            } else {
                grid::lemma_grid_increases(23, y, x);
            }
        }
        if na == nb {
            if a == 0 && b == 0 {
                return F32::with_sign(na, 0);
            }
            let k = magnitude::plus(f, a as u64, b as u64) as u32;
            F32::with_sign(na, k)
        } else if a == b {
            F32::with_sign(false, 0)
        } else if a > b {
            let k = magnitude::minus(f, a as u64, b as u64) as u32;
            F32::with_sign(na, k)
        } else {
            let k = magnitude::minus(f, b as u64, a as u64) as u32;
            F32::with_sign(nb, k)
        }
    }

    /// The difference.
    pub fn minus(self, other: F32) -> (r: F32)
        ensures
            r == difference(self, other),
    {
        self.plus(other.negated())
    }

    /// The product.
    pub fn times(self, other: F32) -> (r: F32)
        ensures
            r == product(self, other),
    {
        let negative = self.is_negative() != other.is_negative();
        let (a, b) = (self.pattern(), other.pattern());
        if self.is_nan() || other.is_nan() || (self.is_infinite() && b == 0) || (a == 0
            && other.is_infinite()) {
            return F32 { bits: NAN };
        }
        if self.is_infinite() || other.is_infinite() {
            return F32::with_sign(negative, INFINITY);
        }
        let k = magnitude::times(magnitude::single_format(), a as u64, b as u64) as u32;
        F32::with_sign(negative, k)
    }

    /// The quotient.
    pub fn over(self, other: F32) -> (r: F32)
        ensures
            r == quotient(self, other),
    {
        let negative = self.is_negative() != other.is_negative();
        let (a, b) = (self.pattern(), other.pattern());
        if self.is_nan() || other.is_nan() || (self.is_infinite() && other.is_infinite()) || (a == 0
            && b == 0) {
            return F32 { bits: NAN };
        }
        if self.is_infinite() || b == 0 {
            return F32::with_sign(negative, INFINITY);
        }
        if other.is_infinite() {
            return F32::with_sign(negative, 0);
        }
        let k = magnitude::over(magnitude::single_format(), a as u64, b as u64) as u32;
        F32::with_sign(negative, k)
    }

    /// The value nearest to `v`.
    pub fn from_whole(v: u128) -> (r: F32)
        requires
            v < 0x8000_0000_0000_0000_0000_0000_0000_0000,
        ensures
            r == whole(v as nat),
    {
        let k = magnitude::from_integer(magnitude::single_format(), v) as u32;
        F32::with_sign(false, k)
    }
}

/// `a` with its fraction cut off, held between zero and `cap`; an undefined value counts as
/// zero.
pub open spec fn truncated(a: F32, cap: nat) -> nat {
    if a.nan() || a.negative() {
        0
    } else if a.infinite() {
        cap
    } else {
        let exact = a.units() as nat / power2::pow2(149);
        if exact <= cap {
            exact
        } else {
            cap
        }
    }
}

impl F32 {
    /// The value with its fraction cut off, between zero and `cap`.
    pub fn truncate_at_most(self, cap: u64) -> (r: u64)
        ensures
            r == truncated(self, cap as nat),
    {
        if self.is_nan() || self.is_negative() {
            0
        } else if self.is_infinite() {
            cap
        } else {
            magnitude::floor_at_most(magnitude::single_format(), self.pattern() as u64, cap)
        }
    }
}

} // verus!

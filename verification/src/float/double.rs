//! Double-precision values.

use vstd::arithmetic::power2;
use vstd::prelude::*;

use crate::float::grid;
use crate::float::magnitude;
use crate::float::magnitude::Format;
use crate::float::single;
use crate::float::single::F32;

verus! {

/// The sign bit.
pub const SIGN: u64 = 0x8000_0000_0000_0000;

/// The pattern of positive infinity.
pub const INFINITY: u64 = 0x7FF0_0000_0000_0000;

/// The pattern of every undefined result.
pub const NAN: u64 = 0x7FF8_0000_0000_0000;

/// A `binary64` value, held as its bit pattern.
///
/// Equality of these values is equality of patterns; [`F64::same`] is the numeric one,
/// which holds of the two zeros and fails on an undefined value.
#[derive(Clone, Copy, Debug, PartialEq, Eq, Structural)]
pub struct F64 {
    pub bits: u64,
}

/// The format of [`F64`].
pub open spec fn format() -> Format {
    Format { p: 52, unit: 1074, top: 0x7FF0_0000_0000_0000 }
}

/// The value with the given sign and magnitude pattern.
pub open spec fn signed(negative: bool, k: nat) -> F64 {
    F64 {
        bits: if negative {
            (SIGN + k) as u64
        } else {
            k as u64
        },
    }
}

impl F64 {
    /// Whether the sign bit is set.
    pub open spec fn negative(self) -> bool {
        self.bits >= SIGN
    }

    /// The pattern without its sign.
    pub open spec fn magnitude(self) -> u64 {
        if self.bits >= SIGN {
            (self.bits - SIGN) as u64
        } else {
            self.bits
        }
    }

    /// Whether the value is undefined.
    pub open spec fn nan(self) -> bool {
        self.magnitude() > INFINITY
    }

    /// Whether the value is an infinity.
    pub open spec fn infinite(self) -> bool {
        self.magnitude() == INFINITY
    }

    /// Whether the value is a number other than an infinity.
    pub open spec fn finite(self) -> bool {
        self.magnitude() < INFINITY
    }

    /// The exact value of a finite number, in units of `2^-1074`.
    pub open spec fn units(self) -> int {
        if self.negative() {
            -(format().value(self.magnitude() as u64) as int)
        } else {
            format().value(self.magnitude() as u64) as int
        }
    }

    /// The place of a defined value in the numeric order.
    pub open spec fn rank(self) -> int {
        if self.negative() {
            -(self.magnitude() as int)
        } else {
            self.magnitude() as int
        }
    }

    /// The value with its sign turned.
    pub open spec fn turned(self) -> F64 {
        signed(!self.negative(), self.magnitude() as nat)
    }

    /// The value without its sign.
    pub open spec fn unsigned(self) -> F64 {
        signed(false, self.magnitude() as nat)
    }
}

/// `a < b`.
pub open spec fn less(a: F64, b: F64) -> bool {
    !a.nan() && !b.nan() && a.rank() < b.rank()
}

/// `a <= b`.
pub open spec fn at_most(a: F64, b: F64) -> bool {
    !a.nan() && !b.nan() && a.rank() <= b.rank()
}

/// `a == b`, numerically.
pub open spec fn equal(a: F64, b: F64) -> bool {
    !a.nan() && !b.nan() && a.rank() == b.rank()
}

/// The greater of the two; an undefined operand gives way to the other.
pub open spec fn greater_of(a: F64, b: F64) -> F64 {
    if a.nan() || less(a, b) {
        b
    } else {
        a
    }
}

/// `a` held between `low` and `high`; an undefined value stays undefined.
pub open spec fn held(a: F64, low: F64, high: F64) -> F64 {
    if less(a, low) {
        low
    } else if less(high, a) {
        high
    } else {
        a
    }
}

/// `a + b`.
pub open spec fn sum(a: F64, b: F64) -> F64 {
    if a.nan() || b.nan() || (a.infinite() && b.infinite() && a.negative() != b.negative()) {
        F64 { bits: NAN }
    } else if a.infinite() {
        a
    } else if b.infinite() {
        b
    } else {
        let s = a.units() + b.units();
        if s == 0 {
            signed(a.negative() && b.negative(), 0)
        } else if s > 0 {
            signed(false, format().nearest(s as nat, 1))
        } else {
            signed(true, format().nearest((-s) as nat, 1))
        }
    }
}

/// `a - b`.
pub open spec fn difference(a: F64, b: F64) -> F64 {
    sum(a, b.turned())
}

/// `a * b`.
pub open spec fn product(a: F64, b: F64) -> F64 {
    let negative = a.negative() != b.negative();
    if a.nan() || b.nan() || (a.infinite() && b.magnitude() == 0) || (a.magnitude() == 0
        && b.infinite()) {
        F64 { bits: NAN }
    } else if a.infinite() || b.infinite() {
        signed(negative, INFINITY as nat)
    } else {
        signed(
            negative,
            format().nearest(
                a.unsigned().units() as nat * b.unsigned().units() as nat,
                power2::pow2(1074),
            ),
        )
    }
}

/// `a / b`.
pub open spec fn quotient(a: F64, b: F64) -> F64 {
    let negative = a.negative() != b.negative();
    if a.nan() || b.nan() || (a.infinite() && b.infinite()) || (a.magnitude() == 0 && b.magnitude()
        == 0) {
        F64 { bits: NAN }
    } else if a.infinite() || b.magnitude() == 0 {
        signed(negative, INFINITY as nat)
    } else if b.infinite() {
        signed(negative, 0)
    } else {
        signed(
            negative,
            format().nearest(
                a.unsigned().units() as nat * power2::pow2(1074),
                b.unsigned().units() as nat,
            ),
        )
    }
}

/// The value nearest to a whole number.
pub open spec fn whole(v: nat) -> F64 {
    signed(false, format().nearest(v * power2::pow2(1074), 1))
}

/// Comparing places in the order compares the exact values.
pub proof fn order_is_numeric(a: F64, b: F64)
    requires
        a.finite(),
        b.finite(),
    ensures
        less(a, b) <==> a.units() < b.units(),
        at_most(a, b) <==> a.units() <= b.units(),
        equal(a, b) <==> a.units() == b.units(),
{
    let (x, y) = (a.magnitude() as nat, b.magnitude() as nat);
    power2::lemma_pow2_pos(52);
    grid::lemma_grid_increases(52, 0, x);
    grid::lemma_grid_increases(52, 0, y);
    if x <= y {
        grid::lemma_grid_increases(52, x, y);
    } else {
        grid::lemma_grid_increases(52, y, x);
    }
}

impl F64 {
    /// The value with the given bit pattern.
    pub fn from_bits(bits: u64) -> (r: F64)
        ensures
            r.bits == bits,
    {
        F64 { bits }
    }

    /// The bit pattern.
    pub fn to_bits(self) -> (r: u64)
        ensures
            r == self.bits,
    {
        self.bits
    }

    fn is_negative(self) -> (r: bool)
        ensures
            r == self.negative(),
    {
        self.bits >= SIGN
    }

    fn pattern(self) -> (r: u64)
        ensures
            r == self.magnitude(),
            r < SIGN,
    {
        if self.bits >= SIGN {
            self.bits - SIGN
        } else {
            self.bits
        }
    }

    fn with_sign(negative: bool, k: u64) -> (r: F64)
        requires
            k < SIGN,
        ensures
            r == signed(negative, k as nat),
    {
        if negative {
            F64 { bits: SIGN + k }
        } else {
            F64 { bits: k }
        }
    }

    /// Whether the value is undefined.
    pub fn is_nan(self) -> (r: bool)
        ensures
            r == self.nan(),
    {
        self.pattern() > INFINITY
    }

    /// Whether the value is a number other than an infinity.
    pub fn is_finite(self) -> (r: bool)
        ensures
            r == self.finite(),
    {
        self.pattern() < INFINITY
    }

    fn is_infinite(self) -> (r: bool)
        ensures
            r == self.infinite(),
    {
        self.pattern() == INFINITY
    }

    /// Whether this value is below `other`.
    pub fn below(self, other: F64) -> (r: bool)
        ensures
            r == less(self, other),
    {
        if self.is_nan() || other.is_nan() {
            return false;
        }
        let (a, b) = (self.pattern(), other.pattern());
        if self.is_negative() {
            if other.is_negative() {
                a > b
            } else {
                a > 0 || b > 0
            }
        } else if other.is_negative() {
            false
        } else {
            a < b
        }
    }

    /// Whether the two values are numerically equal.
    pub fn same(self, other: F64) -> (r: bool)
        ensures
            r == equal(self, other),
    {
        if self.is_nan() || other.is_nan() {
            return false;
        }
        let (a, b) = (self.pattern(), other.pattern());
        if self.is_negative() == other.is_negative() {
            a == b
        } else {
            a == 0 && b == 0
        }
    }

    /// Whether this value is at most `other`.
    pub fn at_most(self, other: F64) -> (r: bool)
        ensures
            r == at_most(self, other),
    {
        self.below(other) || self.same(other)
    }

    /// The greater of the two.
    pub fn max(self, other: F64) -> (r: F64)
        ensures
            r == greater_of(self, other),
    {
        if self.is_nan() || self.below(other) {
            other
        } else {
            self
        }
    }

    /// This value held between `low` and `high`.
    pub fn clamp(self, low: F64, high: F64) -> (r: F64)
        ensures
            r == held(self, low, high),
    {
        if self.below(low) {
            low
        } else if high.below(self) {
            high
        } else {
            self
        }
    }

    /// The absolute value.
    pub fn abs(self) -> (r: F64)
        ensures
            r == self.unsigned(),
    {
        F64::with_sign(false, self.pattern())
    }

    /// The negated value.
    pub fn negated(self) -> (r: F64)
        ensures
            r == self.turned(),
    {
        F64::with_sign(!self.is_negative(), self.pattern())
    }

    /// The sum.
    pub fn plus(self, other: F64) -> (r: F64)
        ensures
            r == sum(self, other),
    {
        if self.is_nan() || other.is_nan() || (self.is_infinite() && other.is_infinite()
            && self.is_negative() != other.is_negative()) {
            return F64 { bits: NAN };
        }
        if self.is_infinite() {
            return self;
        }
        if other.is_infinite() {
            return other;
        }
        let (a, b) = (self.pattern(), other.pattern());
        let (na, nb) = (self.is_negative(), other.is_negative());
        let f = magnitude::double_format();
        proof {
            let (x, y) = (a as nat, b as nat);
            power2::lemma_pow2_pos(52);
            grid::lemma_grid_increases(52, 0, x);
            grid::lemma_grid_increases(52, 0, y);
            if x <= y {
                grid::lemma_grid_increases(52, x, y);
            } else {
                grid::lemma_grid_increases(52, y, x);
            }
        }
        if na == nb {
            if a == 0 && b == 0 {
                return F64::with_sign(na, 0);
            }
            let k = magnitude::plus(f, a as u64, b as u64);
            F64::with_sign(na, k)
        } else if a == b {
            F64::with_sign(false, 0)
        } else if a > b {
            let k = magnitude::minus(f, a as u64, b as u64);
            F64::with_sign(na, k)
        } else {
            let k = magnitude::minus(f, b as u64, a as u64);
            F64::with_sign(nb, k)
        }
    }

    /// The difference.
    pub fn minus(self, other: F64) -> (r: F64)
        ensures
            r == difference(self, other),
    {
        self.plus(other.negated())
    }

    /// The product.
    pub fn times(self, other: F64) -> (r: F64)
        ensures
            r == product(self, other),
    {
        let negative = self.is_negative() != other.is_negative();
        let (a, b) = (self.pattern(), other.pattern());
        if self.is_nan() || other.is_nan() || (self.is_infinite() && b == 0) || (a == 0
            && other.is_infinite()) {
            return F64 { bits: NAN };
        }
        if self.is_infinite() || other.is_infinite() {
            return F64::with_sign(negative, INFINITY);
        }
        let k = magnitude::times(magnitude::double_format(), a as u64, b as u64);
        F64::with_sign(negative, k)
    }

    /// The quotient.
    pub fn over(self, other: F64) -> (r: F64)
        ensures
            r == quotient(self, other),
    {
        let negative = self.is_negative() != other.is_negative();
        let (a, b) = (self.pattern(), other.pattern());
        if self.is_nan() || other.is_nan() || (self.is_infinite() && other.is_infinite()) || (a == 0
            && b == 0) {
            return F64 { bits: NAN };
        }
        if self.is_infinite() || b == 0 {
            return F64::with_sign(negative, INFINITY);
        }
        if other.is_infinite() {
            return F64::with_sign(negative, 0);
        }
        let k = magnitude::over(magnitude::double_format(), a as u64, b as u64);
        F64::with_sign(negative, k)
    }

    /// The value nearest to `v`.
    pub fn from_whole(v: u128) -> (r: F64)
        requires
            v < 0x8000_0000_0000_0000_0000_0000_0000_0000,
        ensures
            r == whole(v as nat),
    {
        let k = magnitude::from_integer(magnitude::double_format(), v);
        F64::with_sign(false, k)
    }
}

/// The single-precision value nearest to `a`.
pub open spec fn narrowed(a: F64) -> F32 {
    if a.nan() {
        F32 { bits: single::NAN }
    } else if a.infinite() {
        single::signed(a.negative(), single::INFINITY as nat)
    } else {
        single::signed(
            a.negative(),
            single::format().nearest(
                a.unsigned().units() as nat * power2::pow2(149),
                power2::pow2(1074),
            ),
        )
    }
}

/// The double-precision value of `a`.
pub open spec fn widened(a: F32) -> F64 {
    if a.nan() {
        F64 { bits: NAN }
    } else if a.infinite() {
        signed(a.negative(), INFINITY as nat)
    } else {
        signed(
            a.negative(),
            format().nearest(
                a.unsigned().units() as nat * power2::pow2(1074),
                power2::pow2(149),
            ),
        )
    }
}

/// `a` rounded to a whole number, halves away from zero, held between zero and `cap`; an
/// undefined value counts as zero.
pub open spec fn rounded(a: F64, cap: nat) -> nat {
    if a.nan() || a.negative() {
        0
    } else if a.infinite() {
        cap
    } else {
        let exact = magnitude::half_up(a.units() as nat, power2::pow2(1074));
        if exact <= cap {
            exact
        } else {
            cap
        }
    }
}

impl F64 {
    /// The nearest single-precision value.
    pub fn to_single(self) -> (r: F32)
        ensures
            r == narrowed(self),
    {
        if self.is_nan() {
            return F32 { bits: single::NAN };
        }
        let k: u32 = if self.is_infinite() {
            single::INFINITY
        } else {
            magnitude::convert(
                magnitude::double_format(),
                self.pattern(),
                magnitude::single_format(),
            ) as u32
        };
        if self.is_negative() {
            F32 { bits: single::SIGN + k }
        } else {
            F32 { bits: k }
        }
    }

    /// The value of a single-precision number.
    pub fn from_single(v: F32) -> (r: F64)
        ensures
            r == widened(v),
    {
        let negative = v.bits >= single::SIGN;
        let a: u32 = if negative {
            v.bits - single::SIGN
        } else {
            v.bits
        };
        if a > single::INFINITY {
            return F64 { bits: NAN };
        }
        if a == single::INFINITY {
            return F64::with_sign(negative, INFINITY);
        }
        let k = magnitude::convert(
            magnitude::single_format(),
            a as u64,
            magnitude::double_format(),
        );
        F64::with_sign(negative, k)
    }

    /// The value rounded to a whole number between zero and `cap`.
    pub fn round_at_most(self, cap: u64) -> (r: u64)
        ensures
            r == rounded(self, cap as nat),
    {
        if self.is_nan() || self.is_negative() {
            0
        } else if self.is_infinite() {
            cap
        } else {
            magnitude::whole_at_most(magnitude::double_format(), self.pattern(), cap)
        }
    }
}

/// Zero is zero in single precision, and rounds to nothing.
pub proof fn zero_is_kept(cap: nat)
    ensures
        narrowed(F64 { bits: 0 }) == (F32 { bits: 0 }),
        rounded(F64 { bits: 0 }, cap) == 0,
{
    power2::lemma_pow2_pos(52);
    power2::lemma_pow2_pos(1074);
    magnitude::lemma_pow2_values();
    let d = power2::pow2(1074);
    let n = 0nat * power2::pow2(149);
    assert(n == 0);
    assert(grid::grid(23, 0) == 0 && grid::grid(23, 1) == 1);
    assert(grid::is_nearest(23, 0x7F80_0000, n, d, 0));
    grid::lemma_nearest_is(23, 0x7F80_0000, n, d, 0);
    assert((2 * 0 + d) / (2 * d) == 0) by (nonlinear_arith)
        requires
            d > 0,
    ;
}

} // verus!

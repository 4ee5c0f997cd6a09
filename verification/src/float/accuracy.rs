//! How near the operations come to the exact numbers.
//!
//! A double is read here by its exact value, counted in units of `2^-1074`; [`unit`] is how many
//! of them make one.

use vstd::arithmetic::power2;
use vstd::prelude::*;

use crate::float::double;
use crate::float::double::F64;
use crate::float::grid;
use crate::float::magnitude;
use crate::float::rounding;
use crate::float::single;
use crate::float::single::F32;
use crate::float::values;

verus! {

/// How many units of `2^-1074` make one.
pub open spec fn unit() -> int {
    power2::pow2(1074) as int
}

/// The distance between two numbers.
pub open spec fn gap(a: int, b: int) -> int {
    if a >= b {
        a - b
    } else {
        b - a
    }
}

/// `2^52`.
pub const P52: u64 = 0x10_0000_0000_0000;

/// `2^50`.
pub const P50: u64 = 0x4_0000_0000_0000;

/// `2^49`.
pub const P49: u64 = 0x2_0000_0000_0000;

/// `2^48`.
pub const P48: u64 = 0x1_0000_0000_0000;

/// The pattern of infinity.
spec fn top() -> nat {
    0x7FF0_0000_0000_0000
}

/// Powers of two that the proofs here use.
pub proof fn lemma_powers()
    ensures
        power2::pow2(52) == P52,
        unit() > 0,
        unit() == power2::pow2(1010) * 0x1_0000_0000_0000_0000,
        unit() == power2::pow2(1015) * 0x800_0000_0000_0000,
        unit() == power2::pow2(1021) * 0x20_0000_0000_0000,
        power2::pow2(1010) > 0,
        power2::pow2(1010) >= 0x1_0000_0000_0000_0000_0000_0000_0000_0000,
        power2::pow2(1015) > 0,
        power2::pow2(1021) > 0,
{
    magnitude::lemma_pow2_values();
    power2::lemma2_to64();
    power2::lemma2_to64_rest();
    power2::lemma_pow2_adds(1010, 64);
    power2::lemma_pow2_adds(1015, 59);
    power2::lemma_pow2_adds(1021, 53);
    power2::lemma_pow2_pos(1010);
    power2::lemma_pow2_pos(1015);
    power2::lemma_pow2_pos(1021);
    power2::lemma_pow2_pos(1074);
    power2::lemma_pow2_adds(64, 64);
    magnitude::lemma_pow2_at_most(128, 1010);
    assert(0x1_0000_0000_0000_0000int * 0x1_0000_0000_0000_0000int
        == 0x1_0000_0000_0000_0000_0000_0000_0000_0000int);
}

/// A significand of at most 53 bits times a power of two is representable.
pub proof fn lemma_representable(v: nat, q: nat) -> (k: nat)
    requires
        v < 2 * P52,
    ensures
        grid::grid(52, k) == v * power2::pow2(q),
        k <= (q + 2) * P52,
    decreases q,
{
    lemma_powers();
    if q == 0 || v >= P52 {
        grid::lemma_grid_of(52, q, v);
        q * power2::pow2(52) + v
    } else {
        let k = lemma_representable(2 * v, (q - 1) as nat);
        power2::lemma_pow2_unfold(q);
        let w = power2::pow2((q - 1) as nat);
        assert((2 * v) * w == v * (2 * w)) by (nonlinear_arith);
        k
    }
}

/// Rounding to a normal pattern moves a value by at most one part in `2^52`.
pub proof fn rounding_is_relative(n: nat, d: nat)
    requires
        d > 0,
        n >= P52 * d,
        grid::nearest(52, 0x7FF0_0000_0000_0000, n, d) < 0x7FF0_0000_0000_0000,
    ensures
        ({
            let g = grid::grid(52, grid::nearest(52, 0x7FF0_0000_0000_0000, n, d)) as int;
            &&& P52 * gap(g * d, n as int) <= n
            &&& g >= P52
        }),
{
    lemma_powers();
    let k = grid::nearest(52, top(), n, d);
    let g = grid::grid(52, k) as int;
    grid::lemma_grid_of(52, 0, P52 as nat);
    assert(power2::pow2(0) == 1) by {
        power2::lemma2_to64();
    }
    assert(grid::grid(52, P52 as nat) == P52);
    rounding::nearest_is_at_least(52, top(), n, d, P52 as nat);
    grid::lemma_grid_increases(52, P52 as nat, k);
    rounding::rounding_moves_by_half_a_step(52, top(), n, d, k);
    let m = grid::lemma_split(52, k);
    let u = power2::pow2(grid::spacing(52, k)) as int;
    power2::lemma_pow2_pos(grid::spacing(52, k));
    assert(m >= P52) by {
        if grid::spacing(52, k) == 0 {
            assert(m == k) by (nonlinear_arith)
                requires
                    k == grid::spacing(52, k) * power2::pow2(52) + m,
                    grid::spacing(52, k) == 0,
            ;
        }
    }
    assert(P52 * u <= g) by (nonlinear_arith)
        requires
            g == m * u,
            m >= P52,
            u > 0,
    ;
    let off = gap(g * d, n as int);
    assert(2 * off <= u * d);
    assert(2 * (P52 * off) <= g * d) by (nonlinear_arith)
        requires
            2 * off <= u * d,
            P52 * u <= g,
            d > 0,
    ;
    assert(g * d <= n + off);
    assert(off >= 0);
}

/// A number that rounds to nothing larger than a finite pattern rounds to a finite one.
pub proof fn lemma_stays_finite(n: nat, d: nat, v: nat, q: nat)
    requires
        d > 0,
        v < 2 * P52,
        q < 2000,
        n <= v * power2::pow2(q) * d,
    ensures
        grid::nearest(52, 0x7FF0_0000_0000_0000, n, d) < 0x7FF0_0000_0000_0000,
        grid::grid(52, grid::nearest(52, 0x7FF0_0000_0000_0000, n, d)) <= v * power2::pow2(q),
{
    let k = lemma_representable(v, q);
    rounding::nearest_is_at_most(52, top(), n, d, k);
    grid::lemma_grid_increases(52, grid::nearest(52, top(), n, d), k);
}

/// A whole number of at most 53 bits is held exactly.
pub proof fn whole_is_exact(v: nat)
    requires
        v < 2 * P52,
    ensures
        double::whole(v).finite(),
        !double::whole(v).negative(),
        double::whole(v).units() == v * unit(),
{
    let k = lemma_representable(v, 1074);
    let n = v * power2::pow2(1074);
    assert(grid::grid(52, k) * 1 == n);
    rounding::nearest_is_at_most(52, top(), n, 1, k);
    rounding::nearest_is_at_least(52, top(), n, 1, k);
    assert(double::whole(v) == double::signed(false, k));
}

/// A whole number of at most 64 bits is held to one part in `2^52`.
pub proof fn whole_is_accurate(v: nat)
    requires
        v <= 0x1_0000_0000_0000_0000,
    ensures
        double::whole(v).finite(),
        !double::whole(v).negative(),
        P52 * gap(double::whole(v).units(), v * unit()) <= v * unit(),
{
    lemma_powers();
    if v < 2 * P52 {
        whole_is_exact(v);
        assert(v * unit() >= 0) by (nonlinear_arith)
            requires
                unit() > 0,
        ;
    } else {
        let n = v * power2::pow2(1074);
        power2::lemma_pow2_adds(12, 1074);
        power2::lemma2_to64();
        assert(n <= P52 * power2::pow2(1086) * 1) by (nonlinear_arith)
            requires
                n == v * power2::pow2(1074),
                v <= 0x1_0000_0000_0000_0000,
                power2::pow2(1086) == 4096 * power2::pow2(1074),
        ;
        lemma_stays_finite(n, 1, P52 as nat, 1086);
        assert(n >= P52 * 1) by (nonlinear_arith)
            requires
                n == v * power2::pow2(1074),
                v >= 2 * P52,
                power2::pow2(1074) > 0,
        ;
        rounding_is_relative(n, 1);
        let k = grid::nearest(52, top(), n, 1);
        assert(double::whole(v) == double::signed(false, k));
    }
}

/// A sum of two numbers that are not negative is held to one part in `2^52`.
pub proof fn sum_is_accurate(a: F64, b: F64)
    requires
        a.finite() && !a.negative(),
        b.finite() && !b.negative(),
        a.units() + b.units() == 0 || a.units() + b.units() >= P52,
        a.units() + b.units() <= power2::pow2(2000),
    ensures
        double::sum(a, b).finite(),
        !double::sum(a, b).negative(),
        P52 * gap(double::sum(a, b).units(), a.units() + b.units()) <= a.units() + b.units(),
{
    lemma_powers();
    let s = a.units() + b.units();
    let r = double::sum(a, b);
    if s == 0 {
        assert(r == double::signed(false, 0));
        assert(grid::grid(52, 0) == 0);
        assert(r.units() == 0);
    } else {
        let n = s as nat;
        power2::lemma_pow2_adds(52, 1948);
        assert(n <= P52 * power2::pow2(1948) * 1);
        lemma_stays_finite(n, 1, P52 as nat, 1948);
        rounding_is_relative(n, 1);
        assert(r == double::signed(false, grid::nearest(52, top(), n, 1)));
    }
}

/// A difference that is not negative is held to one part in `2^52`.
pub proof fn difference_is_accurate(a: F64, b: F64)
    requires
        a.finite() && !a.negative(),
        b.finite() && !b.negative(),
        b.units() <= a.units(),
    ensures
        double::difference(a, b).finite(),
        !double::difference(a, b).negative(),
        P52 * gap(double::difference(a, b).units(), a.units() - b.units()) <= a.units()
            - b.units(),
{
    lemma_powers();
    let s = a.units() - b.units();
    let r = double::difference(a, b);
    grid::lemma_grid_increases(52, 0, b.magnitude() as nat);
    assert(grid::grid(52, 0) == 0);
    assert(b.turned().finite());
    assert(b.turned().units() == -b.units());
    if s == 0 {
        assert(r == double::signed(false, 0));
        assert(r.units() == 0);
    } else {
        let n = s as nat;
        rounding::nearest_is_at_most(52, top(), n, 1, a.magnitude() as nat);
        if n < P52 {
            let k = lemma_representable(n, 0);
            power2::lemma2_to64();
            rounding::nearest_is_at_most(52, top(), n, 1, k);
            rounding::nearest_is_at_least(52, top(), n, 1, k);
        } else {
            rounding_is_relative(n, 1);
        }
        assert(r == double::signed(false, grid::nearest(52, top(), n, 1)));
    }
}

/// A quotient of two positive numbers is held to one part in `2^52`, where it is neither too
/// small nor too large.
pub proof fn quotient_is_accurate(a: F64, b: F64)
    requires
        a.finite() && !a.negative(),
        b.finite() && !b.negative(),
        b.units() > 0,
        a.units() == 0 || a.units() * unit() >= P52 * b.units(),
        a.units() <= power2::pow2(900) * b.units(),
    ensures
        double::quotient(a, b).finite(),
        !double::quotient(a, b).negative(),
        P52 * gap(double::quotient(a, b).units() * b.units(), a.units() * unit()) <= a.units()
            * unit(),
        a.units() == 0 ==> double::quotient(a, b).units() == 0,
        a.units() <= b.units() ==> double::quotient(a, b).units() <= unit(),
{
    lemma_powers();
    grid::lemma_grid_increases(52, 0, a.magnitude() as nat);
    let (x, y) = (a.units(), b.units());
    assert(grid::grid(52, 0) == 0);
    assert(b.magnitude() > 0);
    assert(a.unsigned() == a && b.unsigned() == b);
    let n = (x as nat) * power2::pow2(1074);
    let d = y as nat;
    let k = grid::nearest(52, top(), n, d);
    let r = double::quotient(a, b);
    power2::lemma_pow2_adds(900, 1074);
    assert(n <= 1 * power2::pow2(1974) * d) by (nonlinear_arith)
        requires
            n == x * power2::pow2(1074),
            x <= power2::pow2(900) * y,
            d == y,
            power2::pow2(1974) == power2::pow2(900) * power2::pow2(1074),
    ;
    lemma_stays_finite(n, d, 1, 1974);
    assert(n == x * unit());
    if x <= y {
        assert(n <= 1 * power2::pow2(1074) * d) by (nonlinear_arith)
            requires
                n == x * power2::pow2(1074),
                x <= y,
                d == y,
        ;
        lemma_stays_finite(n, d, 1, 1074);
    }
    if x == 0 {
        assert(n == 0) by (nonlinear_arith)
            requires
                n == x * power2::pow2(1074),
                x == 0,
        ;
        assert(n <= grid::grid(52, 0) * d) by (nonlinear_arith)
            requires
                n == 0,
                grid::grid(52, 0) == 0,
        ;
        rounding::nearest_is_at_most(52, top(), n, d, 0);
        assert(k == 0);
    } else {
        rounding_is_relative(n, d);
    }
    if b.magnitude() > 0 {
        assert(r == double::signed(false, k));
    }
    if x == 0 {
        assert(r.units() * b.units() == 0) by (nonlinear_arith)
            requires
                r.units() == 0,
        ;
        assert(x * unit() == 0) by (nonlinear_arith)
            requires
                x == 0,
        ;
    }
}

/// A product of two numbers that are not negative is held to one part in `2^52`, where it is
/// neither too small nor too large.
pub proof fn product_is_accurate(a: F64, b: F64)
    requires
        a.finite() && !a.negative(),
        b.finite() && !b.negative(),
        a.units() * b.units() == 0 || a.units() * b.units() >= P52 * unit(),
        a.units() * b.units() <= power2::pow2(900) * unit() * unit(),
    ensures
        double::product(a, b).finite(),
        !double::product(a, b).negative(),
        P52 * gap(double::product(a, b).units() * unit(), a.units() * b.units()) <= a.units()
            * b.units(),
{
    lemma_powers();
    let (x, y) = (a.units(), b.units());
    assert(a.unsigned() == a && b.unsigned() == b);
    let n = (x as nat) * (y as nat);
    let d = power2::pow2(1074);
    let k = grid::nearest(52, top(), n, d);
    let r = double::product(a, b);
    power2::lemma_pow2_adds(900, 1074);
    assert(n <= 1 * power2::pow2(1974) * d) by (nonlinear_arith)
        requires
            n == x * y,
            x * y <= power2::pow2(900) * unit() * unit(),
            d == unit(),
            power2::pow2(1974) == power2::pow2(900) * unit(),
    ;
    lemma_stays_finite(n, d, 1, 1974);
    assert(r == double::signed(false, k));
    if n == 0 {
        assert(n <= grid::grid(52, 0) * d) by (nonlinear_arith)
            requires
                n == 0,
                grid::grid(52, 0) == 0,
        ;
        rounding::nearest_is_at_most(52, top(), n, d, 0);
        assert(k == 0);
        assert(r.units() * unit() == 0) by (nonlinear_arith)
            requires
                r.units() == 0,
        ;
    } else {
        rounding_is_relative(n, d);
    }
}

/// A pattern with `q` steps of exponent and significand `m`, and how its spacing divides one.
proof fn lemma_pattern(x: F64, q: nat, m: nat, low: nat, part: nat)
    requires
        P52 <= m < 2 * P52,
        q + low == 1074,
        x.magnitude() == q * P52 + m,
        power2::pow2(low) == part,
    ensures
        !x.negative() ==> x.units() == m * power2::pow2(q),
        x.negative() ==> x.units() == -(m * power2::pow2(q)),
        unit() == part * power2::pow2(q),
        power2::pow2(q) > 0,
{
    lemma_powers();
    grid::lemma_grid_of(52, q, m);
    power2::lemma_pow2_adds(q, low);
    power2::lemma_pow2_pos(q);
    assert(power2::pow2(q) * power2::pow2(low) == part * power2::pow2(q)) by (nonlinear_arith)
        requires
            power2::pow2(low) == part,
    ;
}

/// The named doubles are the numbers that they are named after, as near as doubles come.
#[verifier::rlimit(60)]
#[verifier::spinoff_prover]
pub proof fn doubles_are_their_numbers()
    ensures
        (F64 { bits: values::ZERO }).units() == 0,
        2 * (F64 { bits: values::HALF }).units() == 1 * unit(),
        (F64 { bits: values::ONE }).units() == 1 * unit(),
        2 * (F64 { bits: values::ONE_AND_HALF }).units() == 3 * unit(),
        (F64 { bits: values::TWO }).units() == 2 * unit(),
        (F64 { bits: values::THREE }).units() == 3 * unit(),
        (F64 { bits: values::FOUR }).units() == 4 * unit(),
        (F64 { bits: values::TEN }).units() == 10 * unit(),
        (F64 { bits: values::SIXTEEN }).units() == 16 * unit(),
        (F64 { bits: values::THIRTY }).units() == 30 * unit(),
        (F64 { bits: values::FIFTY }).units() == 50 * unit(),
        (F64 { bits: values::HUNDRED }).units() == 100 * unit(),
        (F64 { bits: values::HALF_TURN }).units() == 180 * unit(),
        (F64 { bits: values::FULL_TURN }).units() == 360 * unit(),
        (F64 { bits: values::MINUS_ONE }).units() == -1 * unit(),
        2 * (F64 { bits: values::MINUS_ONE_AND_HALF }).units() == -3 * unit(),
        (F64 { bits: values::MINUS_SIXTY }).units() == -60 * unit(),
        (F64 { bits: values::MINUS_HALF_TURN }).units() == -180 * unit(),
        P52 * gap(10 * (F64 { bits: values::TENTH }).units(), unit()) <= unit(),
        P52 * gap(5 * (F64 { bits: values::EIGHT_TENTHS }).units(), 4 * unit()) <= 4 * unit(),
        P52 * gap(100 * (F64 { bits: values::HUNDREDTH }).units(), unit()) <= unit(),
        P52 * gap(1000000 * (F64 { bits: values::MILLIONTH }).units(), unit()) <= unit(),
        P52 * gap(1000000000 * (F64 { bits: values::BILLIONTH }).units(), unit()) <= unit(),
        P52 * gap(1000 * (F64 { bits: values::THOUSANDTH }).units(), unit()) <= unit(),
{
    lemma_powers();
    lemma_low_powers();
    assert(grid::grid(52, 0) == 0);
    assert(2 * (F64 { bits: values::HALF }).units() == 1 * unit()) by {
        let x = F64 { bits: values::HALF };
        let w = power2::pow2(1021) as int;
        lemma_pattern(x, 1021, 4503599627370496, 53, 9007199254740992);
        assert(x.units() == 4503599627370496 * w);
        assert(unit() == 9007199254740992 * w);
    }
    assert((F64 { bits: values::ONE }).units() == 1 * unit()) by {
        let x = F64 { bits: values::ONE };
        let w = power2::pow2(1022) as int;
        lemma_pattern(x, 1022, 4503599627370496, 52, 4503599627370496);
        assert(x.units() == 4503599627370496 * w);
        assert(unit() == 4503599627370496 * w);
    }
    assert(2 * (F64 { bits: values::ONE_AND_HALF }).units() == 3 * unit()) by {
        let x = F64 { bits: values::ONE_AND_HALF };
        let w = power2::pow2(1022) as int;
        lemma_pattern(x, 1022, 6755399441055744, 52, 4503599627370496);
        assert(x.units() == 6755399441055744 * w);
        assert(unit() == 4503599627370496 * w);
    }
    assert((F64 { bits: values::TWO }).units() == 2 * unit()) by {
        let x = F64 { bits: values::TWO };
        let w = power2::pow2(1023) as int;
        lemma_pattern(x, 1023, 4503599627370496, 51, 2251799813685248);
        assert(x.units() == 4503599627370496 * w);
        assert(unit() == 2251799813685248 * w);
    }
    assert((F64 { bits: values::THREE }).units() == 3 * unit()) by {
        let x = F64 { bits: values::THREE };
        let w = power2::pow2(1023) as int;
        lemma_pattern(x, 1023, 6755399441055744, 51, 2251799813685248);
        assert(x.units() == 6755399441055744 * w);
        assert(unit() == 2251799813685248 * w);
    }
    assert((F64 { bits: values::FOUR }).units() == 4 * unit()) by {
        let x = F64 { bits: values::FOUR };
        let w = power2::pow2(1024) as int;
        lemma_pattern(x, 1024, 4503599627370496, 50, 1125899906842624);
        assert(x.units() == 4503599627370496 * w);
        assert(unit() == 1125899906842624 * w);
    }
    assert((F64 { bits: values::TEN }).units() == 10 * unit()) by {
        let x = F64 { bits: values::TEN };
        let w = power2::pow2(1025) as int;
        lemma_pattern(x, 1025, 5629499534213120, 49, 562949953421312);
        assert(x.units() == 5629499534213120 * w);
        assert(unit() == 562949953421312 * w);
    }
    assert((F64 { bits: values::SIXTEEN }).units() == 16 * unit()) by {
        let x = F64 { bits: values::SIXTEEN };
        let w = power2::pow2(1026) as int;
        lemma_pattern(x, 1026, 4503599627370496, 48, 281474976710656);
        assert(x.units() == 4503599627370496 * w);
        assert(unit() == 281474976710656 * w);
    }
    assert((F64 { bits: values::THIRTY }).units() == 30 * unit()) by {
        let x = F64 { bits: values::THIRTY };
        let w = power2::pow2(1026) as int;
        lemma_pattern(x, 1026, 8444249301319680, 48, 281474976710656);
        assert(x.units() == 8444249301319680 * w);
        assert(unit() == 281474976710656 * w);
    }
    assert((F64 { bits: values::FIFTY }).units() == 50 * unit()) by {
        let x = F64 { bits: values::FIFTY };
        let w = power2::pow2(1027) as int;
        lemma_pattern(x, 1027, 7036874417766400, 47, 140737488355328);
        assert(x.units() == 7036874417766400 * w);
        assert(unit() == 140737488355328 * w);
    }
    assert((F64 { bits: values::HUNDRED }).units() == 100 * unit()) by {
        let x = F64 { bits: values::HUNDRED };
        let w = power2::pow2(1028) as int;
        lemma_pattern(x, 1028, 7036874417766400, 46, 70368744177664);
        assert(x.units() == 7036874417766400 * w);
        assert(unit() == 70368744177664 * w);
    }
    assert((F64 { bits: values::HALF_TURN }).units() == 180 * unit()) by {
        let x = F64 { bits: values::HALF_TURN };
        let w = power2::pow2(1029) as int;
        lemma_pattern(x, 1029, 6333186975989760, 45, 35184372088832);
        assert(x.units() == 6333186975989760 * w);
        assert(unit() == 35184372088832 * w);
    }
    assert((F64 { bits: values::FULL_TURN }).units() == 360 * unit()) by {
        let x = F64 { bits: values::FULL_TURN };
        let w = power2::pow2(1030) as int;
        lemma_pattern(x, 1030, 6333186975989760, 44, 17592186044416);
        assert(x.units() == 6333186975989760 * w);
        assert(unit() == 17592186044416 * w);
    }
    assert((F64 { bits: values::MINUS_ONE }).units() == -1 * unit()) by {
        let x = F64 { bits: values::MINUS_ONE };
        let w = power2::pow2(1022) as int;
        lemma_pattern(x, 1022, 4503599627370496, 52, 4503599627370496);
        assert(x.units() == -(4503599627370496 * w));
        assert(unit() == 4503599627370496 * w);
    }
    assert(2 * (F64 { bits: values::MINUS_ONE_AND_HALF }).units() == -3 * unit()) by {
        let x = F64 { bits: values::MINUS_ONE_AND_HALF };
        let w = power2::pow2(1022) as int;
        lemma_pattern(x, 1022, 6755399441055744, 52, 4503599627370496);
        assert(x.units() == -(6755399441055744 * w));
        assert(unit() == 4503599627370496 * w);
    }
    assert((F64 { bits: values::MINUS_SIXTY }).units() == -60 * unit()) by {
        let x = F64 { bits: values::MINUS_SIXTY };
        let w = power2::pow2(1027) as int;
        lemma_pattern(x, 1027, 8444249301319680, 47, 140737488355328);
        assert(x.units() == -(8444249301319680 * w));
        assert(unit() == 140737488355328 * w);
    }
    assert((F64 { bits: values::MINUS_HALF_TURN }).units() == -180 * unit()) by {
        let x = F64 { bits: values::MINUS_HALF_TURN };
        let w = power2::pow2(1029) as int;
        lemma_pattern(x, 1029, 6333186975989760, 45, 35184372088832);
        assert(x.units() == -(6333186975989760 * w));
        assert(unit() == 35184372088832 * w);
    }
    assert(P52 * gap(10 * (F64 { bits: values::TENTH }).units(), unit()) <= unit()) by {
        let x = F64 { bits: values::TENTH };
        let w = power2::pow2(1018) as int;
        lemma_pattern(x, 1018, 7205759403792794, 56, 72057594037927936);
        assert(x.units() == 7205759403792794 * w);
        assert(unit() == 72057594037927936 * w);
    }
    assert(P52 * gap(
        5 * (F64 { bits: values::EIGHT_TENTHS }).units(),
        4 * unit(),
    ) <= 4 * unit()) by {
        let x = F64 { bits: values::EIGHT_TENTHS };
        let w = power2::pow2(1021) as int;
        lemma_pattern(x, 1021, 7205759403792794, 53, 9007199254740992);
        assert(x.units() == 7205759403792794 * w);
        assert(unit() == 9007199254740992 * w);
    }
    assert(P52 * gap(100 * (F64 { bits: values::HUNDREDTH }).units(), unit()) <= unit()) by {
        let x = F64 { bits: values::HUNDREDTH };
        let w = power2::pow2(1015) as int;
        lemma_pattern(x, 1015, 5764607523034235, 59, 576460752303423488);
        assert(x.units() == 5764607523034235 * w);
        assert(unit() == 576460752303423488 * w);
    }
    assert(P52 * gap(1000000 * (F64 { bits: values::MILLIONTH }).units(), unit()) <= unit()) by {
        let x = F64 { bits: values::MILLIONTH };
        let w = power2::pow2(1002) as int;
        lemma_pattern(x, 1002, 4722366482869645, 72, 4722366482869645213696);
        assert(x.units() == 4722366482869645 * w);
        assert(unit() == 4722366482869645213696 * w);
    }
    assert(P52 * gap(1000000000 * (F64 { bits: values::BILLIONTH }).units(), unit()) <= unit()) by {
        let x = F64 { bits: values::BILLIONTH };
        let w = power2::pow2(992) as int;
        lemma_pattern(x, 992, 4835703278458517, 82, 4835703278458516698824704);
        assert(x.units() == 4835703278458517 * w);
        assert(unit() == 4835703278458516698824704 * w);
    }
    assert(P52 * gap(1000 * (F64 { bits: values::THOUSANDTH }).units(), unit()) <= unit()) by {
        let x = F64 { bits: values::THOUSANDTH };
        let w = power2::pow2(1012) as int;
        lemma_pattern(x, 1012, 4611686018427388, 62, 4611686018427387904);
        assert(x.units() == 4611686018427388 * w);
        assert(unit() == 4611686018427387904 * w);
    }
}

/// Small powers of two.
proof fn lemma_low_powers()
    ensures
        power2::pow2(44) == 17592186044416,
        power2::pow2(45) == 35184372088832,
        power2::pow2(46) == 70368744177664,
        power2::pow2(47) == 140737488355328,
        power2::pow2(48) == 281474976710656,
        power2::pow2(49) == 562949953421312,
        power2::pow2(50) == 1125899906842624,
        power2::pow2(51) == 2251799813685248,
        power2::pow2(52) == 4503599627370496,
        power2::pow2(53) == 9007199254740992,
        power2::pow2(56) == 72057594037927936,
        power2::pow2(59) == 576460752303423488,
        power2::pow2(62) == 4611686018427387904,
        power2::pow2(72) == 4722366482869645213696,
        power2::pow2(82) == 4835703278458516698824704,
{
    power2::lemma2_to64();
    power2::lemma2_to64_rest();
    power2::lemma_pow2_adds(64, 8);
    power2::lemma_pow2_adds(64, 18);
}

/// How many units of `2^-149` make one.
pub open spec fn single_unit() -> int {
    power2::pow2(149) as int
}

/// A pattern of single precision, and how its spacing divides one.
proof fn lemma_single_pattern(x: F32, q: nat, m: nat, low: nat, part: nat)
    requires
        0x80_0000 <= m < 0x100_0000,
        q + low == 149,
        x.magnitude() == q * 0x80_0000 + m,
        power2::pow2(low) == part,
    ensures
        !x.negative() ==> x.units() == m * power2::pow2(q),
        x.negative() ==> x.units() == -(m * power2::pow2(q)),
        single_unit() == part * power2::pow2(q),
        power2::pow2(q) > 0,
{
    magnitude::lemma_pow2_values();
    grid::lemma_grid_of(23, q, m);
    power2::lemma_pow2_adds(q, low);
    power2::lemma_pow2_pos(q);
    assert(power2::pow2(q) * power2::pow2(low) == part * power2::pow2(q)) by (nonlinear_arith)
        requires
            power2::pow2(low) == part,
    ;
}

/// The named singles are the numbers that they are named after, as near as singles come.
#[verifier::rlimit(60)]
#[verifier::spinoff_prover]
pub proof fn singles_are_their_numbers()
    ensures
        (F32 { bits: values::S_ZERO }).units() == 0,
        (F32 { bits: values::S_ONE }).units() == 1 * single_unit(),
        (F32 { bits: values::S_TWO }).units() == 2 * single_unit(),
        (F32 { bits: values::S_SIXTEEN }).units() == 16 * single_unit(),
        2 * (F32 { bits: values::S_HALF }).units() == 1 * single_unit(),
        (F32 { bits: values::S_BYTE_MAX }).units() == 255 * single_unit(),
        0x80_0000 * gap(
            1000000 * (F32 { bits: values::S_MILLIONTH }).units(),
            1 * single_unit(),
        ) <= 1 * single_unit(),
        0x80_0000 * gap(
            1000000 * (F32 { bits: values::S_MINUS_MILLIONTH }).units(),
            -1 * single_unit(),
        ) <= 1 * single_unit(),
        0x80_0000 * gap(
            5000 * (F32 { bits: values::S_GRAIN_SCALE }).units(),
            21 * single_unit(),
        ) <= 21 * single_unit(),
{
    magnitude::lemma_pow2_values();
    power2::lemma2_to64();
    power2::lemma2_to64_rest();
    assert(grid::grid(23, 0) == 0);
    assert((F32 { bits: values::S_ONE }).units() == 1 * single_unit()) by {
        let x = F32 { bits: values::S_ONE };
        let w = power2::pow2(126) as int;
        lemma_single_pattern(x, 126, 8388608, 23, 8388608);
        assert(x.units() == 8388608 * w);
        assert(single_unit() == 8388608 * w);
    }
    assert((F32 { bits: values::S_TWO }).units() == 2 * single_unit()) by {
        let x = F32 { bits: values::S_TWO };
        let w = power2::pow2(127) as int;
        lemma_single_pattern(x, 127, 8388608, 22, 4194304);
        assert(x.units() == 8388608 * w);
        assert(single_unit() == 4194304 * w);
    }
    assert((F32 { bits: values::S_SIXTEEN }).units() == 16 * single_unit()) by {
        let x = F32 { bits: values::S_SIXTEEN };
        let w = power2::pow2(130) as int;
        lemma_single_pattern(x, 130, 8388608, 19, 524288);
        assert(x.units() == 8388608 * w);
        assert(single_unit() == 524288 * w);
    }
    assert(2 * (F32 { bits: values::S_HALF }).units() == 1 * single_unit()) by {
        let x = F32 { bits: values::S_HALF };
        let w = power2::pow2(125) as int;
        lemma_single_pattern(x, 125, 8388608, 24, 16777216);
        assert(x.units() == 8388608 * w);
        assert(single_unit() == 16777216 * w);
    }
    assert((F32 { bits: values::S_BYTE_MAX }).units() == 255 * single_unit()) by {
        let x = F32 { bits: values::S_BYTE_MAX };
        let w = power2::pow2(133) as int;
        lemma_single_pattern(x, 133, 16711680, 16, 65536);
        assert(x.units() == 16711680 * w);
        assert(single_unit() == 65536 * w);
    }
    assert(0x80_0000 * gap(
        1000000 * (F32 { bits: values::S_MILLIONTH }).units(),
        1 * single_unit(),
    ) <= 1 * single_unit()) by {
        let x = F32 { bits: values::S_MILLIONTH };
        let w = power2::pow2(106) as int;
        lemma_single_pattern(x, 106, 8796093, 43, 8796093022208);
        assert(x.units() == 8796093 * w);
        assert(single_unit() == 8796093022208 * w);
    }
    assert(0x80_0000 * gap(
        1000000 * (F32 { bits: values::S_MINUS_MILLIONTH }).units(),
        -1 * single_unit(),
    ) <= 1 * single_unit()) by {
        let x = F32 { bits: values::S_MINUS_MILLIONTH };
        let w = power2::pow2(106) as int;
        lemma_single_pattern(x, 106, 8796093, 43, 8796093022208);
        assert(x.units() == -(8796093 * w));
        assert(single_unit() == 8796093022208 * w);
    }
    assert(0x80_0000 * gap(
        5000 * (F32 { bits: values::S_GRAIN_SCALE }).units(),
        21 * single_unit(),
    ) <= 21 * single_unit()) by {
        let x = F32 { bits: values::S_GRAIN_SCALE };
        let w = power2::pow2(118) as int;
        lemma_single_pattern(x, 118, 9019431, 31, 2147483648);
        assert(x.units() == 9019431 * w);
        assert(single_unit() == 2147483648 * w);
    }
}

/// A single widens to its own number.
pub proof fn widening_is_exact(v: F32)
    requires
        v.finite(),
    ensures
        double::widened(v).finite(),
        double::widened(v).negative() == v.negative(),
        double::widened(v).units() == v.units() * power2::pow2(925),
{
    magnitude::lemma_pow2_values();
    lemma_powers();
    let g = grid::grid(23, v.magnitude() as nat);
    let q = grid::spacing(23, v.magnitude() as nat);
    let m = grid::lemma_split(23, v.magnitude() as nat);
    assert(q < 255);
    let k = lemma_representable(m, q + 925);
    power2::lemma_pow2_adds(q, 925);
    power2::lemma_pow2_adds(925, 149);
    power2::lemma_pow2_pos(149);
    let n = g * power2::pow2(1074);
    let d = power2::pow2(149);
    assert(grid::grid(52, k) == g * power2::pow2(925)) by (nonlinear_arith)
        requires
            grid::grid(52, k) == m * power2::pow2(q + 925),
            power2::pow2(q + 925) == power2::pow2(q) * power2::pow2(925),
            g == m * power2::pow2(q),
    ;
    assert(n == grid::grid(52, k) * d) by (nonlinear_arith)
        requires
            n == g * power2::pow2(1074),
            power2::pow2(1074) == power2::pow2(925) * d,
            grid::grid(52, k) == g * power2::pow2(925),
    ;
    rounding::nearest_is_at_most(52, top(), n, d, k);
    rounding::nearest_is_at_least(52, top(), n, d, k);
    assert(double::widened(v) == double::signed(v.negative(), k));
    if v.negative() {
        assert((-(g as int)) * power2::pow2(925) == -(g * power2::pow2(925))) by (nonlinear_arith);
    }
}

/// A double whose number is one of single precision narrows to just that number.
pub proof fn narrowing_keeps_singles(x: F64, v: F32)
    requires
        x.finite(),
        v.finite(),
        x.negative() == v.negative(),
        x.units() == v.units() * power2::pow2(925),
    ensures
        double::narrowed(x) == v,
{
    magnitude::lemma_pow2_values();
    power2::lemma_pow2_adds(925, 149);
    power2::lemma_pow2_pos(1074);
    let k = v.magnitude() as nat;
    let g = grid::grid(23, k);
    let n = x.unsigned().units() as nat * power2::pow2(149);
    let d = power2::pow2(1074);
    let w = power2::pow2(925);
    assert(x.unsigned().units() == g * w) by (nonlinear_arith)
        requires
            x.negative() ==> -x.unsigned().units() == -(g as int) * w,
            !x.negative() ==> x.unsigned().units() == g * w,
    ;
    assert(n == g * d) by (nonlinear_arith)
        requires
            n == (g * w) * power2::pow2(149),
            d == w * power2::pow2(149),
    ;
    rounding::nearest_is_at_most(23, 0x7F80_0000, n, d, k);
    rounding::nearest_is_at_least(23, 0x7F80_0000, n, d, k);
}

/// `2^23`.
pub const P23: u32 = 0x80_0000;

/// The pattern of infinity in single precision.
spec fn single_top() -> nat {
    0x7F80_0000
}

/// A significand of at most 24 bits times a power of two is representable in single precision.
proof fn lemma_single_representable(v: nat, q: nat) -> (k: nat)
    requires
        v < 2 * P23,
    ensures
        grid::grid(23, k) == v * power2::pow2(q),
        k <= (q + 2) * P23,
    decreases q,
{
    magnitude::lemma_pow2_values();
    if q == 0 || v >= P23 {
        grid::lemma_grid_of(23, q, v);
        q * power2::pow2(23) + v
    } else {
        let k = lemma_single_representable(2 * v, (q - 1) as nat);
        power2::lemma_pow2_unfold(q);
        let w = power2::pow2((q - 1) as nat);
        assert((2 * v) * w == v * (2 * w)) by (nonlinear_arith);
        k
    }
}

/// A count of at most 24 bits is held exactly in single precision.
pub proof fn single_whole_is_exact(v: nat)
    requires
        v < 2 * P23,
    ensures
        single::whole(v).finite(),
        !single::whole(v).negative(),
        single::whole(v).units() == v * single_unit(),
{
    let k = lemma_single_representable(v, 149);
    let n = v * power2::pow2(149);
    assert(grid::grid(23, k) * 1 == n);
    rounding::nearest_is_at_most(23, single_top(), n, 1, k);
    rounding::nearest_is_at_least(23, single_top(), n, 1, k);
    assert(single::whole(v) == single::signed(false, k));
}

/// Rounding to a normal pattern of single precision moves a value by at most one part in `2^23`.
proof fn lemma_single_relative(n: nat, d: nat)
    requires
        d > 0,
        n >= P23 * d,
        grid::nearest(23, 0x7F80_0000, n, d) < 0x7F80_0000,
    ensures
        ({
            let g = grid::grid(23, grid::nearest(23, 0x7F80_0000, n, d)) as int;
            P23 * gap(g * d, n as int) <= n
        }),
{
    magnitude::lemma_pow2_values();
    let k = grid::nearest(23, single_top(), n, d);
    let g = grid::grid(23, k) as int;
    grid::lemma_grid_of(23, 0, P23 as nat);
    assert(power2::pow2(0) == 1) by {
        power2::lemma2_to64();
    }
    assert(grid::grid(23, P23 as nat) == P23);
    rounding::nearest_is_at_least(23, single_top(), n, d, P23 as nat);
    rounding::rounding_moves_by_half_a_step(23, single_top(), n, d, k);
    let m = grid::lemma_split(23, k);
    let u = power2::pow2(grid::spacing(23, k)) as int;
    power2::lemma_pow2_pos(grid::spacing(23, k));
    assert(m >= P23) by {
        if grid::spacing(23, k) == 0 {
            assert(m == k) by (nonlinear_arith)
                requires
                    k == grid::spacing(23, k) * power2::pow2(23) + m,
                    grid::spacing(23, k) == 0,
            ;
        }
    }
    assert(P23 * u <= g) by (nonlinear_arith)
        requires
            g == m * u,
            m >= P23,
            u > 0,
    ;
    let off = gap(g * d, n as int);
    assert(2 * (P23 * off) <= g * d) by (nonlinear_arith)
        requires
            2 * off <= u * d,
            P23 * u <= g,
            d > 0,
    ;
    assert(g * d <= n + off);
    assert(off >= 0);
}

/// The part that one count is of another is held to one part in `2^23`: nothing of it is zero,
/// all of it is one, and less than all of it is at most one.
pub proof fn part_is_accurate(a: nat, b: nat)
    requires
        a <= b < 2 * P23,
        b > 0,
    ensures
        ({
            let r = single::quotient(single::whole(a), single::whole(b));
            &&& r.finite() && !r.negative()
            &&& P23 * gap(r.units() * b, a * single_unit()) <= a * single_unit()
            &&& r.units() <= single_unit()
            &&& a == 0 ==> r.units() == 0
            &&& a == b ==> r.units() == single_unit()
        }),
{
    magnitude::lemma_pow2_values();
    single_whole_is_exact(a);
    single_whole_is_exact(b);
    let u = single_unit();
    power2::lemma_pow2_pos(149);
    power2::lemma2_to64();
    magnitude::lemma_pow2_at_most(126, 149);
    let (x, y) = (single::whole(a), single::whole(b));
    assert(y.units() > 0) by (nonlinear_arith)
        requires
            y.units() == b * u,
            b > 0,
            u > 0,
    ;
    assert(y.magnitude() > 0);
    assert(x.unsigned() == x && y.unsigned() == y);
    let n = (x.units() as nat) * power2::pow2(149);
    let d = y.units() as nat;
    let k = grid::nearest(23, single_top(), n, d);
    let one = lemma_single_representable(1, 149);
    assert(n <= grid::grid(23, one) * d) by (nonlinear_arith)
        requires
            n == (a * u) * u,
            d == b * u,
            grid::grid(23, one) == u,
            a <= b,
            u > 0,
    ;
    rounding::nearest_is_at_most(23, single_top(), n, d, one);
    grid::lemma_grid_increases(23, k, one);
    if a == b {
        assert(n >= grid::grid(23, one) * d) by (nonlinear_arith)
            requires
                n == (a * u) * u,
                d == b * u,
                grid::grid(23, one) == u,
                a == b,
        ;
        rounding::nearest_is_at_least(23, single_top(), n, d, one);
    }
    let r = single::quotient(x, y);
    if a == 0 {
        assert(n == 0) by (nonlinear_arith)
            requires
                n == (a * u) * u,
                a == 0,
        ;
        assert(grid::grid(23, 0) == 0);
        rounding::nearest_is_at_most(23, single_top(), n, d, 0);
        assert(r.units() * b == 0) by (nonlinear_arith)
            requires
                r.units() == 0,
        ;
        assert(a * u == 0) by (nonlinear_arith)
            requires
                a == 0,
        ;
    } else {
        assert(n >= P23 * d) by (nonlinear_arith)
            requires
                n == (a * u) * u,
                d == b * u,
                a >= 1,
                b < 0x100_0000,
                P23 == 0x80_0000,
                u >= 0x4000_0000_0000_0000_0000_0000_0000_0000,
        ;
        lemma_single_relative(n, d);
        let g = r.units();
        assert(P23 * gap(g * b, a * u) <= a * u) by (nonlinear_arith)
            requires
                P23 * gap(g * (b * u), (a * u) * u) <= (a * u) * u,
                u > 0,
        ;
    }
}

} // verus!

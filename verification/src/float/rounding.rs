//! How far rounding moves a value.

use vstd::arithmetic::power2;
use vstd::prelude::*;

use crate::float::double;
use crate::float::double::F64;
use crate::float::grid;
use crate::float::magnitude;
use crate::float::single;
use crate::float::single::F32;
use crate::float::values;

verus! {

/// From `k` on there is a nearest pattern, where nothing below `k` is.
proof fn lemma_nearest_from(p: nat, top: nat, n: nat, d: nat, k: nat) -> (r: nat)
    requires
        d > 0,
        k <= top,
        k > 0 ==> {
            ||| 2 * n > (grid::grid(p, (k - 1) as nat) + grid::grid(p, k)) * d
            ||| 2 * n == (grid::grid(p, (k - 1) as nat) + grid::grid(p, k)) * d && k % 2 == 0
        },
    ensures
        grid::is_nearest(p, top, n, d, r),
    decreases top - k,
{
    let middle = (grid::grid(p, k) + grid::grid(p, k + 1)) * d;
    if k == top || 2 * n < middle || (2 * n == middle && k % 2 == 0) {
        k
    } else {
        lemma_nearest_from(p, top, n, d, k + 1)
    }
}

/// Every exact magnitude has a nearest pattern.
pub proof fn nearest_is_nearest(p: nat, top: nat, n: nat, d: nat)
    requires
        d > 0,
    ensures
        grid::is_nearest(p, top, n, d, grid::nearest(p, top, n, d)),
{
    let k = lemma_nearest_from(p, top, n, d, 0);
    grid::lemma_nearest_is(p, top, n, d, k);
}

/// Rounding passes no representable magnitude: what is at most one rounds to one that is.
pub proof fn nearest_is_at_most(p: nat, top: nat, n: nat, d: nat, bound: nat)
    requires
        d > 0,
        n <= grid::grid(p, bound) * d,
    ensures
        grid::nearest(p, top, n, d) <= bound,
{
    let k = grid::nearest(p, top, n, d);
    nearest_is_nearest(p, top, n, d);
    if k > bound {
        let (g, h) = (grid::grid(p, (k - 1) as nat), grid::grid(p, k));
        let b = grid::grid(p, bound);
        grid::lemma_grid_increases(p, bound, (k - 1) as nat);
        grid::lemma_grid_increases(p, (k - 1) as nat, k);
        assert((g + h) * d > 2 * (b * d)) by (nonlinear_arith)
            requires
                g >= b,
                h > g,
                d > 0,
        ;
    }
}

/// Rounding passes no representable magnitude: what is at least one rounds to one that is.
pub proof fn nearest_is_at_least(p: nat, top: nat, n: nat, d: nat, bound: nat)
    requires
        d > 0,
        bound <= top,
        n >= grid::grid(p, bound) * d,
    ensures
        grid::nearest(p, top, n, d) >= bound,
{
    let k = grid::nearest(p, top, n, d);
    nearest_is_nearest(p, top, n, d);
    if k < bound {
        let (g, h) = (grid::grid(p, k), grid::grid(p, k + 1));
        let b = grid::grid(p, bound);
        grid::lemma_grid_increases(p, k + 1, bound);
        grid::lemma_grid_increases(p, k, k + 1);
        assert((g + h) * d < 2 * (b * d)) by (nonlinear_arith)
            requires
                h <= b,
                g < h,
                d > 0,
        ;
    }
}

/// Patterns that are no greater are spaced no wider.
proof fn lemma_spacing_increases(p: nat, a: nat, b: nat)
    requires
        a <= b,
    ensures
        grid::spacing(p, a) <= grid::spacing(p, b),
{
    power2::lemma_pow2_pos(p);
    let w = power2::pow2(p) as int;
    vstd::arithmetic::div_mod::lemma_div_is_ordered(a as int, b as int, w);
    if a >= w {
        assert(a as int / w >= 1) by (nonlinear_arith)
            requires
                a >= w,
                w > 0,
        ;
    }
    if b >= w {
        assert(b as int / w >= 1) by (nonlinear_arith)
            requires
                b >= w,
                w > 0,
        ;
    }
}

/// Rounding to a finite pattern moves a value by at most half of the spacing there.
pub proof fn rounding_moves_by_half_a_step(p: nat, top: nat, n: nat, d: nat, wide: nat)
    requires
        d > 0,
        grid::nearest(p, top, n, d) < top,
        grid::nearest(p, top, n, d) <= wide,
    ensures
        ({
            let g = grid::grid(p, grid::nearest(p, top, n, d)) as int;
            let step = power2::pow2(grid::spacing(p, wide)) as int;
            &&& 2 * (n - g * d) <= step * d
            &&& 2 * (g * d - n) <= step * d
        }),
{
    let k = grid::nearest(p, top, n, d);
    nearest_is_nearest(p, top, n, d);
    let g = grid::grid(p, k) as int;
    let step = power2::pow2(grid::spacing(p, wide)) as int;
    grid::lemma_grid_step(p, k);
    lemma_spacing_increases(p, k, wide);
    magnitude::lemma_pow2_at_most(grid::spacing(p, k), grid::spacing(p, wide));
    let up = power2::pow2(grid::spacing(p, k)) as int;
    assert((g + (g + up)) * d == 2 * (g * d) + up * d) by (nonlinear_arith);
    assert(up * d <= step * d) by (nonlinear_arith)
        requires
            up <= step,
            d > 0,
    ;
    if k > 0 {
        let j = (k - 1) as nat;
        grid::lemma_grid_step(p, j);
        lemma_spacing_increases(p, j, wide);
        magnitude::lemma_pow2_at_most(grid::spacing(p, j), grid::spacing(p, wide));
        let down = power2::pow2(grid::spacing(p, j)) as int;
        let below = grid::grid(p, j) as int;
        assert((below + g) * d == 2 * (g * d) - down * d) by (nonlinear_arith)
            requires
                g == below + down,
        ;
        assert(down * d <= step * d) by (nonlinear_arith)
            requires
                down <= step,
                d > 0,
        ;
    } else {
        power2::lemma_pow2_pos(p);
        assert(g == 0);
        assert(g * d == 0) by (nonlinear_arith)
            requires
                g == 0,
        ;
        assert(step * d >= 0) by (nonlinear_arith)
            requires
                step >= up,
                up > 0,
                d > 0,
        ;
    }
}

/// Some magnitudes, and the spacing there.
proof fn lemma_patterns()
    ensures
        grid::grid(52, values::ONE as nat) == power2::pow2(1074),
        grid::grid(52, values::TWO as nat) == power2::pow2(1075),
        grid::spacing(52, values::TWO as nat) == 1023,
        grid::grid(52, values::SIXTEEN as nat) == 16 * power2::pow2(1074),
        grid::grid(23, values::S_ONE as nat) == power2::pow2(149),
        grid::spacing(23, values::S_ONE as nat) == 126,
        grid::grid(23, values::S_TWO as nat) == power2::pow2(150),
        grid::spacing(23, values::S_TWO as nat) == 127,
        grid::grid(23, values::S_SIXTEEN as nat) == power2::pow2(153),
        grid::spacing(23, values::S_SIXTEEN as nat) == 130,
        grid::grid(23, values::S_MILLIONTH as nat) == 8_796_093 * power2::pow2(106),
        power2::pow2(23) == 0x80_0000,
        power2::pow2(52) == 0x10_0000_0000_0000,
{
    magnitude::lemma_pow2_values();
    let (b, s) = (power2::pow2(52), power2::pow2(23));
    grid::lemma_grid_of(52, 1022, b);
    power2::lemma_pow2_adds(52, 1022);
    grid::lemma_grid_of(52, 1023, b);
    power2::lemma_pow2_adds(52, 1023);
    grid::lemma_grid_of(52, 1026, b);
    power2::lemma_pow2_adds(52, 1026);
    power2::lemma_pow2_adds(4, 1074);
    power2::lemma2_to64();
    grid::lemma_grid_of(23, 126, s);
    power2::lemma_pow2_adds(23, 126);
    grid::lemma_grid_of(23, 127, s);
    power2::lemma_pow2_adds(23, 127);
    grid::lemma_grid_of(23, 130, s);
    power2::lemma_pow2_adds(23, 130);
    grid::lemma_grid_of(23, 106, 8_796_093);
}

/// Whether a single and a double differ by a millionth at most.
pub open spec fn within_millionth(a: F32, b: F64) -> bool {
    let gap = a.units() * power2::pow2(925) - b.units();
    &&& a.finite()
    &&& b.finite()
    &&& 1_000_000 * gap <= power2::pow2(1074)
    &&& -1_000_000 * gap <= power2::pow2(1074)
}

/// Whether a double is off `neutral`, a double too, by more than a thousandth.
pub open spec fn off_by_thousandth(a: F64, neutral: F64) -> bool {
    let gap = a.units() - neutral.units();
    1_000 * gap > power2::pow2(1074) || -1_000 * gap > power2::pow2(1074)
}

/// The powers of two that carry doubles' units over to singles'.
proof fn lemma_scales()
    ensures
        power2::pow2(1074) == power2::pow2(925) * power2::pow2(149),
        power2::pow2(1075) == 2 * power2::pow2(1074),
        power2::pow2(1023) == power2::pow2(925) * power2::pow2(98),
        power2::pow2(98) <= power2::pow2(126),
        power2::pow2(126) * 0x80_0000 == power2::pow2(149),
        power2::pow2(127) == 2 * power2::pow2(126),
        power2::pow2(130) == 16 * power2::pow2(126),
        power2::pow2(150) == 2 * power2::pow2(149),
        power2::pow2(153) == 16 * power2::pow2(149),
        power2::pow2(106) * 0x10_0000 == power2::pow2(126),
        power2::pow2(925) > 0,
        power2::pow2(149) > 0,
        power2::pow2(106) > 0,
{
    power2::lemma2_to64();
    power2::lemma_pow2_adds(925, 149);
    power2::lemma_pow2_adds(925, 98);
    magnitude::lemma_pow2_at_most(98, 126);
    power2::lemma_pow2_adds(126, 23);
    power2::lemma_pow2_adds(1, 1074);
    power2::lemma_pow2_adds(1, 126);
    power2::lemma_pow2_adds(4, 126);
    power2::lemma_pow2_adds(1, 149);
    power2::lemma_pow2_adds(4, 149);
    power2::lemma_pow2_adds(106, 20);
    power2::lemma_pow2_pos(925);
    power2::lemma_pow2_pos(149);
    power2::lemma_pow2_pos(106);
}

/// What narrowing a number from zero to `top` does, where `top` is representable.
proof fn lemma_narrowed(x: F64, top: nat, most: nat)
    requires
        x.finite(),
        0 <= x.units() <= most * power2::pow2(1074),
        top <= values::S_SIXTEEN,
        grid::grid(23, top) == most * power2::pow2(149),
    ensures
        double::narrowed(x).magnitude() <= top,
        0 <= double::narrowed(x).units() <= most * power2::pow2(149),
        ({
            let gap = double::narrowed(x).units() * power2::pow2(925) - x.units();
            let step = power2::pow2(grid::spacing(23, top)) * power2::pow2(925);
            2 * gap <= step && -2 * gap <= step
        }),
{
    lemma_scales();
    lemma_patterns();
    let z = x.unsigned().units();
    let (whole, half, carry) = (
        power2::pow2(1074) as int,
        power2::pow2(149) as int,
        power2::pow2(925) as int,
    );
    assert(x.unsigned().magnitude() == x.magnitude());
    assert(z == grid::grid(52, x.magnitude() as nat));
    let n = z as nat * power2::pow2(149);
    let k = grid::nearest(23, 0x7F80_0000, n, power2::pow2(1074));
    power2::lemma_pow2_pos(1074);
    assert(z <= most * whole);
    assert(n <= grid::grid(23, top) * power2::pow2(1074)) by (nonlinear_arith)
        requires
            n == z * half,
            z <= most * whole,
            half > 0,
            grid::grid(23, top) == most * half,
            power2::pow2(1074) == whole,
    ;
    nearest_is_at_most(23, 0x7F80_0000, n, power2::pow2(1074), top);
    rounding_moves_by_half_a_step(23, 0x7F80_0000, n, power2::pow2(1074), top);
    grid::lemma_grid_increases(23, k, top);
    let v = grid::grid(23, k) as int;
    let step = power2::pow2(grid::spacing(23, top)) as int;
    let near = double::narrowed(x);
    assert(near == single::signed(x.negative(), k));
    assert(near.magnitude() == k);
    if x.negative() {
        assert(z == 0);
        assert(n <= grid::grid(23, 0) * power2::pow2(1074)) by (nonlinear_arith)
            requires
                n == z * half,
                z == 0,
                whole > 0,
                power2::pow2(1074) == whole,
        ;
        nearest_is_at_most(23, 0x7F80_0000, n, power2::pow2(1074), 0);
        assert(v == 0);
    }
    assert(near.units() == v && x.units() == z);
    assert(2 * (v * carry - z) <= step * carry && 2 * (z - v * carry) <= step * carry) by (
        nonlinear_arith)
        requires
            2 * (n - v * whole) <= step * whole,
            2 * (v * whole - n) <= step * whole,
            n == z * half,
            whole == carry * half,
            half > 0,
            carry > 0,
    {
        assert(v * whole == (v * carry) * half);
        assert(step * whole == (step * carry) * half);
    }
}

/// What taking one off a single from zero to two does.
proof fn lemma_less_one(v: F32)
    requires
        v.magnitude() <= values::S_TWO,
        0 <= v.units() <= power2::pow2(150),
    ensures
        ({
            let r = single::difference(v, F32 { bits: values::S_ONE });
            let gap = r.units() - (v.units() - power2::pow2(149));
            &&& r.magnitude() <= values::S_ONE
            &&& 2 * gap <= power2::pow2(126)
            &&& -2 * gap <= power2::pow2(126)
        }),
{
    lemma_scales();
    lemma_patterns();
    let one = F32 { bits: values::S_ONE };
    let m = v.units() - power2::pow2(149);
    let r = single::difference(v, one);
    assert(one.turned().magnitude() == values::S_ONE);
    assert(one.turned().units() == -(power2::pow2(149) as int));
    assert(v.units() + one.turned().units() == m);
    if m == 0 {
        assert(r.magnitude() == 0);
        assert(r.units() == 0);
        power2::lemma_pow2_pos(126);
    } else {
        let n = (if m > 0 {
            m
        } else {
            -m
        }) as nat;
        let k = grid::nearest(23, 0x7F80_0000, n, 1);
        assert(n <= grid::grid(23, values::S_ONE as nat) * 1);
        nearest_is_at_most(23, 0x7F80_0000, n, 1, values::S_ONE as nat);
        rounding_moves_by_half_a_step(23, 0x7F80_0000, n, 1, values::S_ONE as nat);
        assert(r == single::signed(m < 0, k));
        assert(r.magnitude() == k);
    }
}

/// Adding one to a number from minus one to one and narrowing the sum, then taking the one off
/// again, gives back the number within a millionth.
pub proof fn lift_comes_back(c: F64)
    requires
        c.finite(),
        double::at_most(F64 { bits: values::MINUS_ONE }, c),
        double::at_most(c, F64 { bits: values::ONE }),
    ensures
        within_millionth(
            single::difference(
                double::narrowed(double::sum(c, F64 { bits: values::ONE })),
                F32 { bits: values::S_ONE },
            ),
            c,
        ),
{
    lemma_scales();
    lemma_patterns();
    let one = F64 { bits: values::ONE };
    let minus = F64 { bits: values::MINUS_ONE };
    let whole = power2::pow2(1074) as int;
    assert(one.units() == whole);
    assert(minus.magnitude() == values::ONE && minus.units() == -whole);
    double::order_is_numeric(minus, c);
    double::order_is_numeric(c, one);
    let s = c.units() + whole;
    let a = double::sum(c, one);
    let gap = a.units() - s;
    assert(a.finite() && 0 <= a.units() <= 2 * whole && 2 * gap <= power2::pow2(1023) && -2 * gap
        <= power2::pow2(1023)) by {
        power2::lemma_pow2_pos(1023);
        if s == 0 {
            assert(a.magnitude() == 0);
            assert(a.units() == 0);
        } else {
            let k = grid::nearest(52, 0x7FF0_0000_0000_0000, s as nat, 1);
            nearest_is_at_most(52, 0x7FF0_0000_0000_0000, s as nat, 1, values::TWO as nat);
            rounding_moves_by_half_a_step(
                52,
                0x7FF0_0000_0000_0000,
                s as nat,
                1,
                values::TWO as nat,
            );
            assert(a == double::signed(false, k));
            assert(a.magnitude() == k);
            grid::lemma_grid_increases(52, k, values::TWO as nat);
        }
    }
    lemma_narrowed(a, values::S_TWO as nat, 2);
    let l = double::narrowed(a);
    lemma_less_one(l);
    let r = single::difference(l, F32 { bits: values::S_ONE });
    let carry = power2::pow2(925) as int;
    let (x, y) = (r.units() - (l.units() - power2::pow2(149)), l.units() * carry - a.units());
    let step = power2::pow2(126) as int;
    let total = r.units() * carry - c.units();
    assert(total == x * carry + y + gap) by (nonlinear_arith)
        requires
            x == r.units() - (l.units() - power2::pow2(149)),
            y == l.units() * carry - a.units(),
            gap == a.units() - (c.units() + whole),
            whole == carry * power2::pow2(149),
            total == r.units() * carry - c.units(),
    ;
    assert(2 * (x * carry) <= step * carry && -2 * (x * carry) <= step * carry) by (
        nonlinear_arith)
        requires
            2 * x <= step,
            -2 * x <= step,
            carry > 0,
    ;
    assert(power2::pow2(127) * carry == 2 * (step * carry)) by (nonlinear_arith)
        requires
            power2::pow2(127) == 2 * step,
    ;
    assert(power2::pow2(1023) <= step * carry) by (nonlinear_arith)
        requires
            power2::pow2(1023) == carry * power2::pow2(98),
            power2::pow2(98) <= step,
            carry > 0,
    ;
    assert(whole == 0x80_0000 * (step * carry)) by (nonlinear_arith)
        requires
            whole == carry * power2::pow2(149),
            power2::pow2(149) == step * 0x80_0000,
    ;
    assert(2 * total <= 4 * (step * carry) && -2 * total <= 4 * (step * carry));
}

/// A lift off zero by more than a thousandth comes back off zero by a millionth at least.
pub proof fn lift_stays_off_zero(c: F64, r: F32)
    requires
        c.finite(),
        off_by_thousandth(c, F64 { bits: values::ZERO }),
        within_millionth(r, c),
    ensures
        !single::less(r.unsigned(), F32 { bits: values::S_MILLIONTH }),
{
    lemma_scales();
    lemma_patterns();
    let carry = power2::pow2(925) as int;
    let whole = power2::pow2(1074) as int;
    let v = grid::grid(23, r.magnitude() as nat) as int;
    assert(F64 { bits: values::ZERO }.units() == 0);
    assert(r.unsigned().magnitude() == r.magnitude());
    assert(1_000_000 * (v * carry) >= 999 * whole) by {
        if r.negative() {
            assert(r.units() * carry == -(v * carry)) by (nonlinear_arith)
                requires
                    r.units() == -v,
            ;
        }
    }
    let e = grid::grid(23, values::S_MILLIONTH as nat) as int;
    if r.magnitude() < values::S_MILLIONTH {
        grid::lemma_grid_increases(23, r.magnitude() as nat, values::S_MILLIONTH as nat);
        let unit = power2::pow2(106) as int;
        let low = unit * carry;
        assert(v * carry <= e * carry) by (nonlinear_arith)
            requires
                v <= e,
                carry > 0,
        ;
        assert(e * carry == 8_796_093 * low) by (nonlinear_arith)
            requires
                e == 8_796_093 * unit,
                low == unit * carry,
        ;
        assert(whole == 0x800_0000_0000 * low) by (nonlinear_arith)
            requires
                whole == carry * power2::pow2(149),
                power2::pow2(149) == power2::pow2(126) * 0x80_0000,
                power2::pow2(126) == unit * 0x10_0000,
                low == unit * carry,
        ;
        assert(low > 0) by (nonlinear_arith)
            requires
                low == unit * carry,
                unit > 0,
                carry > 0,
        ;
        assert(false);
    }
}

/// A number from zero to sixteen that is off one by more than a thousandth is, narrowed, off
/// one by a millionth at least.
pub proof fn narrowed_stays_off_one(x: F64)
    requires
        x.finite(),
        double::at_most(F64 { bits: values::ZERO }, x),
        double::at_most(x, F64 { bits: values::SIXTEEN }),
        off_by_thousandth(x, F64 { bits: values::ONE }),
    ensures
        !single::less(
            single::difference(double::narrowed(x), F32 { bits: values::S_ONE }).unsigned(),
            F32 { bits: values::S_MILLIONTH },
        ),
{
    lemma_scales();
    lemma_patterns();
    let carry = power2::pow2(925) as int;
    let whole = power2::pow2(1074) as int;
    let half = power2::pow2(149) as int;
    let one = F32 { bits: values::S_ONE };
    assert(F64 { bits: values::ONE }.units() == whole);
    double::order_is_numeric(F64 { bits: values::ZERO }, x);
    double::order_is_numeric(x, F64 { bits: values::SIXTEEN });
    assert(F64 { bits: values::ZERO }.units() == 0);
    assert(F64 { bits: values::SIXTEEN }.units() == 16 * whole);
    lemma_narrowed(x, values::S_SIXTEEN as nat, 16);
    let l = double::narrowed(x);
    let m = l.units() - half;
    assert(one.turned().magnitude() == values::S_ONE);
    assert(one.turned().units() == -half);
    let n = (if m >= 0 {
        m
    } else {
        -m
    }) as nat;
    let unit = power2::pow2(106) as int;
    let low = unit * carry;
    assert(low > 0) by (nonlinear_arith)
        requires
            low == unit * carry,
            unit > 0,
            carry > 0,
    ;
    assert(whole == 0x800_0000_0000 * low) by (nonlinear_arith)
        requires
            whole == carry * half,
            half == power2::pow2(126) * 0x80_0000,
            power2::pow2(126) == unit * 0x10_0000,
            low == unit * carry,
    ;
    assert(power2::pow2(130) * carry == 0x100_0000 * low) by (nonlinear_arith)
        requires
            power2::pow2(130) == 16 * power2::pow2(126),
            power2::pow2(126) == unit * 0x10_0000,
            low == unit * carry,
    ;
    assert(m * carry == l.units() * carry - whole) by (nonlinear_arith)
        requires
            m == l.units() - half,
            whole == carry * half,
    ;
    assert(1_000 * (n * carry) >= 8_796_093_000 * low) by {
        if m < 0 {
            assert(n * carry == -(m * carry)) by (nonlinear_arith)
                requires
                    n == -m,
            ;
        }
    }
    assert(n >= 8_796_093 * unit) by (nonlinear_arith)
        requires
            1_000 * (n * carry) >= 8_796_093_000 * low,
            low == unit * carry,
            carry > 0,
    ;
    let k = grid::nearest(23, 0x7F80_0000, n, 1);
    nearest_is_nearest(23, 0x7F80_0000, n, 1);
    nearest_is_at_least(23, 0x7F80_0000, n, 1, values::S_MILLIONTH as nat);
    assert(m != 0) by {
        assert(8_796_093 * unit > 0);
    }
    assert(l.units() + one.turned().units() == m);
    let r = single::difference(l, one);
    assert(r == single::signed(m < 0, k));
    assert(r.magnitude() == k && r.unsigned().magnitude() == k);
}

} // verus!

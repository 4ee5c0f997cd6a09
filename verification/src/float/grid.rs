//! The grid of representable magnitudes, and what it is to be nearest on it.

use vstd::arithmetic::{div_mod, power2};
use vstd::prelude::*;

verus! {

/// The magnitude with bit pattern `k` in a format that stores `p` fraction bits, counted
/// in units of the format's smallest positive number.
pub open spec fn grid(p: nat, k: nat) -> nat {
    if k < power2::pow2(p) {
        k
    } else {
        (power2::pow2(p) + k % power2::pow2(p)) * power2::pow2((k / power2::pow2(p) - 1) as nat)
    }
}

/// The binary exponent of the spacing above the magnitude with bit pattern `k`.
pub open spec fn spacing(p: nat, k: nat) -> nat {
    if k < power2::pow2(p) {
        0
    } else {
        (k / power2::pow2(p) - 1) as nat
    }
}

/// Whether `k` is the pattern nearest to the exact magnitude `n / d`, ties to the even
/// pattern. Patterns run up to `top`, the pattern of infinity, which stands one step above
/// the largest finite magnitude.
pub open spec fn is_nearest(p: nat, top: nat, n: nat, d: nat, k: nat) -> bool {
    &&& k <= top
    &&& k < top ==> {
        ||| 2 * n < (grid(p, k) + grid(p, k + 1)) * d
        ||| 2 * n == (grid(p, k) + grid(p, k + 1)) * d && k % 2 == 0
    }
    &&& k > 0 ==> {
        ||| 2 * n > (grid(p, (k - 1) as nat) + grid(p, k)) * d
        ||| 2 * n == (grid(p, (k - 1) as nat) + grid(p, k)) * d && k % 2 == 0
    }
}

/// The pattern nearest to `n / d`.
pub open spec fn nearest(p: nat, top: nat, n: nat, d: nat) -> nat {
    choose|k: nat| is_nearest(p, top, n, d, k)
}

/// A pattern split as `q` steps of exponent and a significand `m` has magnitude `m * 2^q`;
/// a significand that has just carried out of its field is still read correctly.
pub proof fn lemma_grid_of(p: nat, q: nat, m: nat)
    requires
        m <= 2 * power2::pow2(p),
        q == 0 || power2::pow2(p) <= m,
    ensures
        grid(p, q * power2::pow2(p) + m) == m * power2::pow2(q),
{
    let b = power2::pow2(p);
    power2::lemma_pow2_pos(p);
    let k = q * b + m;
    if m < b {
        assert(q == 0);
        assert(q * b == 0) by (nonlinear_arith)
            requires
                q == 0,
        ;
        assert(power2::pow2(0) == 1) by {
            power2::lemma2_to64();
        }
        assert(m * 1 == m);
    } else if m < 2 * b {
        assert(k / b == q + 1 && k % b == m - b) by (nonlinear_arith)
            requires
                k == q * b + m,
                b <= m < 2 * b,
                b > 0,
        {
            div_mod::lemma_fundamental_div_mod_converse(
                k as int,
                b as int,
                q as int + 1,
                m - b,
            );
        }
        assert(k >= b) by (nonlinear_arith)
            requires
                k == q * b + m,
                b <= m,
        ;
    } else {
        assert(k / b == q + 2 && k % b == 0) by (nonlinear_arith)
            requires
                k == q * b + m,
                m == 2 * b,
                b > 0,
        {
            div_mod::lemma_fundamental_div_mod_converse(
                k as int,
                b as int,
                q as int + 2,
                0,
            );
        }
        assert(k >= b) by (nonlinear_arith)
            requires
                k == q * b + m,
                b <= m,
        ;
        power2::lemma_pow2_unfold(q + 1);
        assert(b * (2 * power2::pow2(q)) == (2 * b) * power2::pow2(q)) by (nonlinear_arith);
    }
}

/// Every pattern splits as in [`lemma_grid_of`].
pub proof fn lemma_split(p: nat, k: nat) -> (m: nat)
    ensures
        k == spacing(p, k) * power2::pow2(p) + m,
        m < 2 * power2::pow2(p),
        spacing(p, k) == 0 || power2::pow2(p) <= m,
        spacing(p, k) > 0 ==> m == power2::pow2(p) + k % power2::pow2(p),
        grid(p, k) == m * power2::pow2(spacing(p, k)),
{
    let b = power2::pow2(p);
    power2::lemma_pow2_pos(p);
    let q = spacing(p, k);
    if k < b {
        assert(q * b == 0) by (nonlinear_arith)
            requires
                q == 0,
        ;
        lemma_grid_of(p, 0, k);
        k
    } else {
        let m = b + k % b;
        assert(k / b >= 1) by (nonlinear_arith)
            requires
                k >= b,
                b > 0,
        ;
        assert(k == q * b + m) by (nonlinear_arith)
            requires
                b > 0,
                q == k / b - 1,
                m == b + k % b,
        {
            div_mod::lemma_fundamental_div_mod(k as int, b as int);
        }
        assert(k % b < b) by (nonlinear_arith)
            requires
                b > 0,
        ;
        lemma_grid_of(p, q, m);
        m
    }
}

/// Neighbouring magnitudes differ by a power of two.
pub proof fn lemma_grid_step(p: nat, k: nat)
    ensures
        grid(p, k + 1) == grid(p, k) + power2::pow2(spacing(p, k)),
        grid(p, k) < grid(p, k + 1),
{
    let m = lemma_split(p, k);
    let q = spacing(p, k);
    lemma_grid_of(p, q, m + 1);
    power2::lemma_pow2_pos(q);
    assert((m + 1) * power2::pow2(q) == m * power2::pow2(q) + power2::pow2(q)) by (nonlinear_arith);
}

/// Magnitudes grow with their patterns.
pub proof fn lemma_grid_increases(p: nat, a: nat, b: nat)
    requires
        a <= b,
    ensures
        grid(p, a) <= grid(p, b),
        a < b ==> grid(p, a) < grid(p, b),
    decreases b - a,
{
    if a < b {
        lemma_grid_increases(p, a, (b - 1) as nat);
        lemma_grid_step(p, (b - 1) as nat);
    }
}

/// At most one pattern is nearest.
pub proof fn lemma_nearest_unique(p: nat, top: nat, n: nat, d: nat, a: nat, b: nat)
    requires
        d > 0,
        is_nearest(p, top, n, d, a),
        is_nearest(p, top, n, d, b),
    ensures
        a == b,
    decreases
        (if a > b {
            1nat
        } else {
            0nat
        }),
{
    if a > b {
        lemma_nearest_unique(p, top, n, d, b, a);
    } else if a < b {
        let below = (grid(p, a) + grid(p, a + 1)) as int;
        let above = (grid(p, (b - 1) as nat) + grid(p, b)) as int;
        lemma_grid_increases(p, a, (b - 1) as nat);
        lemma_grid_increases(p, a + 1, b);
        assert(below * d <= above * d) by (nonlinear_arith)
            requires
                below <= above,
                d > 0,
        ;
        assert(below * d == above * d);
        assert(below == above) by (nonlinear_arith)
            requires
                below * d == above * d,
                d > 0,
        ;
        if a + 1 < b {
            lemma_grid_increases(p, a + 1, b);
            assert(false);
        }
    }
}

/// A pattern shown to be nearest is the one that [`nearest`] names.
pub proof fn lemma_nearest_is(p: nat, top: nat, n: nat, d: nat, k: nat)
    requires
        d > 0,
        is_nearest(p, top, n, d, k),
    ensures
        nearest(p, top, n, d) == k,
{
    lemma_nearest_unique(p, top, n, d, nearest(p, top, n, d), k);
}

/// Rounding the significand to nearest, ties to even, gives the nearest pattern.
pub proof fn lemma_rounded(p: nat, top: nat, n: nat, d: nat, q: nat, m: nat)
    requires
        p >= 1,
        d > 0,
        top % 2 == 0,
        m <= 2 * power2::pow2(p),
        q == 0 || power2::pow2(p) <= m,
        q > 0 && m == power2::pow2(p) ==> n >= m * power2::pow2(q) * d,
        2 * n < (2 * m + 1) * power2::pow2(q) * d || (2 * n == (2 * m + 1) * power2::pow2(q) * d
            && m % 2 == 0),
        m == 0 || 2 * n > (2 * m - 1) * power2::pow2(q) * d || (2 * n == (2 * m - 1)
            * power2::pow2(q) * d && m % 2 == 0),
    ensures
        ({
            let k = q * power2::pow2(p) + m;
            is_nearest(
                p,
                top,
                n,
                d,
                if k <= top {
                    k
                } else {
                    top
                },
            )
        }),
{
    let b = power2::pow2(p);
    let u = power2::pow2(q);
    let k = q * b + m;
    power2::lemma_pow2_pos(p);
    power2::lemma_pow2_pos(q);
    lemma_grid_of(p, q, m);
    assert(k % 2 == m % 2) by {
        power2::lemma_pow2_unfold(p);
        let half = power2::pow2((p - 1) as nat);
        assert(k == 2 * (q * half) + m) by (nonlinear_arith)
            requires
                k == q * b + m,
                b == 2 * half,
        ;
    }
    // Above.
    if m < 2 * b {
        lemma_grid_of(p, q, m + 1);
        assert((m * u + (m + 1) * u) * d == (2 * m + 1) * u * d) by (nonlinear_arith);
        assert(q * b + (m + 1) == k + 1);
    } else {
        lemma_grid_step(p, k);
        assert(k == (q + 1) * b + b) by (nonlinear_arith)
            requires
                k == q * b + m,
                m == 2 * b,
        ;
        lemma_grid_of(p, q + 1, b + 1);
        assert((q + 1) * b + (b + 1) == k + 1);
        power2::lemma_pow2_unfold(q + 1);
        assert((m * u + (b + 1) * (2 * u)) * d > (2 * m + 1) * u * d) by (nonlinear_arith)
            requires
                m == 2 * b,
                u > 0,
                d > 0,
        ;
    }
    // Below.
    if k > 0 {
        if m > b || q == 0 {
            assert(m > 0) by {
                if m == 0 {
                    assert(q * b == 0) by (nonlinear_arith)
                        requires
                            q == 0,
                    ;
                }
            }
            lemma_grid_of(p, q, (m - 1) as nat);
            assert(q * b + (m - 1) as nat == k - 1);
            assert(((m - 1) * u + m * u) * d == (2 * m - 1) * u * d) by (nonlinear_arith);
        } else {
            let r = (q - 1) as nat;
            assert(k - 1 == r * b + (2 * b - 1)) by (nonlinear_arith)
                requires
                    k == q * b + m,
                    m == b,
                    r == q - 1,
            ;
            lemma_grid_of(p, r, (2 * b - 1) as nat);
            assert(grid(p, (k - 1) as nat) == (2 * b - 1) as nat * power2::pow2(r));
            power2::lemma_pow2_unfold(q);
            power2::lemma_pow2_pos(r);
            let w = power2::pow2(r);
            assert(((2 * b - 1) * w + m * u) * d < 2 * (m * u * d)) by (nonlinear_arith)
                requires
                    u == 2 * w,
                    m == b,
                    w > 0,
                    d > 0,
            ;
        }
    }
    if k > top {
        if top > 0 {
            lemma_grid_increases(p, top, k);
            let x = (grid(p, (top - 1) as nat) + grid(p, top)) as int;
            let y = (grid(p, (k - 1) as nat) + grid(p, k)) as int;
            lemma_grid_increases(p, (top - 1) as nat, (k - 1) as nat);
            assert(x * d < y * d) by (nonlinear_arith)
                requires
                    x < y,
                    d > 0,
            ;
        }
    }
}

} // verus!

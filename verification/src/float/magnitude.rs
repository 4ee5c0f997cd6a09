//! Arithmetic on magnitudes: exact integer work, then one rounding step.

use vstd::arithmetic::power2;
use vstd::prelude::*;

use crate::float::grid;

verus! {

/// A binary format: `p` stored fraction bits, smallest positive number `2^-unit`, and
/// `top`, the pattern of infinity.
#[derive(Clone, Copy)]
pub struct Format {
    pub p: u32,
    pub unit: u32,
    pub top: u64,
}

impl Format {
    /// The two formats in use.
    pub open spec fn valid(self) -> bool {
        ||| self.p == 52 && self.unit == 1074 && self.top == 0x7FF0_0000_0000_0000
        ||| self.p == 23 && self.unit == 149 && self.top == 0x7F80_0000
    }

    /// The pattern nearest to the exact magnitude `n / d`, in units of `2^-unit`.
    pub open spec fn nearest(self, n: nat, d: nat) -> nat {
        grid::nearest(self.p as nat, self.top as nat, n, d)
    }

    /// The magnitude with pattern `k`, in units of `2^-unit`.
    pub open spec fn value(self, k: u64) -> nat {
        grid::grid(self.p as nat, k as nat)
    }
}

/// `binary64`.
pub fn double_format() -> (r: Format)
    ensures
        r.p == 52 && r.unit == 1074 && r.top == 0x7FF0_0000_0000_0000,
{
    Format { p: 52, unit: 1074, top: 0x7FF0_0000_0000_0000 }
}

/// `binary32`.
pub fn single_format() -> (r: Format)
    ensures
        r.p == 23 && r.unit == 149 && r.top == 0x7F80_0000,
{
    Format { p: 23, unit: 149, top: 0x7F80_0000 }
}

/// The part of an exponent above zero.
pub open spec fn pos(e: int) -> nat {
    if e > 0 {
        e as nat
    } else {
        0
    }
}

/// The part of an exponent below zero.
pub open spec fn neg(e: int) -> nat {
    if e < 0 {
        (-e) as nat
    } else {
        0
    }
}

/// Whether the exact value `n / d` is `sig * 2^e` (when not `sticky`), or lies strictly
/// between that and `(sig + 1) * 2^e` (when `sticky`).
pub open spec fn brackets(sig: nat, e: int, sticky: bool, n: nat, d: nat) -> bool {
    let a = d * power2::pow2(pos(e));
    let b = power2::pow2(neg(e));
    &&& sticky ==> sig * a < n * b < (sig + 1) * a
    &&& !sticky ==> sig * a == n * b
}

/// `2^s`.
pub fn two_to(s: u32) -> (r: u128)
    requires
        s < 128,
    ensures
        r == power2::pow2(s as nat),
{
    let mut r: u128 = 1;
    let mut i: u32 = 0;
    proof {
        power2::lemma2_to64();
    }
    while i < s
        invariant
            i <= s < 128,
            r == power2::pow2(i as nat),
        decreases s - i,
    {
        proof {
            power2::lemma_pow2_unfold((i + 1) as nat);
            lemma_pow2_at_most(i as nat, 126);
            assert(power2::pow2(126) == 0x4000_0000_0000_0000_0000_0000_0000_0000) by {
                lemma_pow2_values();
            }
        }
        r = r * 2;
        i = i + 1;
    }
    r
}

/// Powers of two beyond the ones that the library lists.
pub proof fn lemma_pow2_values()
    ensures
        power2::pow2(23) == 0x80_0000,
        power2::pow2(52) == 0x10_0000_0000_0000,
        power2::pow2(53) == 0x20_0000_0000_0000,
        power2::pow2(54) == 0x40_0000_0000_0000,
        power2::pow2(64) == 0x1_0000_0000_0000_0000,
        power2::pow2(126) == 0x4000_0000_0000_0000_0000_0000_0000_0000,
        power2::pow2(127) == 0x8000_0000_0000_0000_0000_0000_0000_0000,
{
    power2::lemma2_to64();
    power2::lemma2_to64_rest();
    power2::lemma_pow2_adds(63, 63);
    power2::lemma_pow2_adds(63, 64);
    assert(0x8000_0000_0000_0000int * 0x8000_0000_0000_0000int
        == 0x4000_0000_0000_0000_0000_0000_0000_0000int);
    assert(0x8000_0000_0000_0000int * 0x1_0000_0000_0000_0000int
        == 0x8000_0000_0000_0000_0000_0000_0000_0000int);
}

/// Powers of two grow with the exponent.
pub proof fn lemma_pow2_at_most(a: nat, b: nat)
    requires
        a <= b,
    ensures
        power2::pow2(a) <= power2::pow2(b),
        0 < power2::pow2(a),
{
    power2::lemma_pow2_pos(a);
    if a < b {
        power2::lemma_pow2_strictly_increases(a, b);
    }
}

/// The number of significant bits of `v`.
pub fn bit_length(v: u128) -> (r: u32)
    requires
        v < 0x8000_0000_0000_0000_0000_0000_0000_0000,
    ensures
        r <= 127,
        v < power2::pow2(r as nat),
        r > 0 ==> power2::pow2((r - 1) as nat) <= v,
{
    let mut r: u32 = 0;
    let mut bound: u128 = 1;
    proof {
        power2::lemma2_to64();
        lemma_pow2_values();
    }
    while bound <= v
        invariant
            v < 0x8000_0000_0000_0000_0000_0000_0000_0000,
            r <= 127,
            bound == power2::pow2(r as nat),
            r > 0 ==> power2::pow2((r - 1) as nat) <= v,
            power2::pow2(126) == 0x4000_0000_0000_0000_0000_0000_0000_0000,
            power2::pow2(127) == 0x8000_0000_0000_0000_0000_0000_0000_0000,
        decreases 127 - r,
    {
        proof {
            power2::lemma_pow2_unfold((r + 1) as nat);
            if r >= 127 {
                assert(false);
            }
            lemma_pow2_at_most(r as nat, 126);
        }
        bound = bound * 2;
        r = r + 1;
    }
    r
}

/// The scaled inequalities behind one rounding step: with `x = n / d` bracketed by
/// `sig` at exponent `e`, and `sig` split at bit `s`, the significand `m` compares with
/// `x / 2^(e + s)` as the remainder compares with one half.
proof fn lemma_split_brackets(
    sig: nat,
    e: int,
    sticky: bool,
    n: nat,
    d: nat,
    s: nat,
    m: nat,
    rem: nat,
)
    requires
        d > 0,
        s > 0,
        e + s >= 0,
        brackets(sig, e, sticky, n, d),
        sig == m * power2::pow2(s) + rem,
        rem < power2::pow2(s),
    ensures
        ({
            let h = power2::pow2((s - 1) as nat);
            let u = power2::pow2((e + s) as nat) * d;
            &&& n >= m * u
            &&& rem < h ==> 2 * n < (2 * m + 1) * u
            &&& rem == h && !sticky ==> 2 * n == (2 * m + 1) * u
            &&& rem > h || (rem == h && sticky) ==> 2 * n > (2 * m + 1) * u
            &&& n < (m + 1) * u
        }),
{
    let a = d * power2::pow2(pos(e));
    let b = power2::pow2(neg(e));
    let w = power2::pow2(s);
    let h = power2::pow2((s - 1) as nat);
    let t = power2::pow2((e + s) as nat);
    let u = t * d;
    power2::lemma_pow2_unfold(s);
    power2::lemma_pow2_pos(neg(e));
    power2::lemma_pow2_pos(pos(e));
    assert(u * b == w * a) by {
        power2::lemma_pow2_adds((e + s) as nat, neg(e));
        power2::lemma_pow2_adds(s, pos(e));
        assert((e + s) as nat + neg(e) == s + pos(e));
        let c = power2::pow2(pos(e));
        assert(t * b == w * c);
        assert((t * d) * b == w * (d * c)) by (nonlinear_arith)
            requires
                t * b == w * c,
        ;
    }
    assert(a > 0) by (nonlinear_arith)
        requires
            a == d * power2::pow2(pos(e)),
            d > 0,
            power2::pow2(pos(e)) > 0,
    ;
    // Everything is compared after multiplying by `b`.
    let lo = sig * a;
    let hi = (sig + 1) * a;
    assert(lo == m * (w * a) + rem * a) by (nonlinear_arith)
        requires
            lo == sig * a,
            sig == m * w + rem,
    ;
    assert(hi == lo + a) by (nonlinear_arith)
        requires
            hi == (sig + 1) * a,
            lo == sig * a,
    ;
    assert(lo <= n * b < hi);
    let wa = w * a;
    assert(wa == 2 * (h * a)) by (nonlinear_arith)
        requires
            wa == w * a,
            w == 2 * h,
    ;
    assert(rem * a >= 0) by (nonlinear_arith)
        requires
            a > 0,
            rem >= 0,
    ;
    assert(m * u * b == m * wa) by (nonlinear_arith)
        requires
            u * b == wa,
    ;
    assert((m + 1) * u * b == m * wa + wa) by (nonlinear_arith)
        requires
            u * b == wa,
    ;
    assert((2 * m + 1) * u * b == 2 * (m * wa) + wa) by (nonlinear_arith)
        requires
            u * b == wa,
    ;
    assert(n * b >= (m * u) * b);
    assert(n >= m * u) by (nonlinear_arith)
        requires
            n * b >= (m * u) * b,
            b > 0,
    ;
    assert(rem * a + a <= w * a) by (nonlinear_arith)
        requires
            rem + 1 <= w,
            a > 0,
    ;
    assert(n * b < (m + 1) * u * b);
    assert(n < (m + 1) * u) by (nonlinear_arith)
        requires
            n * b < (m + 1) * u * b,
            b > 0,
    ;
    if rem < h {
        assert(rem * a + a <= h * a) by (nonlinear_arith)
            requires
                rem + 1 <= h,
                a > 0,
        ;
        assert(2 * (n * b) < (2 * m + 1) * u * b);
        assert(2 * n < (2 * m + 1) * u) by (nonlinear_arith)
            requires
                2 * (n * b) < (2 * m + 1) * u * b,
                b > 0,
        ;
    }
    if rem == h && !sticky {
        assert(2 * (n * b) == (2 * m + 1) * u * b);
        assert(2 * n == (2 * m + 1) * u) by (nonlinear_arith)
            requires
                2 * (n * b) == (2 * m + 1) * u * b,
                b > 0,
        ;
    }
    if rem > h || (rem == h && sticky) {
        if rem > h {
            assert(rem * a > h * a) by (nonlinear_arith)
                requires
                    rem > h,
                    a > 0,
            ;
        }
        assert(2 * (n * b) > (2 * m + 1) * u * b);
        assert(2 * n > (2 * m + 1) * u) by (nonlinear_arith)
            requires
                2 * (n * b) > (2 * m + 1) * u * b,
                b > 0,
        ;
    }
}

/// Dividing a `len`-bit number by `2^s` leaves `len - s` bits.
proof fn lemma_shifted_bits(sig: nat, len: nat, s: nat)
    requires
        sig < power2::pow2(len),
        s <= len,
    ensures
        sig / power2::pow2(s) < power2::pow2((len - s) as nat),
        s < len && power2::pow2((len - 1) as nat) <= sig ==> power2::pow2((len - s - 1) as nat)
            <= sig / power2::pow2(s),
{
    let w = power2::pow2(s);
    power2::lemma_pow2_pos(s);
    power2::lemma_pow2_adds(s, (len - s) as nat);
    let c = power2::pow2((len - s) as nat);
    assert(sig / w < c) by (nonlinear_arith)
        requires
            sig < w * c,
            w > 0,
    ;
    if s < len && power2::pow2((len - 1) as nat) <= sig {
        power2::lemma_pow2_adds(s, (len - s - 1) as nat);
        let g = power2::pow2((len - s - 1) as nat);
        assert(g <= sig / w) by (nonlinear_arith)
            requires
                w * g <= sig,
                w > 0,
        ;
    }
}

/// Packs exponent steps and a rounded significand into a pattern, stopping at infinity.
fn pack(f: Format, q: u32, m: u128) -> (k: u64)
    requires
        f.valid(),
        q <= 6000,
        m <= 2 * power2::pow2(f.p as nat),
    ensures
        ({
            let exact = q * power2::pow2(f.p as nat) + m;
            k == if exact <= f.top {
                exact
            } else {
                f.top as int
            }
        }),
{
    let b: u128 = two_to(f.p);
    proof {
        lemma_pow2_values();
        lemma_pow2_at_most(f.p as nat, 52);
    }
    assert(q * b <= 6000 * 0x10_0000_0000_0000) by (nonlinear_arith)
        requires
            q <= 6000,
            b <= 0x10_0000_0000_0000,
    ;
    let exact: u128 = (q as u128) * b + m;
    if exact <= f.top as u128 {
        exact as u64
    } else {
        f.top
    }
}

/// Rounds the bracketed value to its nearest pattern.
pub fn round_to_pattern(
    f: Format,
    sig: u128,
    e: i32,
    sticky: bool,
    Ghost(n): Ghost<nat>,
    Ghost(d): Ghost<nat>,
) -> (k: u64)
    requires
        f.valid(),
        d > 0,
        sig < 0x8000_0000_0000_0000_0000_0000_0000_0000,
        -5000 <= e <= 5000,
        brackets(sig as nat, e as int, sticky, n, d),
        sticky ==> sig >= 0x40_0000_0000_0000,
    ensures
        k <= f.top,
        k == f.nearest(n, d),
{
    let ghost p = f.p as nat;
    let ghost top = f.top as nat;
    proof {
        lemma_pow2_values();
        power2::lemma_pow2_pos(neg(e as int));
        power2::lemma2_to64();
    }
    if sig == 0 {
        proof {
            let b = power2::pow2(neg(e as int));
            let a = d * power2::pow2(pos(e as int));
            assert(sig * a == 0) by (nonlinear_arith)
                requires
                    sig == 0,
            ;
            assert(n == 0) by (nonlinear_arith)
                requires
                    n * b == 0,
                    b > 0,
            ;
            assert((2 * 0 + 1) * 1 * d == d);
            grid::lemma_rounded(p, top, n, d, 0, 0);
            assert(0 * power2::pow2(p) == 0);
            grid::lemma_nearest_is(p, top, n, d, 0);
        }
        return 0;
    }
    let len: u32 = bit_length(sig);
    let q0: i32 = e + len as i32 - (f.p as i32 + 1);
    let q: i32 = if q0 > 0 {
        q0
    } else {
        0
    };
    proof {
        if sticky && len < 55 {
            lemma_pow2_at_most(len as nat, 54);
            assert(false);
        }
    }
    if e >= q {
        let up: u32 = (e - q) as u32;
        let scale: u128 = two_to(up);
        proof {
            power2::lemma_pow2_adds(len as nat, up as nat);
            power2::lemma_pow2_pos(up as nat);
            lemma_pow2_at_most((len + up) as nat, (p + 1) as nat);
            power2::lemma_pow2_unfold((p + 1) as nat);
            lemma_pow2_at_most(p, 52);
            assert(sig * scale < power2::pow2(len as nat) * scale) by (nonlinear_arith)
                requires
                    sig < power2::pow2(len as nat),
                    scale > 0,
            ;
            assert(sig * scale < 2 * power2::pow2(p));
            if q > 0 {
                power2::lemma_pow2_adds((len - 1) as nat, up as nat);
                assert(len - 1 + up == p);
                assert(sig * scale >= power2::pow2((len - 1) as nat) * scale) by (nonlinear_arith)
                    requires
                        sig >= power2::pow2((len - 1) as nat),
                        scale > 0,
                ;
            }
        }
        let m: u128 = sig * scale;
        proof {
            let u = power2::pow2(q as nat);
            power2::lemma_pow2_adds(up as nat, q as nat);
            let t = power2::pow2(e as nat);
            assert(t == scale * u);
            assert(n * 1 == n);
            assert(n == sig * (d * t));
            assert(n == m * u * d) by (nonlinear_arith)
                requires
                    n == sig * (d * t),
                    t == scale * u,
                    m == sig * scale,
            ;
            power2::lemma_pow2_pos(q as nat);
            assert(u * d > 0) by (nonlinear_arith)
                requires
                    u > 0,
                    d > 0,
            ;
            assert((2 * m + 1) * u * d == 2 * (m * u * d) + u * d) by (nonlinear_arith);
            assert((2 * m - 1) * u * d == 2 * (m * u * d) - u * d) by (nonlinear_arith);
            grid::lemma_rounded(p, top, n, d, q as nat, m as nat);
        }
        let k = pack(f, q as u32, m);
        proof {
            grid::lemma_nearest_is(p, top, n, d, k as nat);
        }
        return k;
    }
    let s: u32 = (q - e) as u32;
    if s > len {
        proof {
            assert(q == 0);
            lemma_pow2_at_most(len as nat, (s - 1) as nat);
            power2::lemma_pow2_unfold(s as nat);
            assert(0 * power2::pow2(s as nat) == 0);
            lemma_split_brackets(sig as nat, e as int, sticky, n, d, s as nat, 0, sig as nat);
            assert(e + s == 0);
            assert((2 * 0 + 1) * (1 * d) == d);
            assert((2 * 0 + 1) * 1 * d == d);
            grid::lemma_rounded(p, top, n, d, 0, 0);
            assert(0 * power2::pow2(p) == 0);
            grid::lemma_nearest_is(p, top, n, d, 0);
        }
        return 0;
    }
    let w: u128 = two_to(s);
    let h: u128 = two_to(s - 1);
    proof {
        power2::lemma_pow2_pos(s as nat);
        lemma_shifted_bits(sig as nat, len as nat, s as nat);
        lemma_pow2_at_most((len - s) as nat, (p + 1) as nat);
        power2::lemma_pow2_unfold((p + 1) as nat);
        lemma_pow2_at_most(p, 52);
        vstd::arithmetic::div_mod::lemma_fundamental_div_mod(sig as int, w as int);
    }
    let low: u128 = sig / w;
    let rem: u128 = sig % w;
    proof {
        assert(sig == low * w + rem) by (nonlinear_arith)
            requires
                sig == w * low + rem,
        ;
        lemma_split_brackets(
            sig as nat,
            e as int,
            sticky,
            n,
            d,
            s as nat,
            low as nat,
            rem as nat,
        );
    }
    let up: bool = rem > h || (rem == h && (sticky || low % 2 == 1));
    let m: u128 = if up {
        low + 1
    } else {
        low
    };
    proof {
        let u = power2::pow2(q as nat);
        let ud = u * d;
        assert(e + s == q);
        power2::lemma_pow2_pos(q as nat);
        assert(ud > 0) by (nonlinear_arith)
            requires
                ud == u * d,
                u > 0,
                d > 0,
        ;
        assert((2 * m + 1) * u * d == (2 * m + 1) * ud) by (nonlinear_arith)
            requires
                ud == u * d,
        ;
        assert((2 * m - 1) * u * d == (2 * m - 1) * ud) by (nonlinear_arith)
            requires
                ud == u * d,
        ;
        assert(m * u * d == m * ud) by (nonlinear_arith)
            requires
                ud == u * d,
        ;
        assert((2 * low + 1) * ud == 2 * (low * ud) + ud) by (nonlinear_arith);
        assert((low + 1) * ud == low * ud + ud) by (nonlinear_arith);
        assert((2 * m + 1) * ud == 2 * (m * ud) + ud) by (nonlinear_arith);
        assert((2 * m - 1) * ud == 2 * (m * ud) - ud) by (nonlinear_arith);
        grid::lemma_rounded(p, top, n, d, q as nat, m as nat);
    }
    let k = pack(f, q as u32, m);
    proof {
        grid::lemma_nearest_is(p, top, n, d, k as nat);
    }
    k
}

/// A finite magnitude as a significand and exponent steps: `m * 2^i` units.
pub struct Parts {
    pub m: u64,
    pub i: u32,
}

/// Splits a finite pattern into significand and exponent steps.
pub fn parts(f: Format, k: u64) -> (r: Parts)
    requires
        f.valid(),
        k < f.top,
    ensures
        f.value(k) == r.m * power2::pow2(r.i as nat),
        r.m < 2 * power2::pow2(f.p as nat),
        r.m < 0x20_0000_0000_0000,
        r.i <= 2045,
        k > 0 ==> r.m > 0,
        k == 0 ==> r.m == 0,
        r.i > 0 ==> r.m > 0,
        r.i == grid::spacing(f.p as nat, k as nat),
{
    let b: u64 = two_to_64(f.p);
    proof {
        lemma_pow2_values();
        power2::lemma2_to64();
        lemma_pow2_at_most(f.p as nat, 52);
        let m = grid::lemma_split(f.p as nat, k as nat);
        if k >= b {
            assert(k / b <= 2046) by (nonlinear_arith)
                requires
                    b == 0x10_0000_0000_0000 && k < 0x7FF0_0000_0000_0000 || b == 0x80_0000 && k
                        < 0x7F80_0000,
            ;
            assert(k / b >= 1) by (nonlinear_arith)
                requires
                    k >= b,
                    b > 0,
            ;
            assert(k % b < b);
        }
    }
    if k < b {
        Parts { m: k, i: 0 }
    } else {
        Parts { m: b + k % b, i: (k / b - 1) as u32 }
    }
}

/// `2^s` as a 64-bit number.
fn two_to_64(s: u32) -> (r: u64)
    requires
        s <= 52,
    ensures
        r == power2::pow2(s as nat),
{
    proof {
        lemma_pow2_values();
        lemma_pow2_at_most(s as nat, 52);
    }
    two_to(s) as u64
}

/// The pattern nearest to `v`.
pub fn from_integer(f: Format, v: u128) -> (k: u64)
    requires
        f.valid(),
        v < 0x8000_0000_0000_0000_0000_0000_0000_0000,
    ensures
        k <= f.top,
        k == f.nearest((v * power2::pow2(f.unit as nat)) as nat, 1),
{
    let ghost n = (v * power2::pow2(f.unit as nat)) as nat;
    proof {
        power2::lemma2_to64();
        assert(n * 1 == n);
        assert(1 * power2::pow2(f.unit as nat) == power2::pow2(f.unit as nat));
    }
    round_to_pattern(f, v, f.unit as i32, false, Ghost(n), Ghost(1))
}

/// The pattern of `to` nearest to the magnitude `k` of `from`.
pub fn convert(from: Format, k: u64, to: Format) -> (r: u64)
    requires
        from.valid(),
        to.valid(),
        k < from.top,
    ensures
        r <= to.top,
        r == to.nearest(
            from.value(k) * power2::pow2(to.unit as nat),
            power2::pow2(from.unit as nat),
        ),
{
    let a = parts(from, k);
    let e: i32 = a.i as i32 + to.unit as i32 - from.unit as i32;
    let ghost d = power2::pow2(from.unit as nat);
    let ghost n = from.value(k) * power2::pow2(to.unit as nat);
    proof {
        let x = pos(e as int);
        let y = neg(e as int);
        power2::lemma_pow2_pos(from.unit as nat);
        power2::lemma_pow2_adds(from.unit as nat, x);
        power2::lemma_pow2_adds(a.i as nat, to.unit as nat);
        power2::lemma_pow2_adds((a.i + to.unit) as nat, y);
        assert(from.unit as nat + x == (a.i + to.unit) as nat + y);
        let (pi, pt, py) = (
            power2::pow2(a.i as nat),
            power2::pow2(to.unit as nat),
            power2::pow2(y),
        );
        assert(a.m * (pi * pt * py) == a.m * pi * pt * py) by (nonlinear_arith);
    }
    round_to_pattern(to, a.m as u128, e, false, Ghost(n), Ghost(d))
}

/// The pattern nearest to the product of two finite magnitudes.
pub fn times(f: Format, x: u64, y: u64) -> (k: u64)
    requires
        f.valid(),
        x < f.top,
        y < f.top,
    ensures
        k <= f.top,
        k == f.nearest(f.value(x) * f.value(y), power2::pow2(f.unit as nat)),
{
    let a = parts(f, x);
    let b = parts(f, y);
    assert(a.m * b.m < 0x20_0000_0000_0000 * 0x20_0000_0000_0000) by (nonlinear_arith)
        requires
            0 <= a.m < 0x20_0000_0000_0000,
            0 <= b.m < 0x20_0000_0000_0000,
    ;
    let sig: u128 = (a.m as u128) * (b.m as u128);
    let e: i32 = a.i as i32 + b.i as i32 - f.unit as i32;
    let ghost d = power2::pow2(f.unit as nat);
    let ghost n = f.value(x) * f.value(y);
    proof {
        let s = pos(e as int);
        let t = neg(e as int);
        power2::lemma_pow2_pos(f.unit as nat);
        power2::lemma_pow2_adds(f.unit as nat, s);
        power2::lemma_pow2_adds(a.i as nat, b.i as nat);
        power2::lemma_pow2_adds((a.i + b.i) as nat, t);
        assert(f.unit as nat + s == (a.i + b.i) as nat + t);
        let (pa, pb, pt) = (power2::pow2(a.i as nat), power2::pow2(b.i as nat), power2::pow2(t));
        assert((a.m * b.m) * (pa * pb * pt) == (a.m * pa) * (b.m * pb) * pt) by (nonlinear_arith);
    }
    round_to_pattern(f, sig, e, false, Ghost(n), Ghost(d))
}

/// The pattern nearest to the quotient of two finite magnitudes.
pub fn over(f: Format, x: u64, y: u64) -> (k: u64)
    requires
        f.valid(),
        x < f.top,
        0 < y < f.top,
    ensures
        k <= f.top,
        k == f.nearest(f.value(x) * power2::pow2(f.unit as nat), f.value(y)),
{
    let a = parts(f, x);
    let b = parts(f, y);
    let ghost d = f.value(y);
    let ghost n = f.value(x) * power2::pow2(f.unit as nat);
    proof {
        power2::lemma_pow2_pos(b.i as nat);
        assert(d > 0) by (nonlinear_arith)
            requires
                d == b.m * power2::pow2(b.i as nat),
                b.m > 0,
                power2::pow2(b.i as nat) > 0,
        ;
    }
    // Lift the dividend to 118 bits, so that the quotient has bits to spare.
    let len: u32 = bit_length(a.m as u128);
    proof {
        lemma_pow2_values();
        if len > 53 {
            lemma_pow2_at_most(53, (len - 1) as nat);
            assert(false);
        }
    }
    let lift: u32 = 118 - len;
    let scale: u128 = two_to(lift);
    proof {
        power2::lemma_pow2_adds(len as nat, lift as nat);
        lemma_pow2_at_most(118, 126);
        power2::lemma_pow2_pos(lift as nat);
        assert(a.m * scale < power2::pow2(len as nat) * scale) by (nonlinear_arith)
            requires
                a.m < power2::pow2(len as nat),
                scale > 0,
        ;
    }
    let t: u128 = (a.m as u128) * scale;
    let sig: u128 = t / (b.m as u128);
    let r: u128 = t % (b.m as u128);
    let sticky: bool = r != 0;
    let e: i32 = a.i as i32 - lift as i32 - b.i as i32 + f.unit as i32;
    proof {
        let bm = b.m as nat;
        vstd::arithmetic::div_mod::lemma_fundamental_div_mod(t as int, bm as int);
        assert(t == sig * bm + r) by (nonlinear_arith)
            requires
                t == bm * sig + r,
        ;
        assert(sig <= t) by (nonlinear_arith)
            requires
                t == sig * bm + r,
                bm > 0,
                r >= 0,
                sig >= 0,
        ;
        if sticky {
            // A non-zero dividend fills the top bits.
            assert(a.m > 0) by {
                if a.m == 0 {
                    assert(t == 0) by (nonlinear_arith)
                        requires
                            t == a.m * scale,
                            a.m == 0,
                    ;
                    assert(0nat % bm == 0);
                }
            }
            if len == 0 {
                assert(a.m < power2::pow2(0));
                power2::lemma2_to64();
                assert(false);
            }
            power2::lemma_pow2_adds((len - 1) as nat, lift as nat);
            assert(t >= power2::pow2((len - 1) as nat) * scale) by (nonlinear_arith)
                requires
                    t == a.m * scale,
                    a.m >= power2::pow2((len - 1) as nat),
                    scale > 0,
            ;
            assert(t >= power2::pow2(117));
            power2::lemma_pow2_adds(64, 53);
            assert(sig >= 0x40_0000_0000_0000) by (nonlinear_arith)
                requires
                    t == sig * bm + r,
                    r < bm,
                    bm < 0x20_0000_0000_0000,
                    t >= 0x1_0000_0000_0000_0000 * 0x20_0000_0000_0000,
            ;
        }
        let s = pos(e as int);
        let z = neg(e as int);
        let w = power2::pow2((b.i + s) as nat);
        power2::lemma_pow2_pos((b.i + s) as nat);
        power2::lemma_pow2_adds(b.i as nat, s);
        assert(d * power2::pow2(s) == bm * w) by (nonlinear_arith)
            requires
                d == bm * power2::pow2(b.i as nat),
                w == power2::pow2(b.i as nat) * power2::pow2(s),
        ;
        power2::lemma_pow2_adds(a.i as nat, f.unit as nat);
        power2::lemma_pow2_adds((a.i + f.unit) as nat, z);
        power2::lemma_pow2_adds(lift as nat, (b.i + s) as nat);
        assert((a.i + f.unit) as nat + z == lift as nat + (b.i + s) as nat);
        let (pa, pu, pz) = (
            power2::pow2(a.i as nat),
            power2::pow2(f.unit as nat),
            power2::pow2(z),
        );
        assert(pa * pu * pz == scale * w);
        assert(n * pz == t * w) by (nonlinear_arith)
            requires
                n == a.m * pa * pu,
                t == a.m * scale,
                pa * pu * pz == scale * w,
        ;
        assert(t * w == sig * (bm * w) + r * w) by (nonlinear_arith)
            requires
                t == sig * bm + r,
        ;
        assert((sig + 1) * (bm * w) == sig * (bm * w) + bm * w) by (nonlinear_arith);
        assert(r > 0 ==> 0 < r * w) by (nonlinear_arith)
            requires
                w > 0,
        ;
        assert(r == 0 ==> r * w == 0) by (nonlinear_arith);
        assert(r * w < bm * w) by (nonlinear_arith)
            requires
                r < bm,
                w > 0,
        ;
    }
    round_to_pattern(f, sig, e, sticky, Ghost(n), Ghost(d))
}

/// The smaller operand of a sum, moved to 64 bits below the larger one's unit.
pub struct Aligned {
    pub whole: u128,
    pub sticky: bool,
}

/// Moves `m` down by `delta` binary places from a position 64 places up, keeping the whole
/// part and whether anything was left over.
fn align(m: u64, delta: u32) -> (r: Aligned)
    requires
        m < 0x20_0000_0000_0000,
        delta <= 2045,
    ensures
        r.whole < power2::pow2(117),
        delta <= 64 ==> !r.sticky && r.whole == m * power2::pow2((64 - delta) as nat),
        delta > 64 ==> r.whole == m as nat / power2::pow2((delta - 64) as nat),
        delta > 64 ==> r.sticky == (m as nat % power2::pow2((delta - 64) as nat) != 0),
        delta > 64 ==> r.whole <= m,
{
    proof {
        lemma_pow2_values();
        power2::lemma_pow2_adds(53, 64);
    }
    if delta <= 64 {
        let scale: u128 = two_to(64 - delta);
        proof {
            lemma_pow2_at_most((64 - delta) as nat, 64);
            assert(m * scale < 0x20_0000_0000_0000 * 0x1_0000_0000_0000_0000) by (nonlinear_arith)
                requires
                    0 <= m < 0x20_0000_0000_0000,
                    0 < scale <= 0x1_0000_0000_0000_0000,
            ;
        }
        Aligned { whole: (m as u128) * scale, sticky: false }
    } else if delta - 64 < 64 {
        let w: u128 = two_to(delta - 64);
        proof {
            power2::lemma_pow2_pos((delta - 64) as nat);
            assert(m as nat / (w as nat) <= m) by (nonlinear_arith)
                requires
                    w > 0,
            ;
        }
        Aligned { whole: (m as u128) / w, sticky: (m as u128) % w != 0 }
    } else {
        proof {
            let w = power2::pow2((delta - 64) as nat);
            lemma_pow2_at_most(64, (delta - 64) as nat);
            assert(m as nat / w == 0 && m as nat % w == m) by (nonlinear_arith)
                requires
                    0 <= m < w,
            {
                vstd::arithmetic::div_mod::lemma_fundamental_div_mod_converse(
                    m as int,
                    w as int,
                    0,
                    m as int,
                );
            }
        }
        Aligned { whole: 0, sticky: m != 0 }
    }
}

/// What [`align`] keeps of the smaller operand, in the units of the sum.
proof fn lemma_aligned(hi: nat, lo: nat, m: nat, r: Aligned)
    requires
        lo <= hi,
        hi - lo <= 64 ==> !r.sticky && r.whole == m * power2::pow2((64 - (hi - lo)) as nat),
        hi - lo > 64 ==> r.whole == m / power2::pow2((hi - lo - 64) as nat),
        hi - lo > 64 ==> r.sticky == (m % power2::pow2((hi - lo - 64) as nat) != 0),
    ensures
        ({
            let e = hi - 64;
            let a = power2::pow2(pos(e));
            let b = power2::pow2(neg(e));
            &&& a > 0
            &&& b > 0
            &&& power2::pow2(hi) * b == power2::pow2(64) * a
            &&& r.sticky ==> r.whole * a < m * power2::pow2(lo) * b < r.whole * a + a
            &&& !r.sticky ==> r.whole * a == m * power2::pow2(lo) * b
        }),
{
    let e = hi - 64;
    let (s, z) = (pos(e), neg(e));
    let a = power2::pow2(s);
    let b = power2::pow2(z);
    power2::lemma_pow2_pos(s);
    power2::lemma_pow2_pos(z);
    power2::lemma_pow2_adds(hi, z);
    power2::lemma_pow2_adds(64, s);
    assert(hi + z == 64 + s);
    let g = power2::pow2(lo) * b;
    power2::lemma_pow2_adds(lo, z);
    let whole = r.whole as nat;
    if hi - lo <= 64 {
        let c = (64 - (hi - lo)) as nat;
        power2::lemma_pow2_adds(c, s);
        assert(lo + z == c + s);
        let pc = power2::pow2(c);
        assert(whole * a == m * power2::pow2(lo) * b) by (nonlinear_arith)
            requires
                whole == m * pc,
                power2::pow2(lo) * b == pc * a,
        ;
    } else {
        let t = (hi - lo - 64) as nat;
        let w = power2::pow2(t);
        power2::lemma_pow2_pos(t);
        power2::lemma_pow2_pos(lo + z);
        power2::lemma_pow2_adds(lo + z, t);
        assert(lo + z + t == s);
        assert(a == g * w);
        let rem = m % w;
        vstd::arithmetic::div_mod::lemma_fundamental_div_mod(m as int, w as int);
        assert(m * power2::pow2(lo) * b == whole * a + rem * g) by (nonlinear_arith)
            requires
                m == w * whole + rem,
                a == g * w,
                g == power2::pow2(lo) * b,
        ;
        assert(rem * g < a) by (nonlinear_arith)
            requires
                rem < w,
                g > 0,
                a == g * w,
        ;
        assert(rem > 0 ==> rem * g > 0) by (nonlinear_arith)
            requires
                g > 0,
        ;
        assert(rem == 0 ==> rem * g == 0) by (nonlinear_arith);
    }
}

/// The pattern nearest to the sum of two finite magnitudes.
pub fn plus(f: Format, x: u64, y: u64) -> (k: u64)
    requires
        f.valid(),
        x < f.top,
        y < f.top,
    ensures
        k <= f.top,
        k == f.nearest(f.value(x) + f.value(y), 1),
{
    let first = parts(f, x);
    let second = parts(f, y);
    let (a, b) = if first.i >= second.i {
        (first, second)
    } else {
        (second, first)
    };
    let low = align(b.m, a.i - b.i);
    let ghost n = f.value(x) + f.value(y);
    let e: i32 = a.i as i32 - 64;
    proof {
        lemma_pow2_values();
        power2::lemma_pow2_adds(53, 64);
        lemma_pow2_at_most(117, 126);
        power2::lemma_pow2_unfold(118);
        lemma_pow2_at_most(118, 126);
        lemma_aligned(a.i as nat, b.i as nat, b.m as nat, low);
        let pa = power2::pow2(pos(e as int));
        let pb = power2::pow2(neg(e as int));
        let big = a.m * 0x1_0000_0000_0000_0000;
        assert(a.m * power2::pow2(a.i as nat) * pb == big * pa) by (nonlinear_arith)
            requires
                power2::pow2(a.i as nat) * pb == 0x1_0000_0000_0000_0000 * pa,
                big == a.m * 0x1_0000_0000_0000_0000,
        ;
        assert(n * pb == a.m * power2::pow2(a.i as nat) * pb + b.m * power2::pow2(b.i as nat) * pb)
            by (nonlinear_arith)
            requires
                n == a.m * power2::pow2(a.i as nat) + b.m * power2::pow2(b.i as nat),
        ;
        assert((big + low.whole) * pa == big * pa + low.whole * pa) by (nonlinear_arith);
        assert((big + low.whole + 1) * pa == big * pa + low.whole * pa + pa) by (nonlinear_arith);
        assert(1 * pa == pa);
    }
    let sig: u128 = (a.m as u128) * 0x1_0000_0000_0000_0000 + low.whole;
    round_to_pattern(f, sig, e, low.sticky, Ghost(n), Ghost(1))
}

/// The pattern nearest to the difference of two finite magnitudes.
pub fn minus(f: Format, x: u64, y: u64) -> (k: u64)
    requires
        f.valid(),
        y <= x < f.top,
    ensures
        k <= f.top,
        k == f.nearest((f.value(x) - f.value(y)) as nat, 1),
{
    let a = parts(f, x);
    let b = parts(f, y);
    proof {
        let w = power2::pow2(f.p as nat) as int;
        power2::lemma_pow2_pos(f.p as nat);
        vstd::arithmetic::div_mod::lemma_div_is_ordered(y as int, x as int, w);
        grid::lemma_grid_increases(f.p as nat, y as nat, x as nat);
        if y >= w {
            assert(y as int / w >= 1) by (nonlinear_arith)
                requires
                    y >= w,
                    w > 0,
            ;
        }
    }
    let low = align(b.m, a.i - b.i);
    let ghost n = (f.value(x) - f.value(y)) as nat;
    let e: i32 = a.i as i32 - 64;
    proof {
        lemma_pow2_values();
        power2::lemma_pow2_adds(53, 64);
        lemma_pow2_at_most(117, 126);
        lemma_aligned(a.i as nat, b.i as nat, b.m as nat, low);
        let pa = power2::pow2(pos(e as int));
        let pb = power2::pow2(neg(e as int));
        let big = a.m * 0x1_0000_0000_0000_0000;
        assert(a.m * power2::pow2(a.i as nat) * pb == big * pa) by (nonlinear_arith)
            requires
                power2::pow2(a.i as nat) * pb == 0x1_0000_0000_0000_0000 * pa,
                big == a.m * 0x1_0000_0000_0000_0000,
        ;
        assert(n * pb == a.m * power2::pow2(a.i as nat) * pb - b.m * power2::pow2(b.i as nat) * pb)
            by (nonlinear_arith)
            requires
                n == a.m * power2::pow2(a.i as nat) - b.m * power2::pow2(b.i as nat),
        ;
        assert(n * pb >= 0) by (nonlinear_arith)
            requires
                n >= 0,
                pb > 0,
        ;
        assert((big - low.whole) * pa == big * pa - low.whole * pa) by (nonlinear_arith);
        assert((big - low.whole - 1) * pa == big * pa - low.whole * pa - pa) by (nonlinear_arith);
        assert(1 * pa == pa);
        if !low.sticky {
            assert(big >= low.whole) by (nonlinear_arith)
                requires
                    (big - low.whole) * pa >= 0,
                    pa > 0,
            ;
        }
    }
    let whole: u128 = (a.m as u128) * 0x1_0000_0000_0000_0000 - low.whole;
    let sig: u128 = if low.sticky {
        whole - 1
    } else {
        whole
    };
    round_to_pattern(f, sig, e, low.sticky, Ghost(n), Ghost(1))
}

/// `n / d` rounded to a whole number, halves up.
pub open spec fn half_up(n: nat, d: nat) -> nat {
    (2 * n + d) / (2 * d)
}

/// `n / d` rounded to a whole number, halves to the even one.
pub open spec fn half_even(n: nat, d: nat) -> nat {
    let q = n / d;
    let r = n % d;
    if 2 * r < d || (2 * r == d && q % 2 == 0) {
        q
    } else {
        q + 1
    }
}

/// A common factor cancels out of a quotient, and scales its remainder.
proof fn lemma_cancel(g: nat, n: nat, d: nat)
    requires
        g > 0,
        d > 0,
    ensures
        (g * n) / (g * d) == n / d,
        (g * n) % (g * d) == g * (n % d),
{
    let q = n / d;
    let r = n % d;
    vstd::arithmetic::div_mod::lemma_fundamental_div_mod(n as int, d as int);
    assert(g * n == q * (g * d) + g * r) by (nonlinear_arith)
        requires
            n == d * q + r,
    ;
    assert(0 <= g * r < g * d) by (nonlinear_arith)
        requires
            g > 0,
            0 <= r < d,
    ;
    vstd::arithmetic::div_mod::lemma_fundamental_div_mod_converse(
        (g * n) as int,
        (g * d) as int,
        q as int,
        (g * r) as int,
    );
}

/// A finite magnitude rounded to a whole number, halves up, held at `cap`.
pub fn whole_at_most(f: Format, k: u64, cap: u64) -> (r: u64)
    requires
        f.valid(),
        k < f.top,
    ensures
        ({
            let exact = half_up(f.value(k), power2::pow2(f.unit as nat));
            r == if exact <= cap {
                exact
            } else {
                cap as nat
            }
        }),
{
    let a = parts(f, k);
    let ghost v = f.value(k);
    let ghost one = power2::pow2(f.unit as nat);
    proof {
        lemma_pow2_values();
        power2::lemma2_to64();
        power2::lemma_pow2_pos(f.unit as nat);
        power2::lemma_pow2_pos(a.i as nat);
    }
    if a.i >= f.unit {
        let up: u32 = a.i - f.unit;
        proof {
            let w = power2::pow2(up as nat);
            let x = a.m * w;
            power2::lemma_pow2_adds(up as nat, f.unit as nat);
            power2::lemma_pow2_pos(up as nat);
            assert(v == x * one) by (nonlinear_arith)
                requires
                    v == a.m * (w * one),
                    x == a.m * w,
            ;
            assert(half_up(v, one) == x) by (nonlinear_arith)
                requires
                    v == x * one,
                    one > 0,
                    half_up(v, one) == (2 * v + one) / (2 * one),
            {
                vstd::arithmetic::div_mod::lemma_fundamental_div_mod_converse(
                    (2 * v + one) as int,
                    (2 * one) as int,
                    x as int,
                    one as int,
                );
            }
            if a.m > 0 && up >= 64 {
                lemma_pow2_at_most(64, up as nat);
                assert(x >= 0x1_0000_0000_0000_0000) by (nonlinear_arith)
                    requires
                        x == a.m * w,
                        a.m >= 1,
                        w >= 0x1_0000_0000_0000_0000,
                ;
            }
            if a.m == 0 {
                assert(x == 0) by (nonlinear_arith)
                    requires
                        x == a.m * w,
                        a.m == 0,
                ;
            }
        }
        if a.m == 0 {
            0
        } else if up >= 64 {
            cap
        } else {
            let scale: u128 = two_to(up);
            proof {
                lemma_pow2_at_most(up as nat, 64);
                assert(a.m * scale <= 0x20_0000_0000_0000 * 0x1_0000_0000_0000_0000)
                    by (nonlinear_arith)
                    requires
                        0 <= a.m < 0x20_0000_0000_0000,
                        0 < scale <= 0x1_0000_0000_0000_0000,
                ;
            }
            let x: u128 = (a.m as u128) * scale;
            if x <= cap as u128 {
                x as u64
            } else {
                cap
            }
        }
    } else {
        let s: u32 = f.unit - a.i;
        proof {
            let w = power2::pow2(s as nat);
            let h = power2::pow2((s - 1) as nat);
            let g = power2::pow2(a.i as nat);
            power2::lemma_pow2_unfold(s as nat);
            power2::lemma_pow2_pos(s as nat);
            power2::lemma_pow2_pos((s - 1) as nat);
            power2::lemma_pow2_adds(a.i as nat, s as nat);
            let m = a.m as nat;
            assert(2 * v + one == (2 * g) * (m + h)) by (nonlinear_arith)
                requires
                    v == m * g,
                    one == g * w,
                    w == 2 * h,
            ;
            assert(2 * one == (2 * g) * w) by (nonlinear_arith)
                requires
                    one == g * w,
            ;
            lemma_cancel(2 * g, m + h, w);
            assert(half_up(v, one) == (m + h) / w);
            if s >= 64 {
                lemma_pow2_at_most(53, (s - 1) as nat);
                assert((m + h) / w == 0) by (nonlinear_arith)
                    requires
                        m + h < w,
                {
                    vstd::arithmetic::div_mod::lemma_fundamental_div_mod_converse(
                        (m + h) as int,
                        w as int,
                        0,
                        (m + h) as int,
                    );
                }
            }
        }
        if s >= 64 {
            0
        } else {
            let w: u128 = two_to(s);
            let h: u128 = two_to(s - 1);
            proof {
                lemma_pow2_at_most(s as nat, 64);
                lemma_pow2_at_most((s - 1) as nat, 64);
            }
            let x: u128 = (a.m as u128 + h) / w;
            if x <= cap as u128 {
                x as u64
            } else {
                cap
            }
        }
    }
}

/// A finite magnitude below `2^64`, times `factor`, rounded to a whole number, halves to
/// even.
pub fn scaled_whole(f: Format, k: u64, factor: u64) -> (r: u128)
    requires
        f.valid(),
        k < f.top,
        f.value(k) < power2::pow2(64) * power2::pow2(f.unit as nat),
        factor <= 0x4000_0000,
    ensures
        r == half_even(f.value(k) * factor as nat, power2::pow2(f.unit as nat)),
{
    let a = parts(f, k);
    let ghost v = f.value(k);
    let ghost one = power2::pow2(f.unit as nat);
    let ghost n = v * factor as nat;
    proof {
        lemma_pow2_values();
        power2::lemma2_to64();
        power2::lemma_pow2_pos(f.unit as nat);
        power2::lemma_pow2_pos(a.i as nat);
        power2::lemma_pow2_adds(53, 30);
        assert(a.m * factor < 0x20_0000_0000_0000 * 0x4000_0000) by (nonlinear_arith)
            requires
                0 <= a.m < 0x20_0000_0000_0000,
                0 <= factor <= 0x4000_0000,
        ;
    }
    let product: u128 = (a.m as u128) * (factor as u128);
    if a.i >= f.unit {
        let up: u32 = a.i - f.unit;
        proof {
            let w = power2::pow2(up as nat);
            let x = a.m * w;
            power2::lemma_pow2_adds(up as nat, f.unit as nat);
            power2::lemma_pow2_pos(up as nat);
            assert(v == x * one) by (nonlinear_arith)
                requires
                    v == a.m * (w * one),
                    x == a.m * w,
            ;
            assert(x < 0x1_0000_0000_0000_0000) by (nonlinear_arith)
                requires
                    v == x * one,
                    v < 0x1_0000_0000_0000_0000 * one,
                    one > 0,
            ;
            assert(a.m > 0);
            assert(w <= x) by (nonlinear_arith)
                requires
                    x == a.m * w,
                    a.m >= 1,
                    w > 0,
            ;
            if up >= 64 {
                lemma_pow2_at_most(64, up as nat);
                assert(false);
            }
            assert(n == (x * factor) * one) by (nonlinear_arith)
                requires
                    n == v * factor,
                    v == x * one,
            ;
            vstd::arithmetic::div_mod::lemma_fundamental_div_mod_converse(
                n as int,
                one as int,
                (x * factor) as int,
                0,
            );
            assert(x * factor == product * w) by (nonlinear_arith)
                requires
                    x == a.m * w,
                    product == a.m * factor,
            ;
            assert(x * factor < 0x1_0000_0000_0000_0000 * 0x4000_0001) by (nonlinear_arith)
                requires
                    0 <= x < 0x1_0000_0000_0000_0000,
                    0 <= factor <= 0x4000_0000,
            ;
        }
        product * two_to(up)
    } else {
        let s: u32 = f.unit - a.i;
        proof {
            let w = power2::pow2(s as nat);
            let g = power2::pow2(a.i as nat);
            power2::lemma_pow2_pos(s as nat);
            power2::lemma_pow2_adds(a.i as nat, s as nat);
            assert(n == g * product) by (nonlinear_arith)
                requires
                    n == (a.m * g) * factor,
                    product == a.m * factor,
            ;
            lemma_cancel(g, product as nat, w);
            let rem = product as nat % w;
            assert(2 * (g * rem) < g * w <==> 2 * rem < w) by (nonlinear_arith)
                requires
                    g > 0,
            ;
            assert(2 * (g * rem) == g * w <==> 2 * rem == w) by (nonlinear_arith)
                requires
                    g > 0,
            ;
            assert(half_even(n, one) == half_even(product as nat, w));
            if s > 84 {
                lemma_pow2_at_most(84, s as nat);
                power2::lemma_pow2_unfold(84);
                vstd::arithmetic::div_mod::lemma_fundamental_div_mod_converse(
                    product as int,
                    w as int,
                    0,
                    product as int,
                );
            }
        }
        if s > 84 {
            0
        } else {
            let w: u128 = two_to(s);
            let h: u128 = two_to(s - 1);
            proof {
                power2::lemma_pow2_unfold(s as nat);
                lemma_pow2_at_most(s as nat, 126);
                assert(product as nat / (w as nat) <= product) by (nonlinear_arith)
                    requires
                        w > 0,
                ;
            }
            let q: u128 = product / w;
            let rem: u128 = product % w;
            if rem < h || (rem == h && q % 2 == 0) {
                q
            } else {
                q + 1
            }
        }
    }
}

/// A finite magnitude with its fraction cut off, held at `cap`.
pub fn floor_at_most(f: Format, k: u64, cap: u64) -> (r: u64)
    requires
        f.valid(),
        k < f.top,
    ensures
        ({
            let exact = f.value(k) / power2::pow2(f.unit as nat);
            r == if exact <= cap {
                exact
            } else {
                cap as nat
            }
        }),
{
    let a = parts(f, k);
    let ghost v = f.value(k);
    let ghost one = power2::pow2(f.unit as nat);
    proof {
        lemma_pow2_values();
        power2::lemma2_to64();
        power2::lemma_pow2_pos(f.unit as nat);
        power2::lemma_pow2_pos(a.i as nat);
    }
    if a.i >= f.unit {
        let up: u32 = a.i - f.unit;
        proof {
            let w = power2::pow2(up as nat);
            let x = a.m * w;
            power2::lemma_pow2_adds(up as nat, f.unit as nat);
            power2::lemma_pow2_pos(up as nat);
            assert(v == x * one) by (nonlinear_arith)
                requires
                    v == a.m * (w * one),
                    x == a.m * w,
            ;
            vstd::arithmetic::div_mod::lemma_fundamental_div_mod_converse(
                v as int,
                one as int,
                x as int,
                0,
            );
            if a.m > 0 && up >= 64 {
                lemma_pow2_at_most(64, up as nat);
                assert(x >= 0x1_0000_0000_0000_0000) by (nonlinear_arith)
                    requires
                        x == a.m * w,
                        a.m >= 1,
                        w >= 0x1_0000_0000_0000_0000,
                ;
            }
        }
        if up >= 64 {
            cap
        } else {
            let scale: u128 = two_to(up);
            proof {
                lemma_pow2_at_most(up as nat, 64);
                assert(a.m * scale <= 0x20_0000_0000_0000 * 0x1_0000_0000_0000_0000)
                    by (nonlinear_arith)
                    requires
                        0 <= a.m < 0x20_0000_0000_0000,
                        0 < scale <= 0x1_0000_0000_0000_0000,
                ;
            }
            let x: u128 = (a.m as u128) * scale;
            if x <= cap as u128 {
                x as u64
            } else {
                cap
            }
        }
    } else {
        let s: u32 = f.unit - a.i;
        proof {
            let w = power2::pow2(s as nat);
            let g = power2::pow2(a.i as nat);
            power2::lemma_pow2_pos(s as nat);
            power2::lemma_pow2_adds(a.i as nat, s as nat);
            let m = a.m as nat;
            lemma_cancel(g, m, w);
            assert(v == g * m) by (nonlinear_arith)
                requires
                    v == m * g,
            ;
            if s >= 64 {
                lemma_pow2_at_most(53, s as nat);
                vstd::arithmetic::div_mod::lemma_fundamental_div_mod_converse(
                    m as int,
                    w as int,
                    0,
                    m as int,
                );
            }
        }
        if s >= 64 {
            0
        } else {
            let x: u128 = (a.m as u128) / two_to(s);
            if x <= cap as u128 {
                x as u64
            } else {
                cap
            }
        }
    }
}

} // verus!

//! Times as numbers.
//!
//! Spans are whole nanoseconds and factors are doubles; what is computed from both is stated here
//! on the exact numbers: a double by its value in units of `2^-1074`, of which
//! [`unit`](crate::float::accuracy::unit) make one.

use vstd::arithmetic::power2;
use vstd::prelude::*;

use crate::clip::Clip;
use crate::edit;
use crate::edit::Command;
use crate::float::accuracy;
use crate::float::double;
use crate::float::double::F64;
use crate::float::grid;
use crate::float::magnitude;
use crate::float::rounding;
use crate::float::values;
use crate::ids::{ClipId, TrackKind};
use crate::laws;
use crate::time;
use crate::time::Duration;
use crate::timeline::Document;
use crate::transition;

verus! {

/// Whether `s` is the span `d` in seconds, to one part in `2^50`.
pub open spec fn tells(s: F64, d: Duration) -> bool {
    &&& s.finite()
    &&& !s.negative()
    &&& accuracy::P50 * accuracy::gap(s.units() * 1_000_000_000, d.nanos * accuracy::unit())
        <= d.nanos * accuracy::unit()
}

/// A span in seconds is its nanoseconds divided by a billion, to one part in `2^50`.
pub proof fn seconds_are_accurate(d: Duration)
    requires
        d.nanos <= time::MAX_NANOS,
    ensures
        tells(time::seconds(d), d),
{
    accuracy::lemma_powers();
    let u = accuracy::unit();
    let a = (d.nanos / 1_000_000_000) as nat;
    let f = (d.nanos % 1_000_000_000) as nat;
    let (w, v, b) = (double::whole(a), double::whole(f), double::whole(1_000_000_000));
    accuracy::whole_is_accurate(a);
    accuracy::whole_is_exact(f);
    accuracy::whole_is_exact(1_000_000_000);
    assert(v.units() * u >= accuracy::P52 * b.units() || v.units() == 0) by (nonlinear_arith)
        requires
            v.units() == f * u,
            b.units() == 1_000_000_000 * u,
            u >= 0x1_0000_0000_0000_0000_0000_0000_0000_0000,
            f >= 0,
            accuracy::P52 == 0x10_0000_0000_0000,
    ;
    power2::lemma_pow2_pos(900);
    assert(v.units() <= b.units()) by (nonlinear_arith)
        requires
            v.units() == f * u,
            b.units() == 1_000_000_000 * u,
            u > 0,
            f < 1_000_000_000,
    ;
    assert(v.units() <= power2::pow2(900) * b.units()) by (nonlinear_arith)
        requires
            v.units() <= b.units(),
            b.units() == 1_000_000_000 * u,
            u > 0,
            power2::pow2(900) >= 1,
    ;
    accuracy::quotient_is_accurate(v, b);
    let q = double::quotient(v, b);
    let (x, y) = (w.units(), q.units());
    assert(accuracy::P52 * accuracy::gap(y * 1_000_000_000, f * u) <= f * u) by (nonlinear_arith)
        requires
            accuracy::P52 * accuracy::gap(y * (1_000_000_000 * u), (f * u) * u) <= (f * u) * u,
            u > 0,
    ;
    assert(a * u + 0 <= x + x) by {
        assert(a * u >= 0) by (nonlinear_arith)
            requires
                u > 0,
        ;
    }
    assert(a == 0 || a * u >= u) by (nonlinear_arith)
        requires
            u > 0,
            a >= 0,
    ;
    assert(f == 0 || f * u >= u) by (nonlinear_arith)
        requires
            u > 0,
            f >= 0,
    ;
    assert(a * u >= 0 && f * u >= 0) by (nonlinear_arith)
        requires
            u > 0,
    ;
    assert(a == 0 ==> a * u == 0) by (nonlinear_arith);
    assert(f == 0 ==> f * u == 0) by (nonlinear_arith);
    assert(x + y <= power2::pow2(2000)) by {
        power2::lemma_pow2_adds(926, 1074);
        magnitude::lemma_pow2_at_most(126, 926);
        magnitude::lemma_pow2_values();
        assert(a * u <= 0x1_0000_0000_0000_0000 * u) by (nonlinear_arith)
            requires
                a <= 0x1_0000_0000_0000_0000,
                u > 0,
        ;
        assert(0x4000_0000_0000_0000_0000_0000_0000_0000 * u <= power2::pow2(2000))
            by (nonlinear_arith)
            requires
                power2::pow2(2000) == power2::pow2(926) * u,
                power2::pow2(926) >= 0x4000_0000_0000_0000_0000_0000_0000_0000,
                u > 0,
        ;
    }
    accuracy::sum_is_accurate(w, q);
    assert(d.nanos * u == (a * u) * 1_000_000_000 + f * u) by (nonlinear_arith)
        requires
            d.nanos == a * 1_000_000_000 + f,
    ;
}

/// A number of seconds becomes the nearest whole nanosecond.
pub proof fn span_is_nearest(s: F64)
    requires
        s.finite(),
        !s.negative(),
        s.units() < 0x1_0000_0000_0000_0000 * accuracy::unit(),
    ensures
        time::span(s) is Some,
        2 * accuracy::gap(
            time::span(s)->0.nanos * accuracy::unit(),
            s.units() * 1_000_000_000,
        ) <= accuracy::unit(),
{
    accuracy::lemma_powers();
    let u = accuracy::unit();
    let limit = F64 { bits: time::SECONDS_LIMIT };
    assert(limit.units() == 0x1_0000_0000_0000_0000 * u) by {
        grid::lemma_grid_of(52, 1086, 0x10_0000_0000_0000);
        power2::lemma_pow2_adds(12, 1074);
        power2::lemma2_to64();
    }
    double::order_is_numeric(s, limit);
    assert(s.magnitude() < time::SECONDS_LIMIT);
    assert(s.unsigned() == s);
    let n = s.units() as nat * 1_000_000_000nat;
    let d = power2::pow2(1074);
    let q = n / d;
    let r = n % d;
    vstd::arithmetic::div_mod::lemma_fundamental_div_mod(n as int, d as int);
    let e = magnitude::half_even(n, d);
    assert(q * d == d * q) by (nonlinear_arith);
    assert(q <= 0x1_0000_0000_0000_0000 * 1_000_000_000) by (nonlinear_arith)
        requires
            q * d <= n,
            n < 0x1_0000_0000_0000_0000 * d * 1_000_000_000,
            d > 0,
    ;
    assert(e == q + 1 ==> e * d == q * d + d) by (nonlinear_arith);
    assert(time::span(s) == Some(Duration { nanos: e as u128 }));
    assert(e as u128 * u == e * d);
}

/// One hundredth is the least double that is not below a hundredth.
pub proof fn lemma_hundredth(x: F64)
    requires
        x.finite(),
    ensures
        double::less(x, F64 { bits: values::HUNDREDTH }) <==> 100 * x.units() < accuracy::unit(),
{
    accuracy::lemma_powers();
    let h = F64 { bits: values::HUNDREDTH };
    let below = F64 { bits: 0x3F84_7AE1_47AE_147A };
    let p = power2::pow2(1015) as int;
    grid::lemma_grid_of(52, 1015, 0x14_7AE1_47AE_147B);
    grid::lemma_grid_of(52, 1015, 0x14_7AE1_47AE_147A);
    assert(h.units() == 0x14_7AE1_47AE_147B * p);
    assert(below.units() == 0x14_7AE1_47AE_147A * p);
    double::order_is_numeric(x, h);
    double::order_is_numeric(x, below);
    assert(double::less(x, h) <==> double::at_most(x, below));
}

/// The length of a clip that uses `t` seconds of its source at `speed`, against the exact
/// quotient.
proof fn lemma_length(d: Duration, speed: F64)
    requires
        d.nanos <= time::MAX_NANOS,
        speed.finite(),
        100 * speed.units() >= accuracy::unit(),
        d.nanos * accuracy::unit() <= 0x8000_0000_0000_0000 * (1_000_000_000 * speed.units()),
    ensures
        ({
            let r = time::span(double::quotient(time::seconds(d), speed));
            let (exact, s) = (d.nanos * accuracy::unit(), speed.units());
            &&& r is Some
            &&& accuracy::P49 * accuracy::gap(r->0.nanos * s, exact) <= accuracy::P48 * s + exact
        }),
{
    accuracy::lemma_powers();
    seconds_are_accurate(d);
    let t = time::seconds(d);
    let (u, s, p) = (accuracy::unit(), t.units(), speed.units());
    let b = d.nanos * u;
    assert(b >= 0) by (nonlinear_arith)
        requires
            b == d.nanos * u,
            u > 0,
    ;
    assert(!speed.negative()) by {
        grid::lemma_grid_increases(52, 0, speed.magnitude() as nat);
    }
    grid::lemma_grid_increases(52, 0, t.magnitude() as nat);
    assert(grid::grid(52, 0) == 0);
    assert(speed.magnitude() > 0);
    assert(t.unsigned() == t && speed.unsigned() == speed);
    let q = double::quotient(t, speed);
    let n = (s as nat) * power2::pow2(1074);
    assert(s <= 0x8000_0000_0000_2000 * p);
    assert(n <= 0x10_0000_0000_0004nat * power2::pow2(1085) * (p as nat)) by {
        power2::lemma_pow2_adds(11, 1074);
        power2::lemma2_to64();
        assert(n <= 0x10_0000_0000_0004nat * (2048 * u) * p) by (nonlinear_arith)
            requires
                n == s * u,
                s <= 0x8000_0000_0000_2000 * p,
                u > 0,
        ;
    }
    accuracy::lemma_stays_finite(n, p as nat, 0x10_0000_0000_0004, 1085);
    assert(q.units() <= 0x8000_0000_0000_2000 * u) by {
        power2::lemma_pow2_adds(11, 1074);
        power2::lemma2_to64();
    }
    span_is_nearest(q);
    let l = time::span(q)->0.nanos as int;
    if s == 0 || s * u >= accuracy::P52 * p {
        assert(s <= power2::pow2(900) * p) by {
            power2::lemma2_to64();
            magnitude::lemma_pow2_values();
            magnitude::lemma_pow2_at_most(64, 900);
            assert(0x8000_0000_0000_2000 * p <= power2::pow2(900) * p) by (nonlinear_arith)
                requires
                    power2::pow2(900) >= 0x1_0000_0000_0000_0000,
                    p > 0,
            ;
        }
        accuracy::quotient_is_accurate(t, speed);
        lemma_length_adds_up(u, p, s, q.units(), l, b);
    } else {
        let z = F64 { bits: 0x0010_0000_0000_0000 };
        grid::lemma_grid_of(52, 0, 0x10_0000_0000_0000);
        power2::lemma2_to64();
        assert(grid::grid(52, 0x10_0000_0000_0000) == accuracy::P52);
        rounding::nearest_is_at_most(
            52,
            0x7FF0_0000_0000_0000,
            n,
            p as nat,
            0x10_0000_0000_0000,
        );
        grid::lemma_grid_increases(52, q.magnitude() as nat, 0x10_0000_0000_0000);
        assert(q.units() <= accuracy::P52);
        assert(l == 0) by (nonlinear_arith)
            requires
                2 * (l * u - q.units() * 1_000_000_000) <= u,
                q.units() <= 0x10_0000_0000_0000,
                l >= 0,
                u >= 0x1_0000_0000_0000_0000_0000_0000_0000_0000,
        ;
        assert(l * p == 0) by (nonlinear_arith)
            requires
                l == 0,
        ;
        assert(accuracy::P49 * b <= p) by {
            assert(accuracy::P49 * b <= 0x10_0000_0000_0000_0000_0000 * s);
            assert(0x10_0000_0000_0000_0000_0000 * s <= p) by (nonlinear_arith)
                requires
                    s * u < 0x10_0000_0000_0000 * p,
                    u >= 0x1_0000_0000_0000_0000_0000_0000_0000_0000 * 0x1_0000_0000,
                    s >= 0,
                    p > 0,
            ;
        }
    }
}

/// The three roundings between a source span and a length, taken together.
proof fn lemma_length_adds_up(u: int, p: int, s: int, q: int, l: int, b: int)
    requires
        u > 0,
        p > 0,
        s >= 0,
        b >= 0,
        2 * accuracy::gap(l * u, q * 1_000_000_000) <= u,
        accuracy::P52 * accuracy::gap(q * p, s * u) <= s * u,
        accuracy::P50 * accuracy::gap(s * 1_000_000_000, b) <= b,
    ensures
        accuracy::P49 * accuracy::gap(l * p, b) <= accuracy::P48 * p + b,
{
    let (x, y) = (l * p, q * p);
    let (xu, su, bu, up) = (x * u, s * u, b * u, u * p);
    assert(2 * accuracy::gap(xu, y * 1_000_000_000) <= up) by (nonlinear_arith)
        requires
            2 * accuracy::gap(l * u, q * 1_000_000_000) <= u,
            xu == (l * p) * u,
            y == q * p,
            up == u * p,
            p > 0,
    ;
    assert(accuracy::P50 * accuracy::gap(su * 1_000_000_000, bu) <= bu) by (nonlinear_arith)
        requires
            accuracy::P50 * accuracy::gap(s * 1_000_000_000, b) <= b,
            su == s * u,
            bu == b * u,
            u > 0,
    ;
    assert(accuracy::P49 * accuracy::gap(xu, bu) <= accuracy::P48 * up + bu);
    assert(accuracy::P49 * accuracy::gap(x, b) <= accuracy::P48 * p + b) by (nonlinear_arith)
        requires
            accuracy::P49 * accuracy::gap(xu, bu) <= accuracy::P48 * up + bu,
            xu == x * u,
            bu == b * u,
            up == u * p,
            u > 0,
    ;
}

/// Whether `length` is what `span` nanoseconds of a source take on the timeline at `speed`: the
/// length times the speed is the span, up to half a nanosecond and one part in `2^49`.
pub open spec fn takes(span: int, speed: F64, length: Duration) -> bool {
    let exact = span * accuracy::unit();
    accuracy::P49 * accuracy::gap(length.nanos * speed.units(), exact) <= accuracy::P48
        * speed.units() + exact
}

/// Whether `span` nanoseconds of a source have a length at `speed`: the speed is a number from
/// one hundredth on, and the length is below `2^63` seconds.
pub open spec fn can_take(span: int, speed: F64) -> bool {
    &&& 0 <= span <= time::MAX_NANOS
    &&& speed.finite()
    &&& 100 * speed.units() >= accuracy::unit()
    &&& span * accuracy::unit() <= 0x8000_0000_0000_0000 * (1_000_000_000 * speed.units())
}

/// A clip takes on the timeline what it uses of its source divided by its speed; a clip that ends
/// in its source where it starts, or before, takes no time.
pub proof fn length_is_span_over_speed(c: Clip, from: Duration, to: Duration)
    requires
        c.in_point == Some(from),
        c.out_point == Some(to),
        c.speed.finite(),
        100 * c.speed.units() >= accuracy::unit(),
        from.nanos <= to.nanos ==> can_take(to.nanos - from.nanos, c.speed),
    ensures
        edit::footprint(c) is Some,
        from.nanos <= to.nanos ==> takes(
            to.nanos - from.nanos,
            c.speed,
            edit::footprint(c)->Some_0,
        ),
        from.nanos >= to.nanos ==> edit::footprint(c)->Some_0.nanos == 0,
{
    accuracy::lemma_powers();
    let d = time::earlier(to, from);
    lemma_hundredth(c.speed);
    assert(double::greater_of(c.speed, F64 { bits: values::HUNDREDTH }) == c.speed);
    if from.nanos >= to.nanos {
        assert(d.nanos * accuracy::unit() == 0) by (nonlinear_arith)
            requires
                d.nanos == 0,
        ;
    }
    lemma_length(d, c.speed);
    if d.nanos == 0 {
        let (l, p) = (edit::footprint(c)->Some_0.nanos as int, c.speed.units());
        assert(l == 0) by (nonlinear_arith)
            requires
                accuracy::P49 * accuracy::gap(l * p, 0) <= accuracy::P48 * p,
                accuracy::P49 == 2 * accuracy::P48,
                accuracy::P48 > 0,
                p > 0,
                l >= 0,
        ;
    }
}

/// Where the exact length is a whole number of nanoseconds below `2^48`, it is the length.
pub proof fn whole_lengths_are_exact(c: Clip, from: Duration, to: Duration, length: int)
    requires
        c.in_point == Some(from),
        c.out_point == Some(to),
        c.speed.finite(),
        100 * c.speed.units() >= accuracy::unit(),
        from.nanos <= to.nanos <= time::MAX_NANOS,
        0 <= length < accuracy::P48,
        length * c.speed.units() == (to.nanos - from.nanos) * accuracy::unit(),
    ensures
        edit::footprint(c) is Some,
        edit::footprint(c)->Some_0.nanos == length,
{
    accuracy::lemma_powers();
    let p = c.speed.units();
    assert(length * p <= 0x8000_0000_0000_0000 * (1_000_000_000 * p)) by (nonlinear_arith)
        requires
            length < accuracy::P48,
            p > 0,
    ;
    length_is_span_over_speed(c, from, to);
    let l = edit::footprint(c)->Some_0.nanos as int;
    assert(l == length) by (nonlinear_arith)
        requires
            accuracy::P49 * accuracy::gap(l * p, length * p) <= accuracy::P48 * p + length * p,
            0 <= length < accuracy::P48,
            accuracy::P49 == 2 * accuracy::P48,
            accuracy::P48 > 0,
            p > 0,
    ;
}

/// A clip at half the speed takes twice what it uses of its source, at the source's own speed
/// just that, and at twice the speed half of it.
pub proof fn slower_takes_longer(c: Clip, from: Duration, to: Duration)
    requires
        c.in_point == Some(from),
        c.out_point == Some(to),
        from.nanos <= to.nanos,
        to.nanos <= time::MAX_NANOS,
        2 * (to.nanos - from.nanos) < accuracy::P48,
        c.speed.finite(),
    ensures
        2 * c.speed.units() == accuracy::unit() ==> edit::footprint(c) == Some(
            Duration { nanos: (2 * (to.nanos - from.nanos)) as u128 },
        ),
        c.speed.units() == accuracy::unit() ==> edit::footprint(c) == Some(
            Duration { nanos: (to.nanos - from.nanos) as u128 },
        ),
        c.speed.units() == 2 * accuracy::unit() && (to.nanos - from.nanos) % 2 == 0
            ==> edit::footprint(c) == Some(
            Duration { nanos: ((to.nanos - from.nanos) / 2) as u128 },
        ),
{
    accuracy::lemma_powers();
    let (u, p, d) = (accuracy::unit(), c.speed.units(), to.nanos - from.nanos);
    if 2 * p == u {
        assert((2 * d) * p == d * u) by (nonlinear_arith)
            requires
                2 * p == u,
        ;
        whole_lengths_are_exact(c, from, to, 2 * d);
    } else if p == u {
        whole_lengths_are_exact(c, from, to, d);
    } else if p == 2 * u && d % 2 == 0 {
        let h = d / 2;
        assert(h * p == d * u) by (nonlinear_arith)
            requires
                d == 2 * h,
                p == 2 * u,
        ;
        whole_lengths_are_exact(c, from, to, h);
    }
}

/// A speed below one hundredth, or one that is undefined, counts as one hundredth.
pub proof fn slowest_is_a_hundredth(c: Clip, slow: Clip)
    requires
        slow.in_point == c.in_point,
        slow.out_point == c.out_point,
        c.speed.nan() || (c.speed.finite() && 100 * c.speed.units() < accuracy::unit()),
        slow.speed.finite(),
        100 * slow.speed.units() >= accuracy::unit(),
        forall|s: F64|
            #![trigger s.units()]
            s.finite() && 100 * s.units() >= accuracy::unit() ==> slow.speed.units() <= s.units(),
    ensures
        edit::footprint(c) == edit::footprint(slow),
{
    let h = F64 { bits: values::HUNDREDTH };
    lemma_hundredth(h);
    lemma_hundredth(slow.speed);
    if c.speed.finite() {
        lemma_hundredth(c.speed);
    }
    assert(slow.speed.units() <= h.units());
    double::order_is_numeric(slow.speed, h);
    accuracy::lemma_powers();
    grid::lemma_grid_increases(52, 0, slow.speed.magnitude() as nat);
    assert(slow.speed == h);
}

/// A clip with a trim point unset has no length.
pub proof fn open_clips_have_no_length(c: Clip)
    ensures
        c.in_point is None || c.out_point is None ==> edit::footprint(c) is None,
{
}

/// A ripple delete of a clip in no group takes it off its track and moves every clip that starts
/// after it left by the clip's length: what it uses of its source divided by its speed. A clip
/// that would pass the start of the timeline stops there. Nothing else changes.
pub proof fn ripple_delete_moves_by_the_length(
    d: Document,
    clip: ClipId,
    kind: TrackKind,
    a: int,
    i: int,
    from: Duration,
    to: Duration,
) -> (by: Duration)
    requires
        edit::clip_place(d, clip) == Some((kind, a, i)),
        ({
            let c = edit::list(d, kind)[a].clips[i];
            &&& c.group is None
            &&& c.in_point == Some(from) && c.out_point == Some(to)
            &&& from.nanos <= to.nanos
            &&& can_take(to.nanos - from.nanos, c.speed)
        }),
    ensures
        edit::edited(d, Command::RippleDelete { clip }) is Ok,
        ({
            let e = edit::edited(d, Command::RippleDelete { clip })->Ok_0;
            let clips = edit::list(d, kind)[a].clips;
            let left = edit::list(e, kind)[a].clips;
            let c = clips[i];
            &&& takes(to.nanos - from.nanos, c.speed, by)
            &&& left.len() == clips.len() - 1
            &&& forall|j: int|
                #![trigger left[j]]
                0 <= j < left.len() ==> {
                    let before = clips[if j < i {
                        j
                    } else {
                        j + 1
                    }];
                    let (was, is) = (before.offset.nanos as int, left[j].offset.nanos as int);
                    &&& was > c.offset.nanos && was >= by.nanos ==> is == was - by.nanos
                    &&& was > c.offset.nanos && was < by.nanos ==> is == 0
                    &&& was <= c.offset.nanos ==> is == was
                    &&& left[j] == Clip { offset: left[j].offset, ..before }
                }
            &&& laws::differ_in_one_track(d, e, kind, a)
        }),
{
    laws::place_is_carrier(d, clip);
    laws::ripple_delete_stays_on_its_track(d, clip);
    let c = edit::list(d, kind)[a].clips[i];
    length_is_span_over_speed(c, from, to);
    edit::footprint(c)->Some_0
}

/// A ripple trim sets the two trim points of a clip, leaves it where it starts, and moves every
/// clip that starts after it by the change of its length: by what it used of its source divided
/// by its speed before, and by what it uses after. A clip that would pass either end of time
/// stops there.
pub proof fn ripple_trim_moves_by_the_change(
    d: Document,
    clip: ClipId,
    kind: TrackKind,
    a: int,
    i: int,
    from: Duration,
    to: Duration,
    new_from: Duration,
    new_to: Duration,
) -> (by: (Duration, Duration))
    requires
        edit::clip_place(d, clip) == Some((kind, a, i)),
        ({
            let c = edit::list(d, kind)[a].clips[i];
            &&& c.in_point == Some(from) && c.out_point == Some(to)
            &&& from.nanos <= to.nanos && new_from.nanos <= new_to.nanos
            &&& can_take(to.nanos - from.nanos, c.speed)
            &&& can_take(new_to.nanos - new_from.nanos, c.speed)
        }),
    ensures
        ({
            let command = Command::RippleTrim {
                clip,
                in_point: Some(new_from),
                out_point: Some(new_to),
            };
            let e = edit::edited(d, command)->Ok_0;
            let clips = edit::list(d, kind)[a].clips;
            let after = edit::list(e, kind)[a].clips;
            let c = clips[i];
            &&& edit::edited(d, command) is Ok
            &&& takes(to.nanos - from.nanos, c.speed, by.0)
            &&& takes(new_to.nanos - new_from.nanos, c.speed, by.1)
            &&& after.len() == clips.len()
            &&& after[i] == Clip { in_point: Some(new_from), out_point: Some(new_to), ..c }
            &&& forall|j: int|
                #![trigger after[j]]
                0 <= j < after.len() && j != i ==> {
                    let was = clips[j].offset.nanos as int;
                    let is = after[j].offset.nanos as int;
                    let goal = was + by.1.nanos - by.0.nanos;
                    &&& was > c.offset.nanos && 0 <= goal <= time::MAX_NANOS && was
                        <= time::MAX_NANOS ==> is == goal
                    &&& was > c.offset.nanos && goal < 0 ==> is == 0
                    &&& was > c.offset.nanos && goal > time::MAX_NANOS && by.1.nanos
                        >= by.0.nanos ==> is == time::MAX_NANOS
                    &&& was <= c.offset.nanos ==> is == was
                    &&& after[j] == Clip { offset: after[j].offset, ..clips[j] }
                }
            &&& laws::differ_in_one_track(d, e, kind, a)
        }),
{
    let command = Command::RippleTrim { clip, in_point: Some(new_from), out_point: Some(new_to) };
    laws::place_is_carrier(d, clip);
    laws::ripple_trim_stays_on_its_track(d, clip, Some(new_from), Some(new_to));
    let c = edit::list(d, kind)[a].clips[i];
    let trimmed = Clip { in_point: Some(new_from), out_point: Some(new_to), ..c };
    length_is_span_over_speed(c, from, to);
    length_is_span_over_speed(trimmed, new_from, new_to);
    (edit::footprint(c)->Some_0, edit::footprint(trimmed)->Some_0)
}

/// Whether a number is further than a billionth from one, on either side.
pub open spec fn off_one(s: F64) -> bool {
    1_000_000_000 * accuracy::gap(s.units(), accuracy::unit()) > accuracy::unit()
}

/// The test on a speed is exact: no rounding hides a change of speed, nor makes one up.
pub proof fn lemma_off_one(s: F64)
    requires
        s.finite(),
    ensures
        double::less(
            F64 { bits: values::BILLIONTH },
            double::difference(s, F64 { bits: values::ONE }).unsigned(),
        ) <==> off_one(s),
        double::less(
            double::difference(s, F64 { bits: values::ONE }).unsigned(),
            F64 { bits: values::BILLIONTH },
        ) <==> !off_one(s),
{
    accuracy::lemma_powers();
    let (b, one) = (F64 { bits: values::BILLIONTH }, F64 { bits: values::ONE });
    let (u, w) = (accuracy::unit(), power2::pow2(1021) as int);
    accuracy::doubles_are_their_numbers();
    assert(b.units() == 0x11_2E0B_E826_D695 * power2::pow2(992)) by {
        grid::lemma_grid_of(52, 992, 0x11_2E0B_E826_D695);
    }
    assert(w == 0x2000_0000 * power2::pow2(992)) by {
        power2::lemma_pow2_adds(29, 992);
        power2::lemma2_to64();
    }
    assert(one.turned().units() == -u);
    let off = s.units() - u;
    let size = accuracy::gap(s.units(), u) as nat;
    let r = double::difference(s, one).unsigned();
    let top = 0x7FF0_0000_0000_0000nat;
    let k = grid::nearest(52, top, size, 1);
    if size > 0 {
        rounding::nearest_is_nearest(52, top, size, 1);
        assert(r == double::signed(false, k));
    } else {
        assert(r == double::signed(false, 0));
    }
    let low = accuracy::lemma_representable(9_007_199, 1021);
    let high = accuracy::lemma_representable(9_007_200, 1021);
    power2::lemma_pow2_pos(992);
    assert(grid::grid(52, low) < b.units() < grid::grid(52, high));
    assert(low < values::BILLIONTH) by {
        if low >= values::BILLIONTH {
            grid::lemma_grid_increases(52, values::BILLIONTH as nat, low);
        }
    }
    assert(high > values::BILLIONTH) by {
        if high <= values::BILLIONTH {
            grid::lemma_grid_increases(52, high, values::BILLIONTH as nat);
        }
    }
    if size >= 9_007_200 * w {
        rounding::nearest_is_at_least(52, top, size, 1, high);
    } else if size <= 9_007_199 * w {
        rounding::nearest_is_at_most(52, top, size, 1, low);
    } else {
        let half = F64 { bits: values::HALF };
        double::order_is_numeric(half, s);
        assert(double::less(half, s));
        assert(!s.negative());
        let e = grid::spacing(52, s.magnitude() as nat);
        let m = grid::lemma_split(52, s.magnitude() as nat);
        assert(e >= 1021);
        power2::lemma_pow2_adds((e - 1021) as nat, 1021);
        let z = m * power2::pow2((e - 1021) as nat) - 0x20_0000_0000_0000;
        assert(off == z * w) by (nonlinear_arith)
            requires
                off == m * power2::pow2(e) - 0x20_0000_0000_0000 * w,
                power2::pow2(e) == power2::pow2((e - 1021) as nat) * w,
                z == m * power2::pow2((e - 1021) as nat) - 0x20_0000_0000_0000,
        ;
        assert(false) by (nonlinear_arith)
            requires
                off == z * w,
                9_007_199 * w < off < 9_007_200 * w || 9_007_199 * w < -off < 9_007_200 * w,
                w > 0,
        ;
    }
}

/// Whether `advance` is how far the source goes on in `span` nanoseconds of timeline at `speed`:
/// the span times the speed, up to half a nanosecond and one part in `2^49`.
pub open spec fn advances(span: int, speed: F64, advance: Duration) -> bool {
    let exact = span * speed.units();
    accuracy::P49 * accuracy::gap(advance.nanos * accuracy::unit(), exact) <= accuracy::P48
        * accuracy::unit() + exact
}

/// Whether a source can go on for `span` nanoseconds of timeline at `speed`: the speed is a number
/// that is not negative, and the source stays below `2^62` seconds.
pub open spec fn can_advance(span: int, speed: F64) -> bool {
    &&& 0 <= span <= time::MAX_NANOS
    &&& speed.finite() && !speed.negative()
    &&& span * speed.units() <= 0x4000_0000_0000_0000 * (1_000_000_000 * accuracy::unit())
}

/// The three roundings between a span and an advance, taken together.
proof fn lemma_advance_adds_up(u: int, p: int, s: int, x: int, l: int, d: int)
    requires
        u > 0,
        p >= 0,
        s >= 0,
        d >= 0,
        2 * accuracy::gap(l * u, x * 1_000_000_000) <= u,
        accuracy::P52 * accuracy::gap(x * u, s * p) <= s * p,
        accuracy::P50 * accuracy::gap(s * 1_000_000_000, d * u) <= d * u,
    ensures
        accuracy::P49 * accuracy::gap(l * u, d * p) <= accuracy::P48 * u + d * p,
{
    let (a, b, sp) = (l * u, d * p, s * p);
    let (au, bu, uu, xu) = (a * u, b * u, u * u, x * u);
    assert(2 * accuracy::gap(au, xu * 1_000_000_000) <= uu) by (nonlinear_arith)
        requires
            2 * accuracy::gap(l * u, x * 1_000_000_000) <= u,
            au == (l * u) * u,
            xu == x * u,
            uu == u * u,
            u > 0,
    ;
    assert(accuracy::P50 * accuracy::gap(sp * 1_000_000_000, bu) <= bu) by (nonlinear_arith)
        requires
            accuracy::P50 * accuracy::gap(s * 1_000_000_000, d * u) <= d * u,
            sp == s * p,
            bu == (d * p) * u,
            p >= 0,
    ;
    assert(sp >= 0 && bu >= 0) by (nonlinear_arith)
        requires
            sp == s * p,
            bu == (d * p) * u,
            s >= 0,
            p >= 0,
            d >= 0,
            u > 0,
    ;
    assert(accuracy::P49 * accuracy::gap(au, bu) <= accuracy::P48 * uu + bu);
    assert(accuracy::P49 * accuracy::gap(a, b) <= accuracy::P48 * u + b) by (nonlinear_arith)
        requires
            accuracy::P49 * accuracy::gap(au, bu) <= accuracy::P48 * uu + bu,
            au == a * u,
            bu == b * u,
            uu == u * u,
            u > 0,
    ;
}

/// The seconds of a span times a factor: rounded by one part in `2^52`, or next to nothing.
pub proof fn lemma_scaled(d: Duration, speed: F64)
    requires
        can_advance(d.nanos as int, speed),
    ensures
        ({
            let x = double::product(time::seconds(d), speed);
            let (s, p) = (time::seconds(d).units(), speed.units());
            &&& x.finite() && !x.negative()
            &&& s >= 0 && p >= 0
            &&& 0 <= x.units() <= 0x8000_0000_0000_0000 * accuracy::unit()
            &&& {
                ||| accuracy::P52 * accuracy::gap(x.units() * accuracy::unit(), s * p) <= s * p
                ||| x.units() <= accuracy::P52 && d.nanos * p <= 0x100_0000_0000_0000_0000_0000
            }
        }),
{
    accuracy::lemma_powers();
    seconds_are_accurate(d);
    let t = time::seconds(d);
    let (u, s, p) = (accuracy::unit(), t.units(), speed.units());
    let n = d.nanos as int;
    grid::lemma_grid_increases(52, 0, speed.magnitude() as nat);
    grid::lemma_grid_increases(52, 0, t.magnitude() as nat);
    assert(grid::grid(52, 0) == 0);
    assert(t.unsigned() == t && speed.unsigned() == speed);
    let (sp, np) = (s * p, n * p);
    assert(sp >= 0 && np >= 0) by (nonlinear_arith)
        requires
            sp == s * p,
            np == n * p,
            s >= 0,
            n >= 0,
            p >= 0,
    ;
    assert(accuracy::P50 * accuracy::gap(sp * 1_000_000_000, np * u) <= np * u)
        by (nonlinear_arith)
        requires
            accuracy::P50 * accuracy::gap(s * 1_000_000_000, n * u) <= n * u,
            sp == s * p,
            np == n * p,
            p >= 0,
    ;
    assert(np * u <= (0x4000_0000_0000_0000 * (1_000_000_000 * u)) * u) by (nonlinear_arith)
        requires
            np <= 0x4000_0000_0000_0000 * (1_000_000_000 * u),
            u > 0,
    ;
    let uu = u * u;
    assert((0x4000_0000_0000_0000 * (1_000_000_000 * u)) * u == 0x4000_0000_0000_0000 * (
    1_000_000_000 * uu)) by (nonlinear_arith)
        requires
            uu == u * u,
    ;
    assert(uu > 0) by (nonlinear_arith)
        requires
            uu == u * u,
            u > 0,
    ;
    assert(sp <= 0x8000_0000_0000_0000 * uu);
    let x = double::product(t, speed);
    let e = power2::pow2(1074);
    let m = (s as nat) * (p as nat);
    power2::lemma_pow2_adds(63, 1074);
    power2::lemma2_to64_rest();
    assert(m <= 1 * power2::pow2(1137) * e) by (nonlinear_arith)
        requires
            m == sp,
            sp <= 0x8000_0000_0000_0000 * uu,
            uu == u * u,
            e == u,
            power2::pow2(1137) == 0x8000_0000_0000_0000 * u,
    ;
    accuracy::lemma_stays_finite(m, e, 1, 1137);
    assert(x.units() <= 0x8000_0000_0000_0000 * u);
    grid::lemma_grid_increases(52, 0, x.magnitude() as nat);
    if sp == 0 || sp >= accuracy::P52 * u {
        power2::lemma_pow2_pos(900);
        magnitude::lemma_pow2_values();
        magnitude::lemma_pow2_at_most(64, 900);
        assert(sp <= power2::pow2(900) * u * u) by (nonlinear_arith)
            requires
                sp <= 0x8000_0000_0000_0000 * uu,
                uu == u * u,
                power2::pow2(900) >= 0x1_0000_0000_0000_0000,
                uu > 0,
        ;
        accuracy::product_is_accurate(t, speed);
    } else {
        grid::lemma_grid_of(52, 0, 0x10_0000_0000_0000);
        power2::lemma2_to64();
        assert(grid::grid(52, 0x10_0000_0000_0000) == accuracy::P52);
        rounding::nearest_is_at_most(52, 0x7FF0_0000_0000_0000, m, e, 0x10_0000_0000_0000);
        grid::lemma_grid_increases(52, x.magnitude() as nat, 0x10_0000_0000_0000);
        assert(x.units() <= accuracy::P52);
        assert(np <= 0x100_0000_0000_0000_0000_0000) by (nonlinear_arith)
            requires
                np * u <= 2 * (sp * 1_000_000_000),
                sp < 0x10_0000_0000_0000 * u,
                u > 0,
        ;
    }
}

/// How far the source goes on in a span of timeline, against the exact product.
proof fn lemma_advance(d: Duration, speed: F64)
    requires
        can_advance(d.nanos as int, speed),
    ensures
        ({
            let r = time::span(double::product(time::seconds(d), speed));
            r is Some && advances(d.nanos as int, speed, r->0)
        }),
{
    accuracy::lemma_powers();
    seconds_are_accurate(d);
    lemma_scaled(d, speed);
    let (u, s, p) = (accuracy::unit(), time::seconds(d).units(), speed.units());
    let x = double::product(time::seconds(d), speed);
    span_is_nearest(x);
    let l = time::span(x)->0.nanos as int;
    let n = d.nanos as int;
    assert(n * p >= 0) by (nonlinear_arith)
        requires
            n >= 0,
            p >= 0,
    ;
    if accuracy::P52 * accuracy::gap(x.units() * u, s * p) <= s * p {
        lemma_advance_adds_up(u, p, s, x.units(), l, n);
    } else {
        assert(l == 0) by (nonlinear_arith)
            requires
                2 * (l * u - x.units() * 1_000_000_000) <= u,
                x.units() <= 0x10_0000_0000_0000,
                l >= 0,
                u >= 0x1_0000_0000_0000_0000_0000_0000_0000_0000,
        ;
        assert(l * u == 0) by (nonlinear_arith)
            requires
                l == 0,
        ;
    }
}

/// A cut falls in the source where playing the clip to that moment leads: from its start by the
/// time since the clip's offset times its speed, strictly after its start and before its end. A
/// moment up to the clip's offset cuts nothing.
pub proof fn cuts_fall_where_playing_leads(c: Clip, at: Duration)
    requires
        c.offset.nanos < at.nanos ==> can_advance(at.nanos - c.offset.nanos, c.speed),
    ensures
        ({
            let cut = edit::source_cut(c, at);
            let from = match c.in_point {
                Some(i) => i.nanos as int,
                None => 0,
            };
            &&& at.nanos <= c.offset.nanos ==> cut is None
            &&& cut matches Some(s) ==> {
                &&& from < s.nanos
                &&& c.out_point matches Some(o) ==> s.nanos < o.nanos
                &&& advances(
                    at.nanos - c.offset.nanos,
                    c.speed,
                    Duration { nanos: (s.nanos - from) as u128 },
                )
            }
        }),
{
    if c.offset.nanos < at.nanos {
        lemma_advance(time::earlier(at, c.offset), c.speed);
    }
}

/// A moment after the clip's offset cuts the clip wherever playing to it leads a nanosecond or
/// more into the source and, by more than rounding, not to its end.
pub proof fn cuts_inside_succeed(c: Clip, at: Duration)
    requires
        c.offset.nanos < at.nanos,
        can_advance(at.nanos - c.offset.nanos, c.speed),
        (at.nanos - c.offset.nanos) * c.speed.units() >= accuracy::unit(),
        c.in_point matches Some(i) ==> i.nanos <= 0x4000_0000_0000_0000 * 1_000_000_000,
        c.out_point matches Some(o) ==> ({
            let from = match c.in_point {
                Some(i) => i.nanos as int,
                None => 0,
            };
            let (u, exact) = (
                accuracy::unit(),
                (at.nanos - c.offset.nanos) * c.speed.units(),
            );
            accuracy::P49 * exact + accuracy::P48 * u + exact < accuracy::P49 * ((o.nanos - from)
                * u)
        }),
    ensures
        edit::source_cut(c, at) is Some,
{
    accuracy::lemma_powers();
    let e = time::earlier(at, c.offset);
    lemma_advance(e, c.speed);
    let adv = time::span(double::product(time::seconds(e), c.speed))->0.nanos as int;
    let (u, exact) = (accuracy::unit(), (at.nanos - c.offset.nanos) * c.speed.units());
    assert(adv > 0) by (nonlinear_arith)
        requires
            accuracy::P49 * accuracy::gap(adv * u, exact) <= accuracy::P48 * u + exact,
            exact >= u,
            adv >= 0,
            u > 0,
            accuracy::P48 == 0x1_0000_0000_0000,
            accuracy::P49 == 0x2_0000_0000_0000,
    ;
    assert(adv <= 0x8000_0000_0000_0000 * 1_000_000_000) by (nonlinear_arith)
        requires
            accuracy::P49 * accuracy::gap(adv * u, exact) <= accuracy::P48 * u + exact,
            exact <= 0x4000_0000_0000_0000 * (1_000_000_000 * u),
            adv >= 0,
            u > 0,
            accuracy::P48 == 0x1_0000_0000_0000,
            accuracy::P49 == 0x2_0000_0000_0000,
    ;
    if let Some(o) = c.out_point {
        let from = match c.in_point {
            Some(i) => i.nanos as int,
            None => 0,
        };
        assert(adv < o.nanos - from) by (nonlinear_arith)
            requires
                accuracy::P49 * accuracy::gap(adv * u, exact) <= accuracy::P48 * u + exact,
                accuracy::P49 * exact + accuracy::P48 * u + exact < accuracy::P49 * ((o.nanos
                    - from) * u),
                u > 0,
                accuracy::P49 == 0x2_0000_0000_0000,
        ;
    }
}

/// A span of timeline in source time is the span times the speed; at a speed that counts as one,
/// the span itself.
pub proof fn source_time_is_span_times_speed(span: Duration, speed: F64)
    requires
        can_advance(span.nanos as int, speed),
        100 * speed.units() >= accuracy::unit(),
    ensures
        off_one(speed) ==> advances(span.nanos as int, speed, transition::in_source(span, speed)),
        !off_one(speed) ==> transition::in_source(span, speed) == span,
{
    lemma_off_one(speed);
    lemma_hundredth(speed);
    lemma_advance(span, speed);
}

/// A clip's handle is what its file holds past its out-point, in timeline time: divided by its
/// speed, or as it is at a speed that counts as one. A clip without an out-point, a file of unknown
/// length and one that ends at the out-point have none; a generated source never ends.
pub proof fn handles_are_tails_over_speed(clip: Clip, source: Option<Duration>)
    requires
        clip.speed.finite(),
        100 * clip.speed.units() >= accuracy::unit(),
        clip.out_point matches Some(o) ==> (source matches Some(s) ==> (o.nanos <= s.nanos
            ==> can_take(s.nanos - o.nanos, clip.speed))),
    ensures
        clip.source !is File ==> transition::handle_of(clip, source) is None,
        clip.source is File ==> {
            let tail = match (clip.out_point, source) {
                (Some(o), Some(s)) if s.nanos >= o.nanos => s.nanos - o.nanos,
                _ => 0,
            };
            let h = transition::handle_of(clip, source);
            &&& h is Some
            &&& off_one(clip.speed) ==> takes(tail, clip.speed, h->0)
            &&& !off_one(clip.speed) ==> h->0.nanos == tail
        },
{
    accuracy::lemma_powers();
    lemma_off_one(clip.speed);
    lemma_hundredth(clip.speed);
    let tail = transition::source_tail(clip, source);
    if tail.nanos == 0 {
        assert(tail.nanos * accuracy::unit() == 0) by (nonlinear_arith)
            requires
                tail.nanos == 0,
        ;
    }
    lemma_length(tail, clip.speed);
}

} // verus!

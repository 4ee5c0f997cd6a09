//! Frames as numbers.
//!
//! How many frames a span takes, when a frame is due and how far a window has come, on the exact
//! numbers; and what the GPU export asks of a track, field by field.

use vstd::arithmetic::power2;
use vstd::prelude::*;

use crate::clip;
use crate::clip::Clip;
use crate::derive::VideoLayer;
use crate::filter::{AnimatedValue, XfadeTransition};
use crate::float::accuracy;
use crate::float::double;
use crate::float::double::F64;
use crate::float::grid;
use crate::float::magnitude;
use crate::float::single;
use crate::float::single::F32;
use crate::float::values;
use crate::gpu_export;
use crate::gpu_export::ClipShape;
use crate::gpu_transition;
use crate::gpu_transition::GpuTransition;
use crate::time;
use crate::time::Duration;
use crate::timing;

verus! {

/// A span takes as many frames as its seconds times the rate, to the nearest whole number: the
/// frames times a second are the span times the rate, up to half a frame and one part in `2^49`.
pub proof fn frames_are_span_times_rate(d: Duration, rate: F64)
    requires
        timing::can_advance(d.nanos as int, rate),
    ensures
        ({
            let n = gpu_export::frames_in(d, rate) as int;
            let (second, exact) = (1_000_000_000 * accuracy::unit(), d.nanos * rate.units());
            accuracy::P49 * accuracy::gap(n * second, exact) <= accuracy::P48 * second + exact
        }),
{
    accuracy::lemma_powers();
    timing::seconds_are_accurate(d);
    timing::lemma_scaled(d, rate);
    let (u, s, p) = (accuracy::unit(), time::seconds(d).units(), rate.units());
    let v = double::product(time::seconds(d), rate);
    let x = v.units();
    let n = d.nanos as int;
    assert(n * p >= 0) by (nonlinear_arith)
        requires
            n >= 0,
            p >= 0,
    ;
    let e = power2::pow2(1074);
    let (a, b) = (2 * x + u, 2 * u);
    let f = a / b;
    vstd::arithmetic::div_mod::lemma_fundamental_div_mod(a, b);
    vstd::arithmetic::div_mod::lemma_mod_bound(a, b);
    assert(b * f == 2 * (f * u)) by (nonlinear_arith)
        requires
            b == 2 * u,
    ;
    assert(2 * accuracy::gap(f * u, x) <= u);
    assert(0 <= f <= 0x8000_0000_0000_0001) by (nonlinear_arith)
        requires
            2 * (f * u - x) <= u,
            2 * (x - f * u) <= u,
            0 <= x <= 0x8000_0000_0000_0000 * u,
            u > 0,
    ;
    assert(magnitude::half_up(x as nat, e) == f);
    assert(gpu_export::frames_in(d, rate) == f);
    if accuracy::P52 * accuracy::gap(x * u, s * p) <= s * p {
        lemma_frames_add_up(u, p, s, x, f, n);
    } else {
        assert(f == 0) by (nonlinear_arith)
            requires
                2 * (f * u - x) <= u,
                x <= 0x10_0000_0000_0000,
                f >= 0,
                u >= 0x1_0000_0000_0000_0000_0000_0000_0000_0000,
        ;
        assert(f * (1_000_000_000 * u) == 0) by (nonlinear_arith)
            requires
                f == 0,
        ;
    }
}

/// The three roundings between a span and its frames, taken together.
proof fn lemma_frames_add_up(u: int, p: int, s: int, x: int, f: int, d: int)
    requires
        u > 0,
        p >= 0,
        s >= 0,
        d >= 0,
        2 * accuracy::gap(f * u, x) <= u,
        accuracy::P52 * accuracy::gap(x * u, s * p) <= s * p,
        accuracy::P50 * accuracy::gap(s * 1_000_000_000, d * u) <= d * u,
    ensures
        accuracy::P49 * accuracy::gap(f * (1_000_000_000 * u), d * p) <= accuracy::P48 * (
        1_000_000_000 * u) + d * p,
{
    let (a, b, sp) = (f * u, d * p, s * p);
    let (au, bu, uu, xu) = (a * u, b * u, u * u, x * u);
    assert(2 * accuracy::gap(au, xu) <= uu) by (nonlinear_arith)
        requires
            2 * accuracy::gap(a, x) <= u,
            au == a * u,
            xu == x * u,
            uu == u * u,
            u > 0,
    ;
    assert(accuracy::P50 * accuracy::gap(sp * 1_000_000_000, bu) <= bu) by (nonlinear_arith)
        requires
            accuracy::P50 * accuracy::gap(s * 1_000_000_000, d * u) <= d * u,
            sp == s * p,
            bu == (d * p) * u,
            p >= 0,
    ;
    assert(sp >= 0 && bu >= 0) by (nonlinear_arith)
        requires
            sp == s * p,
            bu == (d * p) * u,
            s >= 0,
            p >= 0,
            d >= 0,
            u > 0,
    ;
    assert(accuracy::P49 * accuracy::gap(1_000_000_000 * au, bu) <= accuracy::P48 * (1_000_000_000
        * uu) + bu);
    assert(f * (1_000_000_000 * u) == 1_000_000_000 * a) by (nonlinear_arith)
        requires
            a == f * u,
    ;
    assert(accuracy::P49 * accuracy::gap(1_000_000_000 * a, b) <= accuracy::P48 * (1_000_000_000
        * u) + b) by (nonlinear_arith)
        requires
            accuracy::P49 * accuracy::gap(1_000_000_000 * au, bu) <= accuracy::P48 * (1_000_000_000
                * uu) + bu,
            au == a * u,
            bu == b * u,
            uu == u * u,
            u > 0,
    ;
}

/// Frame `k` is due after `k` of the rate's frames: its time times the rate is `k` seconds, up to
/// half a nanosecond and one part in `2^49`.
pub proof fn frames_are_due_in_turn(k: u64, rate: F64)
    requires
        k < 0x20_0000_0000_0000,
        rate.finite() && !rate.negative(),
        1000 * rate.units() >= accuracy::unit(),
        rate.units() <= 0x100_0000_0000 * accuracy::unit(),
    ensures
        gpu_export::frame_time(k, rate) is Some,
        ({
            let t = gpu_export::frame_time(k, rate)->0.nanos as int;
            let (p, exact) = (rate.units(), k * (1_000_000_000 * accuracy::unit()));
            accuracy::P49 * accuracy::gap(t * p, exact) <= accuracy::P48 * p + exact
        }),
{
    accuracy::lemma_powers();
    accuracy::whole_is_exact(k as nat);
    let u = accuracy::unit();
    let w = double::whole(k as nat);
    let (x, p) = (w.units(), rate.units());
    assert(x == 0 || x * u >= accuracy::P52 * p) by (nonlinear_arith)
        requires
            x == k * u,
            k >= 0,
            p <= 0x100_0000_0000 * u,
            u >= 0x1_0000_0000_0000_0000_0000_0000_0000_0000,
            accuracy::P52 == 0x10_0000_0000_0000,
    ;
    power2::lemma_pow2_pos(900);
    magnitude::lemma_pow2_values();
    magnitude::lemma_pow2_at_most(64, 900);
    assert(x <= 0x8000_0000_0000_0000 * p) by (nonlinear_arith)
        requires
            x == k * u,
            k < 0x20_0000_0000_0000,
            1000 * p >= u,
            u > 0,
    ;
    assert(x <= power2::pow2(900) * p) by (nonlinear_arith)
        requires
            x <= 0x8000_0000_0000_0000 * p,
            power2::pow2(900) >= 0x1_0000_0000_0000_0000,
            p > 0,
    ;
    accuracy::quotient_is_accurate(w, rate);
    let q = double::quotient(w, rate);
    let y = q.units();
    grid::lemma_grid_increases(52, 0, q.magnitude() as nat);
    assert(y < 0x1_0000_0000_0000_0000 * u) by (nonlinear_arith)
        requires
            accuracy::P52 * (y * p - x * u) <= x * u,
            accuracy::P52 == 0x10_0000_0000_0000,
            x == k * u,
            k < 0x20_0000_0000_0000,
            1000 * p >= u,
            u > 0,
            x >= 0,
    ;
    timing::span_is_nearest(q);
    let t = time::span(q)->0.nanos as int;
    lemma_due_adds_up(u, p, k as int, y, t);
}

/// The two roundings between a frame's number and its time, taken together.
proof fn lemma_due_adds_up(u: int, p: int, k: int, q: int, t: int)
    requires
        u > 0,
        p > 0,
        k >= 0,
        2 * accuracy::gap(t * u, q * 1_000_000_000) <= u,
        accuracy::P52 * accuracy::gap(q * p, (k * u) * u) <= (k * u) * u,
    ensures
        accuracy::P49 * accuracy::gap(t * p, k * (1_000_000_000 * u)) <= accuracy::P48 * p + k * (
        1_000_000_000 * u),
{
    let (x, y, up) = (t * p, q * p, u * p);
    let (xu, e) = (x * u, (k * u) * u);
    assert(2 * accuracy::gap(xu, y * 1_000_000_000) <= up) by (nonlinear_arith)
        requires
            2 * accuracy::gap(t * u, q * 1_000_000_000) <= u,
            xu == (t * p) * u,
            y == q * p,
            up == u * p,
            p > 0,
    ;
    assert(e >= 0) by (nonlinear_arith)
        requires
            e == (k * u) * u,
            k >= 0,
            u > 0,
    ;
    assert(accuracy::P49 * accuracy::gap(xu, 1_000_000_000 * e) <= accuracy::P48 * up
        + 1_000_000_000 * e);
    let z = k * (1_000_000_000 * u);
    assert(1_000_000_000 * e == z * u) by (nonlinear_arith)
        requires
            e == (k * u) * u,
            z == k * (1_000_000_000 * u),
    ;
    assert(accuracy::P49 * accuracy::gap(x, z) <= accuracy::P48 * p + z) by (nonlinear_arith)
        requires
            accuracy::P49 * accuracy::gap(xu, z * u) <= accuracy::P48 * up + z * u,
            xu == x * u,
            up == u * p,
            u > 0,
    ;
}

/// A window has come as far at output `j` as `j` is of its length: from nothing at the first, and
/// never past one.
pub proof fn progress_is_the_part_done(j: u64, window: u64)
    requires
        j < window < 0x100_0000,
    ensures
        ({
            let r = gpu_export::progress_at(j, window);
            let u = accuracy::single_unit();
            &&& r.finite() && !r.negative() && r.units() <= u
            &&& j == 0 ==> r.units() == 0
            &&& accuracy::P23 * accuracy::gap(r.units() * window, j * u) <= j * u
        }),
{
    accuracy::part_is_accurate(j as nat, window as nat);
}

/// Clips that tile follow each other without a gap: the first starts with the timeline, and each
/// other where the one before it ends at its own speed, which is what it uses of its source.
pub proof fn tiles_leave_no_gap(clips: Seq<Clip>, i: int)
    requires
        gpu_export::tiled(clips),
        0 <= i < clips.len(),
    ensures
        i == 0 ==> clips[i].offset.nanos == 0,
        i > 0 ==> {
            let before = clips[i - 1];
            &&& before.in_point is Some && before.out_point is Some
            &&& before.in_point->0.nanos <= before.out_point->0.nanos ==> clips[i].offset.nanos
                == before.offset.nanos + before.out_point->0.nanos - before.in_point->0.nanos
            &&& before.in_point->0.nanos > before.out_point->0.nanos ==> clips[i].offset.nanos
                == before.offset.nanos
        },
{
    if i > 0 {
        let before = clips[i - 1];
        assert(clips[i].offset.nanos == gpu_export::length_before(clips, i));
        assert(before.offset.nanos == gpu_export::length_before(clips, i - 1));
        assert(clip::source_span(before) is Some);
    }
}

/// Clips that start with the timeline and follow each other without a gap tile.
pub proof fn gapless_clips_tile(clips: Seq<Clip>)
    requires
        clips.len() > 0 ==> clips[0].offset.nanos == 0,
        forall|i: int, j: int|
            #![trigger clips[i], clips[j]]
            0 <= i && j == i + 1 && j < clips.len() ==> {
                let (c, next) = (clips[i], clips[j]);
                &&& c.in_point is Some && c.out_point is Some
                &&& c.in_point->0.nanos <= c.out_point->0.nanos
                &&& next.offset.nanos == c.offset.nanos + c.out_point->0.nanos
                    - c.in_point->0.nanos
            },
    ensures
        gpu_export::tiled(clips),
{
    assert forall|i: int| 0 <= i < clips.len() implies (#[trigger] clips[i]).offset.nanos
        == gpu_export::length_before(clips, i) by {
        lemma_tiles(clips, i);
    }
    assert forall|i: int| 0 <= i < clips.len() - 1 implies clip::source_span(#[trigger] clips[i])
        is Some by {
        let next = clips[i + 1];
    }
}

proof fn lemma_tiles(clips: Seq<Clip>, i: int)
    requires
        0 <= i < clips.len(),
        clips[0].offset.nanos == 0,
        forall|k: int, j: int|
            #![trigger clips[k], clips[j]]
            0 <= k && j == k + 1 && j < clips.len() ==> {
                let (c, next) = (clips[k], clips[j]);
                &&& c.in_point is Some && c.out_point is Some
                &&& c.in_point->0.nanos <= c.out_point->0.nanos
                &&& next.offset.nanos == c.offset.nanos + c.out_point->0.nanos
                    - c.in_point->0.nanos
            },
    ensures
        clips[i].offset.nanos == gpu_export::length_before(clips, i),
    decreases i,
{
    if i > 0 {
        lemma_tiles(clips, i - 1);
        let (c, next) = (clips[i - 1], clips[i]);
        assert(clip::source_span(c) is Some);
    }
}

/// Whether a value is constant and within a billionth of zero.
pub open spec fn rests_at_zero(v: AnimatedValue) -> bool {
    v matches AnimatedValue::Static(x) && x.finite() && accuracy::gap(x.units(), 0) < (F64 {
        bits: values::BILLIONTH,
    }).units()
}

/// Whether a value is constant and no further than a billionth from one.
pub open spec fn rests_at_one(v: AnimatedValue) -> bool {
    v matches AnimatedValue::Static(x) && x.finite() && !timing::off_one(x)
}

proof fn lemma_rests(v: AnimatedValue)
    ensures
        gpu_export::still_zero(v) <==> rests_at_zero(v),
        v matches AnimatedValue::Static(x) ==> x.finite() ==> (gpu_export::still_one(v)
            <==> rests_at_one(v)),
        v is Track ==> !gpu_export::still_one(v),
{
    if let AnimatedValue::Static(x) = v {
        let b = F64 { bits: values::BILLIONTH };
        if x.finite() {
            timing::lemma_off_one(x);
            double::order_is_numeric(x.unsigned(), b);
            accuracy::lemma_powers();
            grid::lemma_grid_increases(52, 0, x.magnitude() as nat);
            assert(grid::grid(52, 0) == 0);
            assert(x.unsigned().units() == accuracy::gap(x.units(), 0));
        }
    }
}

/// A layer counts as unmoved exactly where its two coordinates and its rotation rest at zero and
/// its two factors rest at one.
pub proof fn unmoved_layers_rest(l: VideoLayer<AnimatedValue>)
    requires
        l.scale_x matches AnimatedValue::Static(x) ==> x.finite(),
        l.scale_y matches AnimatedValue::Static(x) ==> x.finite(),
    ensures
        gpu_export::stays_put(l) <==> rests_at_zero(l.x) && rests_at_zero(l.y) && rests_at_one(
            l.scale_x,
        ) && rests_at_one(l.scale_y) && rests_at_zero(l.rotation),
{
    lemma_rests(l.x);
    lemma_rests(l.y);
    lemma_rests(l.scale_x);
    lemma_rests(l.scale_y);
    lemma_rests(l.rotation);
}

/// The GPU export takes a clip by itself exactly where it shows a file at the file's own speed,
/// to a billionth on either side, and its layer maps and stays where it is.
pub proof fn clips_are_taken_as_they_play(c: Clip, shape: ClipShape)
    requires
        c.speed.finite(),
    ensures
        gpu_export::clip_accepted(c, shape) <==> c.source is File && !timing::off_one(c.speed)
            && shape.mapped && shape.still,
{
    timing::lemma_off_one(c.speed);
    let d = double::difference(c.speed, F64 { bits: values::ONE }).unsigned();
    let b = F64 { bits: values::BILLIONTH };
    assert(double::at_most(d, b) <==> !double::less(b, d) || d.nan()) by {
        lemma_difference_defined(c.speed);
    }
    lemma_difference_defined(c.speed);
}

proof fn lemma_difference_defined(s: F64)
    requires
        s.finite(),
    ensures
        !double::difference(s, F64 { bits: values::ONE }).unsigned().nan(),
{
    let one = F64 { bits: values::ONE };
    accuracy::doubles_are_their_numbers();
    let off = s.units() - accuracy::unit();
    let n = accuracy::gap(s.units(), accuracy::unit()) as nat;
    assert(one.turned().units() == -one.units());
    if n > 0 {
        crate::float::rounding::nearest_is_nearest(52, 0x7FF0_0000_0000_0000, n, 1);
    }
}

/// A cross-fade that maps runs on the node of its own name: a plain fade and a dissolve on
/// theirs, a dip through black or white in all three channels, and a wipe along its own axis:
/// leftwards and rightwards a half turn apart, up and down a quarter turn to either side.
pub proof fn fades_run_on_their_nodes(kind: XfadeTransition)
    ensures
        ({
            let r = gpu_transition::node_of(kind);
            let u = accuracy::single_unit();
            &&& kind is Fade <==> r == Some(GpuTransition::Fade)
            &&& kind is Dissolve <==> r == Some(GpuTransition::Dissolve)
            &&& kind is FadeBlack || kind is FadeWhite <==> (r matches Some(
                GpuTransition::Dip { .. },
            ))
            &&& kind is FadeBlack ==> (r matches Some(GpuTransition::Dip { color })
                && color.r.units() == 0 && color.g.units() == 0 && color.b.units() == 0)
            &&& kind is FadeWhite ==> (r matches Some(GpuTransition::Dip { color })
                && color.r.units() == u && color.g.units() == u && color.b.units() == u)
            &&& kind is WipeLeft || kind is WipeRight || kind is WipeUp || kind is WipeDown <==> (
            r matches Some(GpuTransition::Wipe { .. }))
            &&& kind is WipeLeft ==> (r matches Some(GpuTransition::Wipe { angle })
                && angle.units() == 0)
            &&& kind is WipeRight ==> (r matches Some(GpuTransition::Wipe { angle })
                && 314_159 * u < 100_000 * angle.units() < 314_160 * u)
            &&& kind is WipeUp ==> (r matches Some(GpuTransition::Wipe { angle })
                && 314_159 * u < 200_000 * angle.units() < 314_160 * u)
            &&& kind is WipeDown ==> (r matches Some(GpuTransition::Wipe { angle })
                && -314_160 * u < 200_000 * angle.units() < -314_159 * u)
        }),
{
    accuracy::singles_are_their_numbers();
    lemma_quarter_turns();
}

/// The named angles are the turns that they are named after.
proof fn lemma_quarter_turns()
    ensures
        ({
            let u = accuracy::single_unit();
            &&& 314_159 * u < 100_000 * (F32 { bits: values::S_PI }).units() < 314_160 * u
            &&& 314_159 * u < 200_000 * (F32 { bits: values::S_QUARTER_TURN }).units() < 314_160 * u
            &&& -314_160 * u < 200_000 * (F32 { bits: values::S_MINUS_QUARTER_TURN }).units()
                < -314_159 * u
        }),
{
    magnitude::lemma_pow2_values();
    power2::lemma2_to64();
    let p = 0xC9_0FDBnat;
    grid::lemma_grid_of(23, 127, p);
    grid::lemma_grid_of(23, 126, p);
    power2::lemma_pow2_adds(127, 22);
    power2::lemma_pow2_adds(126, 23);
    power2::lemma_pow2_pos(127);
    power2::lemma_pow2_pos(126);
}

/// The GPU export renders the plain fade, the four wipes and the two dips itself, and no other.
pub proof fn exported_fades_are_these(kind: XfadeTransition)
    ensures
        gpu_export::exported(kind) <==> kind is Fade || kind is WipeLeft || kind is WipeRight
            || kind is WipeUp || kind is WipeDown || kind is FadeBlack || kind is FadeWhite,
{
}

/// The boundary into a clip is its transition's: as many outputs as the transition really lasts,
/// on the node of its kind; a kind that the export does not render has no window, and a clip with
/// no transition has an empty one.
pub proof fn boundaries_follow_their_transitions(c: Clip, effective: Duration, rate: F64)
    ensures
        ({
            let b = gpu_export::boundary_of(c, effective, rate);
            &&& c.transition is None ==> b.window == Some(0u64) && b.node is None
            &&& c.transition matches Some(kind) ==> {
                &&& b.node == gpu_transition::node_of(kind)
                &&& gpu_export::exported(kind) ==> b.window == Some(
                    gpu_export::frames_in(effective, rate),
                )
                &&& !gpu_export::exported(kind) ==> b.window is None
            }
        }),
{
}

/// A clip's clock starts at nothing, times frames from the clip's in-point, and counts a source at
/// the timeline's rate, to a thousandth, frame by frame; one that is further off conforms by its
/// own timestamps.
pub proof fn clocks_start_at_the_in_point(c: Clip, rate: F64, source: F64)
    requires
        rate.finite() && source.finite(),
        rate.units() > 0 && source.units() > 0,
    ensures
        ({
            let k = gpu_export::opened(c, rate, source);
            let off = accuracy::gap(source.units(), rate.units());
            &&& k.produced == 0 && k.decoded == 0 && k.held is None && k.pending is None && !k.eof
            &&& k.frame_rate == rate
            &&& c.in_point matches Some(p) ==> k.base.nanos == p.nanos
            &&& c.in_point is None ==> k.base.nanos == 0
            &&& 1001 * off <= accuracy::unit() ==> k.one_to_one
            &&& 999 * off >= accuracy::unit() ==> !k.one_to_one
        }),
{
    accuracy::lemma_powers();
    accuracy::doubles_are_their_numbers();
    let zero = F64 { bits: values::ZERO };
    let limit = F64 { bits: values::THOUSANDTH };
    double::order_is_numeric(source, zero);
    assert(gpu_export::usable(Some(source)));
    grid::lemma_grid_increases(52, 0, source.magnitude() as nat);
    grid::lemma_grid_increases(52, 0, rate.magnitude() as nat);
    assert(grid::grid(52, 0) == 0);
    assert(!source.negative() && !rate.negative());
    let d = double::difference(source, rate);
    if source.units() >= rate.units() {
        accuracy::difference_is_accurate(source, rate);
        grid::lemma_grid_increases(52, 0, d.magnitude() as nat);
        assert(d.unsigned() == d);
    } else {
        accuracy::difference_is_accurate(rate, source);
        let e = double::difference(rate, source);
        grid::lemma_grid_increases(52, 0, e.magnitude() as nat);
        let n = (rate.units() - source.units()) as nat;
        assert(source.turned().units() == -source.units());
        assert(rate.turned().units() == -rate.units());
        let k = grid::nearest(52, 0x7FF0_0000_0000_0000, n, 1);
        crate::float::rounding::nearest_is_nearest(52, 0x7FF0_0000_0000_0000, n, 1);
        assert(e == double::signed(false, k));
        assert(d == double::signed(true, k));
        assert(d.unsigned() == e);
    }
    double::order_is_numeric(d.unsigned(), limit);
}

/// A window blends its outputs in turn: a frame of the outgoing clip, a frame of the incoming
/// one, the blend of the two on the boundary's node as far as the window has come, and the
/// encoder; after the last output the incoming clip goes on alone.
pub proof fn windows_blend_in_turn(
    boundaries: Seq<gpu_export::Boundary>,
    clip: usize,
    j: u64,
    window: u64,
    node: GpuTransition,
)
    requires
        clip + 1 < boundaries.len() <= usize::MAX,
        boundaries[clip + 1] == (gpu_export::Boundary { window: Some(window), node: Some(node) }),
        j < window,
    ensures
        ({
            let next = (clip + 1) as usize;
            let (happens, open) = (
                |s: gpu_export::Stage, h: gpu_export::Happened|
                    gpu_export::stepped(boundaries, s, h),
                gpu_export::stepped(
                    boundaries,
                    gpu_export::Stage::Solo { clip },
                    gpu_export::Happened::Spent,
                ),
            );
            &&& open.1 == (gpu_export::Act::Open { clip: next, handle: window })
            &&& happens(open.0, gpu_export::Happened::Opened) == (
                gpu_export::Stage::Outgoing { clip, j: 0 },
                gpu_export::Act::Pull { clip },
            )
            &&& happens(
                gpu_export::Stage::Outgoing { clip, j },
                gpu_export::Happened::Composited,
            ) == (
                gpu_export::Stage::Incoming { clip, j },
                gpu_export::Act::Pull { clip: next },
            )
            &&& happens(
                gpu_export::Stage::Incoming { clip, j },
                gpu_export::Happened::Composited,
            ) == (
                gpu_export::Stage::Blending { clip, j },
                gpu_export::Act::Blend { node, progress: gpu_export::progress_at(j, window) },
            )
            &&& happens(gpu_export::Stage::Blending { clip, j }, gpu_export::Happened::Blended) == (
                gpu_export::Stage::BlendPush { clip, j },
                gpu_export::Act::Push,
            )
            &&& j + 1 < window ==> happens(
                gpu_export::Stage::BlendPush { clip, j },
                gpu_export::Happened::Pushed,
            ) == (
                gpu_export::Stage::Outgoing { clip, j: (j + 1) as u64 },
                gpu_export::Act::Pull { clip },
            )
            &&& j + 1 == window && !(clip + 2 < boundaries.len() && boundaries[clip + 2].window
                is None) ==> happens(
                gpu_export::Stage::BlendPush { clip, j },
                gpu_export::Happened::Pushed,
            ) == (
                gpu_export::Stage::Solo { clip: next },
                gpu_export::Act::Pull { clip: next },
            )
        }),
{
}

/// An export that ends early says why: who fell back, which blend failed and how far it had come,
/// or that the caller stopped it.
pub proof fn early_ends_say_why(
    boundaries: Seq<gpu_export::Boundary>,
    clip: usize,
    j: u64,
    window: u64,
)
    requires
        clip + 1 < boundaries.len(),
        boundaries[clip + 1].window == Some(window),
    ensures
        ({
            let after = |s: gpu_export::Stage, h: gpu_export::Happened|
                gpu_export::stepped(boundaries, s, h).1;
            &&& after(gpu_export::Stage::Solo { clip }, gpu_export::Happened::FellBack)
                == gpu_export::Act::Fail(gpu_export::DrainFailure::FrameFellBack)
            &&& after(gpu_export::Stage::Outgoing { clip, j }, gpu_export::Happened::FellBack)
                == gpu_export::Act::Fail(gpu_export::DrainFailure::OutgoingFellBack)
            &&& after(gpu_export::Stage::Incoming { clip, j }, gpu_export::Happened::FellBack)
                == gpu_export::Act::Fail(gpu_export::DrainFailure::IncomingFellBack)
            &&& after(gpu_export::Stage::Blending { clip, j }, gpu_export::Happened::BlendFailed)
                == gpu_export::Act::Fail(
                gpu_export::DrainFailure::BlendFailed {
                    progress: gpu_export::progress_at(j, window),
                },
            )
            &&& after(gpu_export::Stage::SoloPush { clip }, gpu_export::Happened::Stopped)
                == gpu_export::Act::Fail(gpu_export::DrainFailure::Cancelled)
            &&& after(gpu_export::Stage::BlendPush { clip, j }, gpu_export::Happened::Stopped)
                == gpu_export::Act::Fail(gpu_export::DrainFailure::Cancelled)
        }),
{
}

/// A frame rate is usable where it is a number above zero.
pub proof fn usable_rates_are_above_zero(rate: F64)
    ensures
        gpu_export::usable(Some(rate)) <==> rate.finite() && rate.units() > 0,
        !gpu_export::usable(None),
{
    accuracy::doubles_are_their_numbers();
    if rate.finite() {
        double::order_is_numeric(rate, F64 { bits: values::ZERO });
    }
}

/// The GPU export renders a transition where both layers blend, it renders the kind, both clips
/// have both trim points, the transition takes a frame at least and no more than the incoming clip
/// has, and the outgoing clip's handle gives as many; and no other.
pub proof fn transitions_are_taken_whole(
    outgoing: Clip,
    incoming: Clip,
    blendable: bool,
    rate: F64,
    source: Option<Duration>,
)
    ensures
        gpu_export::transition_accepted(outgoing, incoming, blendable, rate, source) <==> {
            let asked = gpu_export::frames_in(incoming.transition_duration, rate);
            let given = gpu_export::frames_in(
                crate::transition::effective(outgoing, incoming, source),
                rate,
            );
            &&& blendable
            &&& incoming.transition matches Some(kind) && gpu_export::exported(kind)
            &&& outgoing.in_point is Some && outgoing.out_point is Some
            &&& incoming.in_point is Some && incoming.out_point is Some
            &&& asked >= 1 && given == asked
            &&& asked <= gpu_export::frames_in(
                time::earlier(incoming.out_point->0, incoming.in_point->0),
                rate,
            )
        },
{
}

/// A layer composites alone as if it were not there where it is opaque and blends plainly; not
/// where it blends otherwise, nor where it is off opaque by two millionths or more.
pub proof fn opaque_layers_composite_unchanged(opacity: F32, mode: crate::gpu::RenderBlendMode)
    requires
        opacity.finite(),
        0 <= opacity.units() <= accuracy::single_unit(),
    ensures
        opacity.units() == accuracy::single_unit() ==> (gpu_export::neutral_composite(opacity, mode)
            <==> mode is Normal),
        mode !is Normal ==> !gpu_export::neutral_composite(opacity, mode),
        500_000 * (accuracy::single_unit() - opacity.units()) >= accuracy::single_unit()
            ==> !gpu_export::neutral_composite(opacity, mode),
{
    accuracy::singles_are_their_numbers();
    magnitude::lemma_pow2_values();
    power2::lemma_pow2_pos(149);
    let one = F32 { bits: values::S_ONE };
    let tiny = F32 { bits: values::S_MILLIONTH };
    let u = accuracy::single_unit();
    let d = single::difference(opacity, one);
    assert(one.turned().units() == -u);
    let n = (u - opacity.units()) as nat;
    assert(grid::grid(23, 0) == 0);
    if n == 0 {
        assert(d.unsigned() == single::signed(false, 0));
    } else {
        let top = 0x7F80_0000nat;
        crate::float::rounding::nearest_is_at_most(23, top, n, 1, one.magnitude() as nat);
        let k = grid::nearest(23, top, n, 1);
        grid::lemma_grid_increases(23, k, one.magnitude() as nat);
        crate::float::rounding::rounding_moves_by_half_a_step(
            23,
            top,
            n,
            1,
            one.magnitude() as nat,
        );
        assert(grid::spacing(23, one.magnitude() as nat) == 126);
        power2::lemma_pow2_adds(23, 126);
        assert(d == single::signed(true, k));
        assert(d.unsigned() == single::signed(false, k));
        single::order_is_numeric(d.unsigned(), tiny);
        let (g, step) = (grid::grid(23, k) as int, power2::pow2(126) as int);
        assert(u == 0x80_0000 * step);
        assert(d.unsigned().units() == g);
        assert(2 * (n - g) <= step);
        assert(tiny.finite() && 900_000 * tiny.units() <= u);
    }
}

} // verus!

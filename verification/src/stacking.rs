//! How a stack of layers lies on its canvas.

use vstd::arithmetic::power2;
use vstd::prelude::*;

use crate::filter::Rgb;
use crate::float::accuracy;
use crate::float::grid;
use crate::float::magnitude;
use crate::float::rounding;
use crate::float::single;
use crate::float::single::F32;
use crate::float::values;
use crate::gpu::{GpuEffect, GpuLayerPlan};
use crate::gpu_compositor;
use crate::gpu_compositor::{Change, LayerTransform, NodeParam, PlacedLayer};

verus! {

/// `n` to the nearest even number below it.
pub open spec fn evened(n: int) -> int {
    n - n % 2
}

/// Rounding a quotient moves it by half at most.
proof fn lemma_rescaled(num: int, den: int)
    requires
        num >= 0,
        den > 0,
    ensures
        2 * accuracy::gap(gpu_compositor::rescaled(num, den) * den, num) <= den,
        gpu_compositor::rescaled(num, den) >= 0,
{
    let q = gpu_compositor::rescaled(num, den);
    let a = num + den / 2;
    vstd::arithmetic::div_mod::lemma_fundamental_div_mod(a, den);
    vstd::arithmetic::div_mod::lemma_mod_bound(a, den);
    assert(den * q == q * den) by (nonlinear_arith);
    assert(q >= 0) by (nonlinear_arith)
        requires
            q * den > a - den,
            a >= 0,
            den > 0,
    ;
}

/// A fitted frame fills one side of the canvas and keeps its aspect on the other. A frame at least
/// as wide as the canvas for its height fills the width, one at least as high for its width fills
/// the height, each to an even number of pixels; the other side is to its own as the frame's are
/// to each other, to one pixel and a half.
pub proof fn fit_keeps_the_aspect(fw: u32, fh: u32, canvas: (u32, u32))
    requires
        fw > 0 && fh > 0,
    ensures
        ({
            let (w, h) = gpu_compositor::fitted(fw, fh, canvas);
            let (cw, ch) = (canvas.0 as int, canvas.1 as int);
            &&& w <= cw && h <= ch && w % 2 == 0 && h % 2 == 0
            &&& cw * fh <= ch * fw ==> w == evened(cw) && 2 * accuracy::gap(h * fw, cw * fh) <= 3
                * fw
            &&& ch * fw <= cw * fh ==> h == evened(ch) && 2 * accuracy::gap(w * fh, ch * fw) <= 3
                * fh
        }),
{
    let (cw, ch) = (canvas.0 as int, canvas.1 as int);
    let (a, b) = (ch * fw, cw * fh);
    assert(a >= 0 && b >= 0) by (nonlinear_arith)
        requires
            a == ch * fw,
            b == cw * fh,
            ch >= 0,
            cw >= 0,
            fw > 0,
            fh > 0,
    ;
    let (x, y) = (gpu_compositor::rescaled(a, fh as int), gpu_compositor::rescaled(b, fw as int));
    lemma_rescaled(a, fh as int);
    lemma_rescaled(b, fw as int);
    let w = gpu_compositor::even_within(x, cw);
    let h = gpu_compositor::even_within(y, ch);
    assert(0 <= w <= cw && 0 <= h <= ch);
    if b <= a {
        assert(x >= cw) by (nonlinear_arith)
            requires
                2 * (a - x * fh) <= fh,
                cw * fh <= a,
                fh > 0,
        ;
        lemma_side(y, ch, b, fw as int, a, fh as int);
    }
    if a <= b {
        assert(y >= ch) by (nonlinear_arith)
            requires
                2 * (b - y * fw) <= fw,
                ch * fw <= b,
                fw > 0,
        ;
        lemma_side(x, cw, a, fh as int, b, fw as int);
    }
}

/// A side that is not held by the canvas keeps its proportion.
proof fn lemma_side(v: int, limit: int, num: int, den: int, most: int, other: int)
    requires
        den > 0,
        v >= 0,
        limit >= 0,
        2 * accuracy::gap(v * den, num) <= den,
        num <= most,
        most == limit * den,
    ensures
        2 * accuracy::gap(gpu_compositor::even_within(v, limit) * den, num) <= 3 * den,
{
    let held = if v <= limit {
        v
    } else {
        limit
    };
    let r = gpu_compositor::even_within(v, limit);
    assert(held - 1 <= r <= held);
    assert(2 * accuracy::gap(held * den, num) <= den) by (nonlinear_arith)
        requires
            2 * accuracy::gap(v * den, num) <= den,
            num <= limit * den,
            held == v || (held == limit && v > limit),
            den > 0,
    ;
    assert(held * den - den <= r * den <= held * den) by (nonlinear_arith)
        requires
            held - 1 <= r <= held,
            den > 0,
    ;
}

/// A letterboxed frame is scaled on each axis to its fitted share of the canvas on that axis, and
/// stays centred and upright; one that fills the canvas is not scaled at all.
pub proof fn letterbox_scales_by_the_fit(fw: u32, fh: u32, canvas: (u32, u32))
    requires
        0 < canvas.0 < 0x100_0000 && 0 < canvas.1 < 0x100_0000,
        fw > 0 && fh > 0,
    ensures
        ({
            let (w, h) = gpu_compositor::fitted(fw, fh, canvas);
            let r = gpu_compositor::letterboxed(fw, fh, canvas);
            let u = accuracy::single_unit();
            &&& r is None <==> w == 0 || h == 0
            &&& r matches Some(t) ==> {
                &&& t.x.units() == 0 && t.y.units() == 0 && t.rotation.units() == 0
                &&& t.scale_x.finite() && t.scale_y.finite()
                &&& accuracy::P23 * accuracy::gap(t.scale_x.units() * canvas.0, w * u) <= w * u
                &&& accuracy::P23 * accuracy::gap(t.scale_y.units() * canvas.1, h * u) <= h * u
            }
        }),
{
    accuracy::singles_are_their_numbers();
    fit_keeps_the_aspect(fw, fh, canvas);
    let (w, h) = gpu_compositor::fitted(fw, fh, canvas);
    accuracy::part_is_accurate(w as nat, canvas.0 as nat);
    accuracy::part_is_accurate(h as nat, canvas.1 as nat);
    let u = accuracy::single_unit();
    vstd::arithmetic::power2::lemma_pow2_pos(149);
    assert(u * canvas.0 == canvas.0 * u && u * canvas.1 == canvas.1 * u) by (nonlinear_arith);
    assert(w * u >= 0 && h * u >= 0) by (nonlinear_arith)
        requires
            u > 0,
    ;
}

/// A plan with its two axes exchanged.
pub open spec fn plan_flipped(lp: GpuLayerPlan) -> GpuLayerPlan {
    GpuLayerPlan { x: lp.y, y: lp.x, scale_x: lp.scale_y, scale_y: lp.scale_x, ..lp }
}

/// A placement with its two axes exchanged.
pub open spec fn flipped(t: LayerTransform) -> LayerTransform {
    LayerTransform { x: t.y, y: t.x, scale_x: t.scale_y, scale_y: t.scale_x, ..t }
}

/// The two axes are placed by one rule: exchanging them in what is given exchanges them in what
/// comes out.
pub proof fn axes_are_placed_alike(
    index: int,
    lp: GpuLayerPlan,
    fit: LayerTransform,
    base: (u32, u32),
)
    ensures
        gpu_compositor::placed(index, plan_flipped(lp), flipped(fit), (base.1, base.0)) == (
        match gpu_compositor::placed(index, lp, fit, base) {
            Some(t) => Some(flipped(t)),
            None => None,
        }),
{
}

/// Each number of a placement follows its own axis: two layers that agree along one are placed
/// alike along it, wherever they are along the other. No layer above the bottom one is turned.
pub proof fn axes_are_placed_apart(
    index: int,
    a: GpuLayerPlan,
    b: GpuLayerPlan,
    fit: LayerTransform,
    base: (u32, u32),
)
    requires
        index > 0,
        gpu_compositor::placed(index, a, fit, base) is Some,
        gpu_compositor::placed(index, b, fit, base) is Some,
    ensures
        ({
            let p = gpu_compositor::placed(index, a, fit, base)->0;
            let q = gpu_compositor::placed(index, b, fit, base)->0;
            &&& a.x == b.x && a.scale_x == b.scale_x ==> p.x == q.x
            &&& a.y == b.y && a.scale_y == b.scale_y ==> p.y == q.y
            &&& a.scale_x == b.scale_x ==> p.scale_x == q.scale_x
            &&& a.scale_y == b.scale_y ==> p.scale_y == q.scale_y
            &&& p.rotation.units() == 0
            &&& p.scale_x == single::product(fit.scale_x, a.scale_x)
            &&& p.scale_y == single::product(fit.scale_y, a.scale_y)
            &&& p.x == gpu_compositor::overlay_offset(a.x, a.scale_x, base.0, fit.x)
            &&& p.y == gpu_compositor::overlay_offset(a.y, a.scale_y, base.1, fit.y)
        }),
{
    accuracy::singles_are_their_numbers();
}

/// The bottom layer is placed by the fit alone, whatever its own placement.
pub proof fn the_base_takes_the_fit(lp: GpuLayerPlan, fit: LayerTransform, base: (u32, u32))
    ensures
        gpu_compositor::placed(0, lp, fit, base) == Some(fit),
{
}

/// A placed layer is drawn with its plan's own blend mode, operator, opacity and order.
pub proof fn layers_are_drawn_as_planned(
    plans: Seq<GpuLayerPlan>,
    base: (u32, u32),
    canvas: (u32, u32),
    all: Seq<PlacedLayer>,
    i: int,
)
    requires
        gpu_compositor::assembled(plans, base, canvas, Some(all)),
        0 <= i < plans.len(),
    ensures
        all.len() == plans.len(),
        all[i].blend_mode == plans[i].blend_mode,
        all[i].composite_op == plans[i].composite_op,
        all[i].opacity == plans[i].opacity,
        all[i].z_order == plans[i].z_order,
        i == 0 ==> Some(all[0].transform) == gpu_compositor::letterboxed(base.0, base.1, canvas),
{
    let one = all[i];
}

/// A scale with both sides sets the size of what follows, width by width and height by height; any
/// other effect keeps the size.
pub proof fn scales_set_the_size(effects: Seq<GpuEffect>, e: GpuEffect, size: (u32, u32))
    ensures
        ({
            let before = gpu_compositor::chain_size(effects, size);
            let after = gpu_compositor::chain_size(effects.push(e), size);
            &&& e matches GpuEffect::Scale { width, height, .. } ==> (if width > 0 && height > 0 {
                after.0 == width && after.1 == height
            } else {
                after == before
            })
            &&& e !is Scale ==> after == before
            &&& effects.len() == 0 ==> before == size
        }),
{
    assert(effects.push(e).drop_last() =~= effects);
}

/// What a live node runs once it has taken a parameter.
pub open spec fn after_taking(e: GpuEffect, p: NodeParam) -> GpuEffect {
    match (e, p) {
        (GpuEffect::MotionBlur { sub_frames, .. }, NodeParam::MotionBlurShutter(angle)) =>
            GpuEffect::MotionBlur { shutter_angle: angle, sub_frames },
        (
            GpuEffect::ShapeMask { .. },
            NodeParam::ShapeMaskRect { x, y, width, height, invert },
        ) => GpuEffect::ShapeMask { x, y, width, height, invert },
        _ => e,
    }
}

/// A node that takes a parameter runs just what is asked for; one that stands as it is ran it
/// already; and only a mask or a motion blur with the same trail takes one.
pub proof fn parameters_make_the_difference(was: GpuEffect, now: GpuEffect)
    ensures
        gpu_compositor::change(was, now) matches Change::Takes(p) ==> after_taking(was, p) == now
            && was != now,
        gpu_compositor::change(was, now) is Stays && (was is ShapeMask || was is MotionBlur) ==> was
            == now,
        was is ShapeMask && now is ShapeMask ==> !(gpu_compositor::change(was, now) is Rebuilds),
        was matches GpuEffect::MotionBlur { sub_frames: a, .. } ==> (
        now matches GpuEffect::MotionBlur { sub_frames: b, .. } ==> (a == b
            <==> !(gpu_compositor::change(was, now) is Rebuilds))),
        !(was is ShapeMask && now is ShapeMask) && !(was is MotionBlur && now is MotionBlur)
            ==> !(gpu_compositor::change(was, now) is Takes),
{
}

/// The size of a number.
pub open spec fn size(x: F32) -> int {
    accuracy::gap(x.units(), 0)
}

/// The patterns of two, four and 256, and how wide numbers are spaced below them.
proof fn lemma_marks()
    ensures
        accuracy::single_unit() > 0,
        grid::grid(23, 0x4000_0000) == 2 * accuracy::single_unit(),
        grid::grid(23, 0x4080_0000) == 4 * accuracy::single_unit(),
        grid::grid(23, 0x4380_0000) == 256 * accuracy::single_unit(),
        grid::spacing(23, 0x4000_0000) == 127,
        grid::spacing(23, 0x4080_0000) == 128,
        grid::spacing(23, 0x4380_0000) == 134,
        accuracy::single_unit() == 0x40_0000 * power2::pow2(127),
        power2::pow2(128) == 2 * power2::pow2(127),
        power2::pow2(134) == 128 * power2::pow2(127),
        power2::pow2(127) > 0,
{
    magnitude::lemma_pow2_values();
    power2::lemma2_to64();
    power2::lemma_pow2_pos(149);
    power2::lemma_pow2_pos(127);
    power2::lemma_pow2_adds(22, 127);
    power2::lemma_pow2_adds(1, 127);
    power2::lemma_pow2_adds(7, 127);
    grid::lemma_grid_of(23, 127, 0x80_0000);
    grid::lemma_grid_of(23, 128, 0x80_0000);
    grid::lemma_grid_of(23, 134, 0x80_0000);
}

/// A quotient of numbers of single precision that is no greater than a mark is rounded by half of
/// the spacing there.
proof fn lemma_quotient(a: F32, b: F32, mark: nat)
    requires
        a.finite(),
        b.finite() && b.units() > 0,
        mark < 0x7F80_0000,
        size(a) * accuracy::single_unit() <= grid::grid(23, mark) * b.units(),
    ensures
        ({
            let r = single::quotient(a, b);
            &&& r.finite() && r.negative() == a.negative()
            &&& size(r) <= grid::grid(23, mark)
            &&& 2 * accuracy::gap(r.units() * b.units(), a.units() * accuracy::single_unit())
                <= power2::pow2(grid::spacing(23, mark)) * b.units()
        }),
{
    magnitude::lemma_pow2_values();
    let u = accuracy::single_unit();
    power2::lemma_pow2_pos(149);
    grid::lemma_grid_increases(23, 0, a.magnitude() as nat);
    grid::lemma_grid_increases(23, 0, b.magnitude() as nat);
    assert(grid::grid(23, 0) == 0);
    assert(!b.negative());
    assert(b.magnitude() > 0);
    let top = 0x7F80_0000nat;
    let n = (a.unsigned().units() as nat) * power2::pow2(149);
    let d = b.unsigned().units() as nat;
    assert(a.unsigned().units() == size(a));
    assert(b.unsigned() == b);
    rounding::nearest_is_at_most(23, top, n, d, mark);
    let k = grid::nearest(23, top, n, d);
    grid::lemma_grid_increases(23, k, mark);
    rounding::rounding_moves_by_half_a_step(23, top, n, d, mark);
    let r = single::quotient(a, b);
    assert(r == single::signed(a.negative(), k));
    let g = grid::grid(23, k) as int;
    if a.negative() {
        assert(r.units() == -g);
        assert((-g) * b.units() == -(g * b.units())) by (nonlinear_arith);
        assert(a.units() * u == -(size(a) * u)) by (nonlinear_arith)
            requires
                a.units() == -size(a),
        ;
    }
}

/// A sum of two numbers of single precision that is no greater than four is rounded by half of
/// the spacing there.
proof fn lemma_sum(a: F32, b: F32)
    requires
        a.finite() && b.finite(),
        accuracy::gap(a.units() + b.units(), 0) <= 4 * accuracy::single_unit(),
    ensures
        single::sum(a, b).finite(),
        size(single::sum(a, b)) <= 4 * accuracy::single_unit(),
        2 * accuracy::gap(single::sum(a, b).units(), a.units() + b.units()) <= power2::pow2(128),
{
    lemma_marks();
    let top = 0x7F80_0000nat;
    let s = a.units() + b.units();
    let n = accuracy::gap(s, 0) as nat;
    assert(grid::grid(23, 0) == 0) by {
        magnitude::lemma_pow2_values();
    }
    if n > 0 {
        rounding::nearest_is_at_most(23, top, n, 1, 0x4080_0000);
        let k = grid::nearest(23, top, n, 1);
        grid::lemma_grid_increases(23, k, 0x4080_0000);
        rounding::rounding_moves_by_half_a_step(23, top, n, 1, 0x4080_0000);
        assert(single::sum(a, b) == single::signed(s < 0, k));
    }
}

/// Whether a layer lies on its base along one axis: its near edge at `offset` pixels not before
/// the base's, and its far edge, `scale` of the base further, not after it, but for a `room`-th of
/// the base.
pub open spec fn lies_within(offset: F32, scale: F32, base: u32, room: int) -> bool {
    let (u, b) = (accuracy::single_unit(), base as int);
    &&& room * offset.units() >= -b * u
    &&& room * (offset.units() + scale.units() * b) <= (room + 1) * (b * u)
}

/// A layer that lies on its base, to the pixel, counts as inside along that axis; and one that
/// counts as inside lies on it but for one part in `2^19`.
pub proof fn inside_is_on_the_base(offset: F32, scale: F32, base: u32)
    requires
        0 < base < 0x100_0000,
        offset.finite() && scale.finite(),
        size(offset) <= 2 * (base * accuracy::single_unit()),
        0 <= scale.units() <= 2 * accuracy::single_unit(),
    ensures
        gpu_compositor::inside(offset, scale, base) ==> lies_within(offset, scale, base, 0x8_0000),
        offset.units() >= 0 && offset.units() + scale.units() * base <= base
            * accuracy::single_unit() ==> gpu_compositor::inside(offset, scale, base),
{
    lemma_marks();
    accuracy::singles_are_their_numbers();
    let u = accuracy::single_unit();
    let (b, w) = (base as int, power2::pow2(127) as int);
    accuracy::single_whole_is_exact(base as nat);
    let whole = single::whole(base as nat);
    assert(whole.units() > 0) by (nonlinear_arith)
        requires
            whole.units() == b * u,
            b > 0,
            u > 0,
    ;
    assert(size(offset) * u <= (2 * u) * whole.units()) by (nonlinear_arith)
        requires
            size(offset) <= 2 * (b * u),
            whole.units() == b * u,
            u > 0,
    ;
    lemma_quotient(offset, whole, 0x4000_0000);
    let edge = gpu_compositor::near_edge(offset, base);
    let (x, e, s) = (offset.units(), edge.units(), scale.units());
    assert(2 * accuracy::gap(e * b, x) <= w * b) by (nonlinear_arith)
        requires
            2 * accuracy::gap(e * (b * u), x * u) <= w * (b * u),
            u > 0,
    ;
    let (one, tiny) = (F32 { bits: values::S_ONE }, F32 { bits: values::S_MILLIONTH });
    lemma_sum(one, tiny);
    lemma_sum(edge, scale);
    let limit = single::sum(one, tiny);
    let sum = single::sum(edge, scale);
    let low = F32 { bits: values::S_MINUS_MILLIONTH };
    single::order_is_numeric(edge, low);
    single::order_is_numeric(limit, sum);
    let f = sum.units();
    if gpu_compositor::inside(offset, scale, base) {
        assert(e >= low.units());
        assert(f <= limit.units());
        assert(1_000_000 * (e + s) <= 1_000_000 * u + 2 * u);
        assert(0x8_0000 * x >= -b * u) by (nonlinear_arith)
            requires
                2 * (e * b - x) <= w * b,
                1_000_000 * e >= -2 * u + 1_000_000 * w,
                u == 0x40_0000 * w,
                b > 0,
                w > 0,
        ;
        assert(0x8_0000 * (x + s * b) <= 0x8_0001 * (b * u)) by (nonlinear_arith)
            requires
                2 * (x - e * b) <= w * b,
                1_000_000 * (e + s) <= 1_000_000 * u + 2 * u - 1_000_000 * w,
                u == 0x40_0000 * w,
                b > 0,
                w > 0,
        ;
    }
    if x >= 0 && x + s * b <= b * u {
        assert(2 * e >= -w) by (nonlinear_arith)
            requires
                2 * (x - e * b) <= w * b,
                x >= 0,
                b > 0,
        ;
        assert(2 * (e + s) <= 2 * u + w) by (nonlinear_arith)
            requires
                2 * (e * b - x) <= w * b,
                x + s * b <= b * u,
                b > 0,
        ;
    }
}

/// The centre of a layer above the bottom one stands from the canvas's centre as its offset on the
/// base says: its near edge, half of its own extent further, less half of the base, moved with
/// the base's own offset; in units of its own extent, and to one part in `2^14`.
#[verifier::rlimit(60)]
#[verifier::spinoff_prover]
pub proof fn overlays_stand_where_they_are_put(offset: F32, scale: F32, base: u32, fit: F32)
    requires
        0 < base < 0x100_0000,
        offset.finite() && scale.finite() && fit.finite(),
        size(offset) <= base * accuracy::single_unit(),
        size(fit) <= accuracy::single_unit(),
        accuracy::single_unit() <= 64 * scale.units(),
        scale.units() <= accuracy::single_unit(),
    ensures
        ({
            let r = gpu_compositor::overlay_offset(offset, scale, base, fit);
            let (u, b) = (accuracy::single_unit(), base as int);
            let (x, s, f) = (offset.units(), scale.units(), fit.units());
            let centre = 2 * x + s * b - b * u + 2 * (f * b);
            &&& r.finite()
            &&& 0x4000 * accuracy::gap(2 * ((r.units() * s) * b), centre * u) <= 2 * ((u * u) * b)
        }),
{
    lemma_marks();
    accuracy::singles_are_their_numbers();
    let u = accuracy::single_unit();
    let (b, w) = (base as int, power2::pow2(127) as int);
    accuracy::single_whole_is_exact(base as nat);
    let whole = single::whole(base as nat);
    assert(whole.units() > 0) by (nonlinear_arith)
        requires
            whole.units() == b * u,
            b > 0,
            u > 0,
    ;
    assert(size(offset) * u <= (2 * u) * whole.units()) by (nonlinear_arith)
        requires
            size(offset) <= b * u,
            whole.units() == b * u,
            u > 0,
            b > 0,
    ;
    lemma_quotient(offset, whole, 0x4000_0000);
    let edge = gpu_compositor::near_edge(offset, base);
    let (x, e, s, f) = (offset.units(), edge.units(), scale.units(), fit.units());
    assert(2 * accuracy::gap(e * b, x) <= w * b) by (nonlinear_arith)
        requires
            2 * accuracy::gap(e * (b * u), x * u) <= w * (b * u),
            u > 0,
    ;
    let two = F32 { bits: values::S_TWO };
    let half = F32 { bits: values::S_HALF };
    assert(two.finite() && half.finite());
    assert(s * u <= (2 * u) * (2 * u)) by (nonlinear_arith)
        requires
            s <= u,
            u > 0,
    ;
    lemma_quotient(scale, two, 0x4000_0000);
    let h = single::quotient(scale, two);
    assert(accuracy::gap(2 * h.units(), s) <= w) by (nonlinear_arith)
        requires
            2 * accuracy::gap(h.units() * (2 * u), s * u) <= w * (2 * u),
            u > 0,
    ;
    assert(accuracy::gap(e, 0) <= u + w) by (nonlinear_arith)
        requires
            2 * accuracy::gap(e * b, x) <= w * b,
            accuracy::gap(x, 0) <= b * u,
            b > 0,
            w > 0,
    ;
    lemma_sum(edge, h);
    let p = single::sum(edge, h);
    assert(half.turned().units() == -half.units());
    lemma_sum(p, half.turned());
    let q = single::difference(p, half);
    lemma_sum(q, fit);
    let t = single::sum(q, fit);
    assert(accuracy::gap(t.units(), 0) <= 4 * u);
    assert(size(t) * u <= (256 * u) * s) by (nonlinear_arith)
        requires
            size(t) <= 4 * u,
            u <= 64 * s,
            u > 0,
    ;
    lemma_quotient(t, scale, 0x4380_0000);
    let r = single::quotient(t, scale);
    let v = t.units();
    let rs = r.units() * s;
    assert(accuracy::gap(rs, v * u) <= 64 * (w * s)) by (nonlinear_arith)
        requires
            2 * accuracy::gap(rs, v * u) <= (128 * w) * s,
    ;
    assert(w * s <= w * u) by (nonlinear_arith)
        requires
            s <= u,
            w > 0,
    ;
    // The sum of the five terms, doubled and times the base.
    let centre = 2 * x + s * b - b * u + 2 * (f * b);
    assert(accuracy::gap(2 * v, 2 * e + s - u + 2 * f) <= 7 * w);
    assert(accuracy::gap((2 * v) * b, centre) <= 8 * (w * b)) by (nonlinear_arith)
        requires
            accuracy::gap(2 * v, 2 * e + s - u + 2 * f) <= 7 * w,
            2 * accuracy::gap(e * b, x) <= w * b,
            centre == 2 * x + s * b - b * u + 2 * (f * b),
            b > 0,
    ;
    let (left, right) = (2 * (rs * b), centre * u);
    let (wub, middle) = ((w * u) * b, ((2 * v) * b) * u);
    assert(accuracy::gap(left, middle) <= 128 * wub) by (nonlinear_arith)
        requires
            accuracy::gap(rs, v * u) <= 64 * (w * u),
            left == 2 * (rs * b),
            middle == ((2 * v) * b) * u,
            wub == (w * u) * b,
            b > 0,
    ;
    assert(accuracy::gap(middle, right) <= 8 * wub) by (nonlinear_arith)
        requires
            accuracy::gap((2 * v) * b, centre) <= 8 * (w * b),
            middle == ((2 * v) * b) * u,
            right == centre * u,
            wub == (w * u) * b,
            u > 0,
    ;
    assert((u * u) * b == 0x40_0000 * wub) by (nonlinear_arith)
        requires
            u == 0x40_0000 * w,
            wub == (w * u) * b,
    ;
    assert(wub >= 0) by (nonlinear_arith)
        requires
            wub == (w * u) * b,
            w > 0,
            u > 0,
            b > 0,
    ;
}

/// A layer above the bottom one is placed exactly where it is upright, to a millionth of a degree,
/// has some extent along both axes and lies inside a base of some size along both.
pub proof fn overlays_lie_inside_the_base(
    index: int,
    lp: GpuLayerPlan,
    fit: LayerTransform,
    base: (u32, u32),
)
    requires
        index > 0,
        0 < base.0 < 0x100_0000 && 0 < base.1 < 0x100_0000,
        lp.rotation.finite() && lp.scale_x.finite() && lp.scale_y.finite(),
    ensures
        gpu_compositor::placed(index, lp, fit, base) is Some <==> {
            &&& size(lp.rotation) <= (F32 { bits: values::S_MILLIONTH }).units()
            &&& lp.scale_x.units() > 0 && lp.scale_y.units() > 0
            &&& gpu_compositor::inside(lp.x, lp.scale_x, base.0)
            &&& gpu_compositor::inside(lp.y, lp.scale_y, base.1)
        },
{
    accuracy::singles_are_their_numbers();
    magnitude::lemma_pow2_values();
    power2::lemma_pow2_pos(149);
    let u = accuracy::single_unit();
    let nothing = F32 { bits: values::S_ZERO };
    accuracy::single_whole_is_exact(base.0 as nat);
    accuracy::single_whole_is_exact(base.1 as nat);
    let (w, h) = (single::whole(base.0 as nat), single::whole(base.1 as nat));
    assert(w.units() > 0 && h.units() > 0) by (nonlinear_arith)
        requires
            w.units() == base.0 * u,
            h.units() == base.1 * u,
            base.0 > 0,
            base.1 > 0,
            u > 0,
    ;
    single::order_is_numeric(w, nothing);
    single::order_is_numeric(h, nothing);
    single::order_is_numeric(lp.scale_x, nothing);
    single::order_is_numeric(lp.scale_y, nothing);
    let tiny = F32 { bits: values::S_MILLIONTH };
    single::order_is_numeric(tiny, lp.rotation.unsigned());
    grid::lemma_grid_increases(23, 0, lp.rotation.magnitude() as nat);
    assert(lp.rotation.unsigned().units() == size(lp.rotation));
}

/// Whether two numbers are defined and the same, but for the sign of zero.
pub open spec fn alike(x: F32, y: F32) -> bool {
    !x.nan() && !y.nan() && x.rank() == y.rank()
}

/// Whether two colours are alike, channel by channel.
pub open spec fn colours_alike(x: Rgb, y: Rgb) -> bool {
    alike(x.r, y.r) && alike(x.g, y.g) && alike(x.b, y.b)
}

/// A node that stands as it is runs what is asked for, number by number: no parameter of an
/// effect is overlooked.
pub proof fn no_parameter_is_overlooked(a: GpuEffect, b: GpuEffect)
    requires
        crate::gpu::effects_agree(a, b),
    ensures
        a matches GpuEffect::ColorGrade {
            brightness,
            contrast,
            saturation,
            temperature,
            tint,
        } ==> (
        b matches GpuEffect::ColorGrade {
            brightness: f,
            contrast: g,
            saturation: h,
            temperature: i,
            tint: j,
        } && alike(brightness, f) && alike(contrast, g) && alike(saturation, h) && alike(
            temperature,
            i,
        ) && alike(tint, j)),
        a matches GpuEffect::Scale { width, height, algorithm } ==> (b matches GpuEffect::Scale {
            width: f,
            height: g,
            algorithm: h,
        } && width == f && height == g && algorithm == h),
        a matches GpuEffect::Blur { sigma } ==> (b matches GpuEffect::Blur { sigma: f } && alike(
            sigma,
            f,
        )),
        a matches GpuEffect::Sharpen { radius, strength } ==> (b matches GpuEffect::Sharpen {
            radius: f,
            strength: g,
        } && alike(radius, f) && alike(strength, g)),
        a matches GpuEffect::Vignette { radius, strength, feather } ==> (
        b matches GpuEffect::Vignette { radius: f, strength: g, feather: h } && alike(radius, f)
            && alike(strength, g) && alike(feather, h)),
        a matches GpuEffect::FilmGrain { luma_strength, chroma_strength, frame_index } ==> (
        b matches GpuEffect::FilmGrain { luma_strength: f, chroma_strength: g, frame_index: h }
            && alike(luma_strength, f) && alike(chroma_strength, g) && frame_index == h),
        a matches GpuEffect::Glow { threshold, radius, intensity } ==> (b matches GpuEffect::Glow {
            threshold: f,
            radius: g,
            intensity: h,
        } && alike(threshold, f) && alike(radius, g) && alike(intensity, h)),
        a matches GpuEffect::ColorWheels { shadows_lift, midtones_gamma, highlights_gain } ==> (
        b matches GpuEffect::ColorWheels {
            shadows_lift: f,
            midtones_gamma: g,
            highlights_gain: h,
        } && colours_alike(shadows_lift, f) && colours_alike(midtones_gamma, g) && colours_alike(
            highlights_gain,
            h,
        )),
        a matches GpuEffect::Hsl { hue_shift, saturation, lightness } ==> (
        b matches GpuEffect::Hsl { hue_shift: f, saturation: g, lightness: h } && alike(
            hue_shift,
            f,
        ) && alike(saturation, g) && alike(lightness, h)),
        a matches GpuEffect::Lut { path } ==> (b matches GpuEffect::Lut { path: f } && path@ == f@),
        a matches GpuEffect::ChromaKey { key_color, tolerance, softness } ==> (
        b matches GpuEffect::ChromaKey { key_color: f, tolerance: g, softness: h }
            && colours_alike(key_color, f) && alike(tolerance, g) && alike(softness, h)),
        a matches GpuEffect::LumaMask { invert } ==> (b matches GpuEffect::LumaMask { invert: f }
            && invert == f),
        a matches GpuEffect::Curves { master, red, green, blue } ==> (
        b matches GpuEffect::Curves { master: f, red: g, green: h, blue: i } && {
            &&& master.points@.len() == f.points@.len() && red.points@.len() == g.points@.len()
            &&& green.points@.len() == h.points@.len() && blue.points@.len() == i.points@.len()
            &&& forall|k: int|
                #![trigger master.points@[k]]
                0 <= k < master.points@.len() ==> alike(
                    master.points@[k].input,
                    f.points@[k].input,
                ) && alike(master.points@[k].output, f.points@[k].output)
            &&& forall|k: int|
                #![trigger red.points@[k]]
                0 <= k < red.points@.len() ==> alike(red.points@[k].input, g.points@[k].input)
                    && alike(red.points@[k].output, g.points@[k].output)
            &&& forall|k: int|
                #![trigger green.points@[k]]
                0 <= k < green.points@.len() ==> alike(green.points@[k].input, h.points@[k].input)
                    && alike(green.points@[k].output, h.points@[k].output)
            &&& forall|k: int|
                #![trigger blue.points@[k]]
                0 <= k < blue.points@.len() ==> alike(blue.points@[k].input, i.points@[k].input)
                    && alike(blue.points@[k].output, i.points@[k].output)
        }),
{
}

} // verus!

//! The decisions of the GPU compositor: where each layer goes, and when a cached effect graph
//! runs again.

use vstd::prelude::*;

use crate::float::single;
use crate::float::single::F32;
use crate::float::values;
use crate::gpu;
use crate::gpu::{
    map_scene, GpuEffect, GpuLayerPlan, GpuLayerSource, GpuMapping, RenderBlendMode,
    RenderCompositeOp,
};
use crate::time::Duration;

verus! {

/// A layer's placement as the GPU compositor takes it: an offset and a scale as parts of the
/// canvas, and a rotation in counter-clockwise radians.
#[derive(Clone, Copy, Debug, PartialEq, Eq, Structural)]
pub struct LayerTransform {
    pub x: F32,
    pub y: F32,
    pub scale_x: F32,
    pub scale_y: F32,
    pub rotation: F32,
}

/// The placement that changes nothing.
pub open spec fn identity() -> LayerTransform {
    LayerTransform {
        x: F32 { bits: values::S_ZERO },
        y: F32 { bits: values::S_ZERO },
        scale_x: F32 { bits: values::S_ONE },
        scale_y: F32 { bits: values::S_ONE },
        rotation: F32 { bits: values::S_ZERO },
    }
}

impl LayerTransform {
    /// The placement that changes nothing.
    pub fn identity() -> (r: LayerTransform)
        ensures
            r == identity(),
    {
        LayerTransform {
            x: F32 { bits: values::S_ZERO },
            y: F32 { bits: values::S_ZERO },
            scale_x: F32 { bits: values::S_ONE },
            scale_y: F32 { bits: values::S_ONE },
            rotation: F32 { bits: values::S_ZERO },
        }
    }
}

/// `num / den` to the nearest whole number, halves upwards.
pub open spec fn rescaled(num: int, den: int) -> int {
    (num + den / 2) / den
}

/// The largest even number that is at most `v` and at most `limit`.
pub open spec fn even_within(v: int, limit: int) -> int {
    (if v <= limit {
        v
    } else {
        limit
    }) / 2 * 2
}

/// The size of a frame fitted into the canvas: each side keeps the frame's aspect, is held to
/// the canvas and rounded down to an even number. A frame with no area takes the canvas.
pub open spec fn fitted(fw: u32, fh: u32, canvas: (u32, u32)) -> (u32, u32) {
    if fw == 0 || fh == 0 {
        canvas
    } else {
        (
            even_within(rescaled(canvas.1 * fw, fh as int), canvas.0 as int) as u32,
            even_within(rescaled(canvas.0 * fh, fw as int), canvas.1 as int) as u32,
        )
    }
}

fn fit_side(other: u32, num: u32, den: u32, limit: u32) -> (r: u32)
    requires
        den > 0,
    ensures
        r == even_within(rescaled(other * num, den as int), limit as int),
{
    assert(other * num <= 0xFFFF_FFFF * 0xFFFF_FFFF) by (nonlinear_arith)
        requires
            0 <= other <= 0xFFFF_FFFF,
            0 <= num <= 0xFFFF_FFFF,
    ;
    assert(other * num >= 0) by (nonlinear_arith)
        requires
            other >= 0,
            num >= 0,
    ;
    let product: u64 = (other as u64) * (num as u64);
    let d: u64 = den as u64;
    let v: u64 = (product + d / 2) / d;
    let held: u64 = if v <= limit as u64 {
        v
    } else {
        limit as u64
    };
    (held / 2 * 2) as u32
}

/// The size that an `fw` by `fh` frame scales to when fitted into the canvas.
pub fn fit_size(fw: u32, fh: u32, canvas: (u32, u32)) -> (r: (u32, u32))
    ensures
        r == fitted(fw, fh, canvas),
{
    if fw == 0 || fh == 0 {
        return canvas;
    }
    let (cw, ch) = canvas;
    (fit_side(ch, fw, fh, cw), fit_side(cw, fh, fw, ch))
}

/// A part of a pixel count.
pub open spec fn share_of(a: u32, b: u32) -> F32 {
    single::quotient(single::whole(a as nat), single::whole(b as nat))
}

fn px(v: u32) -> (r: F32)
    ensures
        r == single::whole(v as nat),
{
    F32::from_whole(v as u128)
}

fn ratio(a: u32, b: u32) -> (r: F32)
    ensures
        r == share_of(a, b),
{
    px(a).over(px(b))
}

/// The placement that fits a frame into the canvas as a centred band, or `None` where a side
/// of the band rounds away to nothing.
pub open spec fn letterboxed(fw: u32, fh: u32, canvas: (u32, u32)) -> Option<LayerTransform> {
    let (w, h) = fitted(fw, fh, canvas);
    if w == 0 || h == 0 {
        None
    } else if (w, h) == canvas {
        Some(identity())
    } else {
        Some(
            LayerTransform {
                scale_x: share_of(w, canvas.0),
                scale_y: share_of(h, canvas.1),
                ..identity()
            },
        )
    }
}

/// The placement that fits an `fw` by `fh` frame into the canvas, or `None` where the fit
/// leaves no band to draw.
pub fn letterbox_transform(fw: u32, fh: u32, canvas: (u32, u32)) -> (r: Option<LayerTransform>)
    ensures
        r == letterboxed(fw, fh, canvas),
{
    let (fit_w, fit_h) = fit_size(fw, fh, canvas);
    if fit_w == 0 || fit_h == 0 {
        return None;
    }
    if fit_w == canvas.0 && fit_h == canvas.1 {
        return Some(LayerTransform::identity());
    }
    let mut t = LayerTransform::identity();
    t.scale_x = ratio(fit_w, canvas.0);
    t.scale_y = ratio(fit_h, canvas.1);
    Some(t)
}

/// Where an overlay's near edge stands on the base, as a part of it.
pub open spec fn near_edge(offset: F32, base: u32) -> F32 {
    single::quotient(offset, single::whole(base as nat))
}

/// Whether an overlay lies on the base along one axis, to a millionth.
pub open spec fn inside(offset: F32, scale: F32, base: u32) -> bool {
    let edge = near_edge(offset, base);
    &&& !single::less(edge, F32 { bits: values::S_MINUS_MILLIONTH })
    &&& !single::less(
        single::sum(F32 { bits: values::S_ONE }, F32 { bits: values::S_MILLIONTH }),
        single::sum(edge, scale),
    )
}

/// Whether an overlay has a placement: unrotated, of some extent, on a base of some size, and
/// nowhere beyond the base's edges.
pub open spec fn placeable(lp: GpuLayerPlan, base: (u32, u32)) -> bool {
    let nothing = F32 { bits: values::S_ZERO };
    &&& !single::less(F32 { bits: values::S_MILLIONTH }, lp.rotation.unsigned())
    &&& !single::at_most(single::whole(base.0 as nat), nothing)
    &&& !single::at_most(single::whole(base.1 as nat), nothing)
    &&& !single::at_most(lp.scale_x, nothing)
    &&& !single::at_most(lp.scale_y, nothing)
    &&& inside(lp.x, lp.scale_x, base.0)
    &&& inside(lp.y, lp.scale_y, base.1)
}

/// The offset of an overlay along one axis: its centre's distance from the base's, moved with
/// the base's own offset, in units of its scale.
pub open spec fn overlay_offset(offset: F32, scale: F32, base: u32, fit: F32) -> F32 {
    single::quotient(
        single::sum(
            single::difference(
                single::sum(
                    near_edge(offset, base),
                    single::quotient(scale, F32 { bits: values::S_TWO }),
                ),
                F32 { bits: values::S_HALF },
            ),
            fit,
        ),
        scale,
    )
}

/// The placement of a layer: the base takes the fit alone, and every other layer is placed on
/// the base, or has no placement.
pub open spec fn placed(
    index: int,
    lp: GpuLayerPlan,
    fit: LayerTransform,
    base: (u32, u32),
) -> Option<LayerTransform> {
    if index == 0 {
        Some(fit)
    } else if !placeable(lp, base) {
        None
    } else {
        Some(
            LayerTransform {
                x: overlay_offset(lp.x, lp.scale_x, base.0, fit.x),
                y: overlay_offset(lp.y, lp.scale_y, base.1, fit.y),
                scale_x: single::product(fit.scale_x, lp.scale_x),
                scale_y: single::product(fit.scale_y, lp.scale_y),
                rotation: F32 { bits: values::S_ZERO },
            },
        )
    }
}

fn is_inside(offset: F32, scale: F32, base: u32) -> (r: bool)
    ensures
        r == inside(offset, scale, base),
{
    let edge = offset.over(px(base));
    let limit = (F32 { bits: values::S_ONE }).plus(F32 { bits: values::S_MILLIONTH });
    !edge.below(F32 { bits: values::S_MINUS_MILLIONTH }) && !limit.below(edge.plus(scale))
}

fn offset_on(offset: F32, scale: F32, base: u32, fit: F32) -> (r: F32)
    ensures
        r == overlay_offset(offset, scale, base, fit),
{
    offset.over(px(base)).plus(scale.over(F32 { bits: values::S_TWO })).minus(
        F32 { bits: values::S_HALF },
    ).plus(fit).over(scale)
}

/// The placement of the layer at `index` on a base of the given size, or `None` where it has no
/// GPU equivalent.
///
/// The base's own placement is ignored: it takes the fit. Any other layer is stretched to the
/// base, scaled, and put with its top left corner at its offset in base pixels. One that is
/// rotated, has no extent or hangs off the base's edge has no placement.
pub fn layer_transform(
    index: usize,
    lp: &GpuLayerPlan,
    base_fit: &LayerTransform,
    base: (u32, u32),
) -> (r: Option<LayerTransform>)
    ensures
        r == placed(index as int, *lp, *base_fit, base),
{
    if index == 0 {
        return Some(*base_fit);
    }
    if (F32 { bits: values::S_MILLIONTH }).below(lp.rotation.abs()) {
        return None;
    }
    let nothing = F32 { bits: values::S_ZERO };
    if px(base.0).at_most(nothing) || px(base.1).at_most(nothing) || lp.scale_x.at_most(nothing)
        || lp.scale_y.at_most(nothing) {
        return None;
    }
    if !is_inside(lp.x, lp.scale_x, base.0) || !is_inside(lp.y, lp.scale_y, base.1) {
        return None;
    }
    Some(
        LayerTransform {
            x: offset_on(lp.x, lp.scale_x, base.0, base_fit.x),
            y: offset_on(lp.y, lp.scale_y, base.1, base_fit.y),
            scale_x: base_fit.scale_x.times(lp.scale_x),
            scale_y: base_fit.scale_y.times(lp.scale_y),
            rotation: F32 { bits: values::S_ZERO },
        },
    )
}

/// A layer ready to draw.
#[derive(Clone, Copy, Debug, PartialEq, Eq, Structural)]
pub struct PlacedLayer {
    pub transform: LayerTransform,
    pub blend_mode: RenderBlendMode,
    pub composite_op: RenderCompositeOp,
    pub opacity: F32,
    pub z_order: i32,
}

/// A planned layer drawn at `transform`.
pub open spec fn drawn(lp: GpuLayerPlan, transform: LayerTransform) -> PlacedLayer {
    PlacedLayer {
        transform,
        blend_mode: lp.blend_mode,
        composite_op: lp.composite_op,
        opacity: lp.opacity,
        z_order: lp.z_order,
    }
}

/// Whether `r` places a whole stack: nothing where there is no layer, where the base has no
/// fit, or where a layer has no placement; else every layer, in order.
pub open spec fn assembled(
    plans: Seq<GpuLayerPlan>,
    base: (u32, u32),
    canvas: (u32, u32),
    r: Option<Seq<PlacedLayer>>,
) -> bool {
    match letterboxed(base.0, base.1, canvas) {
        None => r is None,
        Some(fit) => {
            if plans.len() == 0 || exists|i: int|
                0 <= i < plans.len() && placed(i, #[trigger] plans[i], fit, base) is None {
                r is None
            } else {
                r matches Some(all) && all.len() == plans.len() && forall|i: int|
                    #![trigger all[i]]
                    0 <= i < all.len() ==> Some(all[i].transform) == placed(
                        i,
                        plans[i],
                        fit,
                        base,
                    ) && all[i] == drawn(plans[i], all[i].transform)
            }
        },
    }
}

/// The contents of an optional list.
pub open spec fn listed(r: Option<Vec<PlacedLayer>>) -> Option<Seq<PlacedLayer>> {
    match r {
        Some(v) => Some(v@),
        None => None,
    }
}

/// Places a stack of layers whose base frame has the size `base`.
///
/// The whole stack has one fit, that of its base, as the CPU compositor fits the finished
/// composite; one layer without a placement leaves the frame to the CPU.
pub fn assemble(plans: &Vec<GpuLayerPlan>, base: (u32, u32), canvas: (u32, u32)) -> (r: Option<
    Vec<PlacedLayer>,
>)
    ensures
        assembled(plans@, base, canvas, listed(r)),
{
    if plans.len() == 0 {
        return None;
    }
    let base_fit = match letterbox_transform(base.0, base.1, canvas) {
        Some(fit) => fit,
        None => {
            return None;
        },
    };
    let mut all: Vec<PlacedLayer> = Vec::new();
    let mut i: usize = 0;
    while i < plans.len()
        invariant
            i <= plans@.len(),
            plans@.len() > 0,
            letterboxed(base.0, base.1, canvas) == Some(base_fit),
            all@.len() == i,
            forall|j: int|
                0 <= j < i ==> placed(j, #[trigger] plans@[j], base_fit, base) is Some,
            forall|j: int|
                #![trigger all@[j]]
                0 <= j < i ==> Some(all@[j].transform) == placed(j, plans@[j], base_fit, base)
                    && all@[j] == drawn(plans@[j], all@[j].transform),
        decreases plans@.len() - i,
    {
        let lp = &plans[i];
        match layer_transform(i, lp, &base_fit, base) {
            Some(transform) => {
                all.push(
                    PlacedLayer {
                        transform,
                        blend_mode: lp.blend_mode,
                        composite_op: lp.composite_op,
                        opacity: lp.opacity,
                        z_order: lp.z_order,
                    },
                );
            },
            None => {
                assert(placed(i as int, plans@[i as int], base_fit, base) is None);
                return None;
            },
        }
        i = i + 1;
    }
    Some(all)
}

/// A parameter that a live node takes without being built anew.
#[derive(Clone, Copy, Debug, PartialEq, Eq, Structural)]
pub enum NodeParam {
    /// The shutter of a motion blur, in degrees.
    MotionBlurShutter(F32),
    /// The rectangle of a mask.
    ShapeMaskRect { x: u32, y: u32, width: u32, height: u32, invert: bool },
}

/// How a cached graph runs for the next effect list.
#[derive(Debug, PartialEq)]
pub enum Reuse {
    /// As it stands.
    AsIs,
    /// Once these parameters are applied.
    WithParams(Vec<NodeParam>),
}

/// How one node comes from one frame's effect to the next one's.
pub enum Change {
    /// It stands as it is.
    Stays,
    /// It takes a parameter.
    Takes(NodeParam),
    /// It has to be built anew.
    Rebuilds,
}

/// How a node built for `was` comes to run `now`.
pub open spec fn change(was: GpuEffect, now: GpuEffect) -> Change {
    match (was, now) {
        (
            GpuEffect::MotionBlur { shutter_angle: old_angle, sub_frames: old_count },
            GpuEffect::MotionBlur { shutter_angle, sub_frames },
        ) => {
            if old_count != sub_frames {
                Change::Rebuilds
            } else if old_angle != shutter_angle {
                Change::Takes(NodeParam::MotionBlurShutter(shutter_angle))
            } else {
                Change::Stays
            }
        },
        (
            GpuEffect::ShapeMask { x: x0, y: y0, width: w0, height: h0, invert: i0 },
            GpuEffect::ShapeMask { x, y, width, height, invert },
        ) => {
            if x0 == x && y0 == y && w0 == width && h0 == height && i0 == invert {
                Change::Stays
            } else {
                Change::Takes(NodeParam::ShapeMaskRect { x, y, width, height, invert })
            }
        },
        _ => {
            if gpu::effects_agree(was, now) {
                Change::Stays
            } else {
                Change::Rebuilds
            }
        },
    }
}

/// Whether a graph built for `cached` can come to run `next`.
pub open spec fn reusable(cached: Seq<GpuEffect>, next: Seq<GpuEffect>) -> bool {
    &&& cached.len() == next.len()
    &&& forall|i: int|
        0 <= i < cached.len() ==> !(change(#[trigger] cached[i], next[i]) is Rebuilds)
}

/// The parameters that a graph built for `cached` takes to run `next`, in order.
pub open spec fn params_of(cached: Seq<GpuEffect>, next: Seq<GpuEffect>) -> Seq<NodeParam>
    decreases cached.len(),
{
    if cached.len() == 0 || next.len() == 0 {
        Seq::empty()
    } else {
        let rest = params_of(cached.drop_last(), next.drop_last());
        match change(cached.last(), next.last()) {
            Change::Takes(param) => rest.push(param),
            _ => rest,
        }
    }
}

/// Whether `r` says how `next` runs on a graph built for `cached`.
pub open spec fn reuse_is(
    cached: Seq<GpuEffect>,
    next: Seq<GpuEffect>,
    r: Option<Reuse>,
) -> bool {
    if !reusable(cached, next) {
        r is None
    } else {
        let params = params_of(cached, next);
        if params.len() == 0 {
            r == Some(Reuse::AsIs)
        } else {
            r matches Some(Reuse::WithParams(p)) && p@ == params
        }
    }
}

fn change_of(was: &GpuEffect, now: &GpuEffect) -> (r: Change)
    ensures
        r == change(*was, *now),
{
    match (was, now) {
        (
            GpuEffect::MotionBlur { shutter_angle: old_angle, sub_frames: old_count },
            GpuEffect::MotionBlur { shutter_angle, sub_frames },
        ) => {
            if *old_count != *sub_frames {
                Change::Rebuilds
            } else if old_angle.to_bits() != shutter_angle.to_bits() {
                Change::Takes(NodeParam::MotionBlurShutter(*shutter_angle))
            } else {
                Change::Stays
            }
        },
        (
            GpuEffect::ShapeMask { x: x0, y: y0, width: w0, height: h0, invert: i0 },
            GpuEffect::ShapeMask { x, y, width, height, invert },
        ) => {
            if *x0 == *x && *y0 == *y && *w0 == *width && *h0 == *height && *i0 == *invert {
                Change::Stays
            } else {
                Change::Takes(
                    NodeParam::ShapeMaskRect {
                        x: *x,
                        y: *y,
                        width: *width,
                        height: *height,
                        invert: *invert,
                    },
                )
            }
        },
        _ => {
            if gpu::same_effect(was, now) {
                Change::Stays
            } else {
                Change::Rebuilds
            }
        },
    }
}

/// Whether `next` can run on a graph built for `cached`, and with which parameters.
///
/// Only what a live node takes may differ: a mask's rectangle, and the shutter of a motion
/// blur, bit by bit. Anything else that differs is built into its node.
pub fn param_update(cached: &Vec<GpuEffect>, next: &Vec<GpuEffect>) -> (r: Option<Reuse>)
    ensures
        reuse_is(cached@, next@, r),
{
    if cached.len() != next.len() {
        return None;
    }
    let mut params: Vec<NodeParam> = Vec::new();
    let mut i: usize = 0;
    while i < cached.len()
        invariant
            i <= cached@.len(),
            cached@.len() == next@.len(),
            params@ == params_of(cached@.take(i as int), next@.take(i as int)),
            forall|j: int|
                0 <= j < i ==> !(change(#[trigger] cached@[j], next@[j]) is Rebuilds),
        decreases cached@.len() - i,
    {
        proof {
            let a = cached@.take(i as int + 1);
            let b = next@.take(i as int + 1);
            assert(a.drop_last() =~= cached@.take(i as int));
            assert(b.drop_last() =~= next@.take(i as int));
            assert(a.last() == cached@[i as int] && b.last() == next@[i as int]);
        }
        match change_of(&cached[i], &next[i]) {
            Change::Stays => {},
            Change::Takes(param) => {
                params.push(param);
            },
            Change::Rebuilds => {
                assert(change(cached@[i as int], next@[i as int]) is Rebuilds);
                return None;
            },
        }
        i = i + 1;
    }
    assert(cached@.take(cached@.len() as int) =~= cached@);
    assert(next@.take(next@.len() as int) =~= next@);
    if params.len() == 0 {
        Some(Reuse::AsIs)
    } else {
        Some(Reuse::WithParams(params))
    }
}

/// The size of a frame once an effect has run on it: that of the target for a scale with both
/// sides given, else as it was.
pub open spec fn sized(size: (u32, u32), effect: GpuEffect) -> (u32, u32) {
    match effect {
        GpuEffect::Scale { width, height, .. } => {
            if width == 0 || height == 0 {
                size
            } else {
                (width, height)
            }
        },
        _ => size,
    }
}

/// The size of a frame once a whole chain has run on it.
pub open spec fn chain_size(effects: Seq<GpuEffect>, size: (u32, u32)) -> (u32, u32)
    decreases effects.len(),
{
    if effects.len() == 0 {
        size
    } else {
        sized(chain_size(effects.drop_last(), size), effects.last())
    }
}

/// The size that a frame has once the effects have run on it, in order.
pub fn output_size(effects: &Vec<GpuEffect>, size: (u32, u32)) -> (r: (u32, u32))
    ensures
        r == chain_size(effects@, size),
{
    let mut out: (u32, u32) = size;
    let mut i: usize = 0;
    while i < effects.len()
        invariant
            i <= effects@.len(),
            out == chain_size(effects@.take(i as int), size),
        decreases effects@.len() - i,
    {
        proof {
            let sofar = effects@.take(i as int + 1);
            assert(sofar.drop_last() =~= effects@.take(i as int));
            assert(sofar.last() == effects@[i as int]);
        }
        if let GpuEffect::Scale { width, height, .. } = &effects[i] {
            if *width != 0 && *height != 0 {
                out = (*width, *height);
            }
        }
        i = i + 1;
    }
    assert(effects@.take(effects@.len() as int) =~= effects@);
    out
}

/// What a cached effect graph holds and was built for.
pub struct CachedGraph {
    pub effects: Seq<GpuEffect>,
    pub in_size: (u32, u32),
    pub out_size: (u32, u32),
}

/// The record of one cached effect graph.
struct CachedEffects {
    layer_count: usize,
    layer_idx: usize,
    effects: Vec<GpuEffect>,
    in_size: (u32, u32),
    out_size: (u32, u32),
}

impl CachedEffects {
    spec fn key(self) -> (int, int) {
        (self.layer_count as int, self.layer_idx as int)
    }

    spec fn model(self) -> CachedGraph {
        CachedGraph {
            effects: self.effects@,
            in_size: self.in_size,
            out_size: self.out_size,
        }
    }
}

/// What is known of the cached effect graphs: for each layer count and position, the effects
/// that the graph's nodes hold, and the frame sizes that it takes and gives.
///
/// The layer count is part of the key because a position means something else in another
/// stack.
pub struct EffectCache {
    entries: Vec<CachedEffects>,
}

/// How to run a layer's effects.
#[derive(Debug, PartialEq)]
pub enum Preparation {
    /// Run the cached graph, once its nodes have taken these parameters.
    Reuse { params: Vec<NodeParam>, out_size: (u32, u32) },
    /// Build a graph of the effects, in order, and run it.
    Build { out_size: (u32, u32) },
}

spec fn entry_map(entries: Seq<CachedEffects>) -> Map<(int, int), CachedGraph>
    decreases entries.len(),
{
    if entries.len() == 0 {
        Map::empty()
    } else {
        entry_map(entries.drop_last()).insert(entries.last().key(), entries.last().model())
    }
}

spec fn keys_differ(entries: Seq<CachedEffects>) -> bool {
    forall|i: int, j: int|
        0 <= i < j < entries.len() ==> (#[trigger] entries[i]).key() != (
        #[trigger] entries[j]).key()
}

proof fn entry_map_holds(entries: Seq<CachedEffects>, i: int)
    requires
        keys_differ(entries),
        0 <= i < entries.len(),
    ensures
        entry_map(entries).dom().contains(entries[i].key()),
        entry_map(entries)[entries[i].key()] == entries[i].model(),
    decreases entries.len(),
{
    if i < entries.len() - 1 {
        let rest = entries.drop_last();
        assert(rest[i] == entries[i]);
        entry_map_holds(rest, i);
        assert(entries[i].key() != entries[entries.len() - 1].key());
    }
}

proof fn entry_map_lacks(entries: Seq<CachedEffects>, key: (int, int))
    requires
        forall|i: int| 0 <= i < entries.len() ==> (#[trigger] entries[i]).key() != key,
    ensures
        !entry_map(entries).dom().contains(key),
    decreases entries.len(),
{
    if entries.len() > 0 {
        let rest = entries.drop_last();
        assert forall|i: int| 0 <= i < rest.len() implies (#[trigger] rest[i]).key() != key by {
            assert(rest[i] == entries[i]);
        }
        entry_map_lacks(rest, key);
        assert(entries[entries.len() - 1].key() != key);
    }
}

proof fn entry_map_updates(entries: Seq<CachedEffects>, i: int, e: CachedEffects)
    requires
        keys_differ(entries),
        0 <= i < entries.len(),
        e.key() == entries[i].key(),
    ensures
        keys_differ(entries.update(i, e)),
        entry_map(entries.update(i, e)) == entry_map(entries).insert(e.key(), e.model()),
    decreases entries.len(),
{
    let changed = entries.update(i, e);
    assert forall|a: int, b: int| 0 <= a < b < changed.len() implies (#[trigger] changed[a]).key()
        != (#[trigger] changed[b]).key() by {
        assert(changed[a].key() == entries[a].key());
        assert(changed[b].key() == entries[b].key());
    }
    let last = entries.len() - 1;
    let rest = entries.drop_last();
    if i == last {
        assert(changed.drop_last() =~= rest);
        assert(entry_map(changed) =~= entry_map(entries).insert(e.key(), e.model()));
    } else {
        assert(changed.drop_last() =~= rest.update(i, e));
        assert(rest[i] == entries[i]);
        assert(keys_differ(rest)) by {
            assert forall|a: int, b: int| 0 <= a < b < rest.len() implies (
            #[trigger] rest[a]).key() != (#[trigger] rest[b]).key() by {
                assert(rest[a] == entries[a] && rest[b] == entries[b]);
            }
        }
        entry_map_updates(rest, i, e);
        assert(entries[i].key() != entries[last].key());
        assert(entry_map(changed) =~= entry_map(entries).insert(e.key(), e.model()));
    }
}

impl View for EffectCache {
    type V = Map<(int, int), CachedGraph>;

    closed spec fn view(&self) -> Map<(int, int), CachedGraph> {
        entry_map(self.entries@)
    }
}

/// Whether the graph cached for a layer comes to run `effects` on frames of `in_size`.
pub open spec fn hit(
    cache: Map<(int, int), CachedGraph>,
    key: (int, int),
    in_size: (u32, u32),
    effects: Seq<GpuEffect>,
) -> bool {
    &&& cache.dom().contains(key)
    &&& cache[key].in_size == in_size
    &&& reusable(cache[key].effects, effects)
}

/// A cached graph of `effects` for frames of `in_size`.
pub open spec fn graph_of(effects: Seq<GpuEffect>, in_size: (u32, u32)) -> CachedGraph {
    CachedGraph { effects, in_size, out_size: chain_size(effects, in_size) }
}

impl EffectCache {
    /// The keys of the entries differ.
    #[verifier::type_invariant]
    spec fn sound(self) -> bool {
        keys_differ(self.entries@)
    }

    /// An empty cache.
    pub fn new() -> (r: EffectCache)
        ensures
            r@ == Map::<(int, int), CachedGraph>::empty(),
    {
        EffectCache { entries: Vec::new() }
    }

    /// Forgets every cached graph, so that the next frame builds each anew.
    ///
    /// A caller that composites one clip after another must do this at each cut: a motion
    /// blur's trail lives in its node, and would run on into the next clip.
    pub fn reset_effect_cache(&mut self)
        ensures
            final(self)@ == Map::<(int, int), CachedGraph>::empty(),
    {
        self.entries = Vec::new();
    }

    fn find(&self, layer_count: usize, layer_idx: usize) -> (r: Option<usize>)
        ensures
            match r {
                Some(i) => i < self.entries@.len() && self.entries@[i as int].key() == (
                    layer_count as int,
                    layer_idx as int,
                ) && self@.dom().contains((layer_count as int, layer_idx as int)) && self@[(
                    layer_count as int,
                    layer_idx as int,
                )] == self.entries@[i as int].model(),
                None => !self@.dom().contains((layer_count as int, layer_idx as int)) && forall|
                    j: int,
                |
                    0 <= j < self.entries@.len() ==> (#[trigger] self.entries@[j]).key() != (
                        layer_count as int,
                        layer_idx as int,
                    ),
            },
    {
        proof {
            use_type_invariant(self);
        }
        let ghost key = (layer_count as int, layer_idx as int);
        let mut i: usize = 0;
        while i < self.entries.len()
            invariant
                i <= self.entries@.len(),
                keys_differ(self.entries@),
                key == (layer_count as int, layer_idx as int),
                forall|j: int| 0 <= j < i ==> (#[trigger] self.entries@[j]).key() != key,
            decreases self.entries@.len() - i,
        {
            let e = &self.entries[i];
            if e.layer_count == layer_count && e.layer_idx == layer_idx {
                proof {
                    entry_map_holds(self.entries@, i as int);
                }
                return Some(i);
            }
            i = i + 1;
        }
        proof {
            entry_map_lacks(self.entries@, key);
        }
        None
    }

    /// How to run `effects` on a layer's frame of the size `in_size`: on the graph cached for
    /// that layer where it can come to run them, else on a new one.
    pub fn prepare(
        &self,
        layer_count: usize,
        layer_idx: usize,
        in_size: (u32, u32),
        effects: &Vec<GpuEffect>,
    ) -> (r: Preparation)
        ensures
            ({
                let key = (layer_count as int, layer_idx as int);
                if hit(self@, key, in_size, effects@) {
                    r matches Preparation::Reuse { params, out_size } && params@ == params_of(
                        self@[key].effects,
                        effects@,
                    ) && out_size == self@[key].out_size
                } else {
                    r == Preparation::Build { out_size: chain_size(effects@, in_size) }
                }
            }),
    {
        if let Some(i) = self.find(layer_count, layer_idx) {
            let e = &self.entries[i];
            if e.in_size.0 == in_size.0 && e.in_size.1 == in_size.1 {
                match param_update(&e.effects, effects) {
                    Some(Reuse::AsIs) => {
                        let params: Vec<NodeParam> = Vec::new();
                        assert(params@ =~= params_of(e.effects@, effects@));
                        return Preparation::Reuse { params, out_size: e.out_size };
                    },
                    Some(Reuse::WithParams(params)) => {
                        return Preparation::Reuse { params, out_size: e.out_size };
                    },
                    None => {},
                }
            }
        }
        Preparation::Build { out_size: output_size(effects, in_size) }
    }

    /// Records what a layer's graph holds from now on: a graph just built, or one whose nodes
    /// have just taken their parameters.
    pub fn record(
        &mut self,
        layer_count: usize,
        layer_idx: usize,
        in_size: (u32, u32),
        effects: &Vec<GpuEffect>,
    )
        ensures
            final(self)@ == old(self)@.insert(
                (layer_count as int, layer_idx as int),
                graph_of(effects@, in_size),
            ),
    {
        proof {
            use_type_invariant(&*self);
        }
        let place = self.find(layer_count, layer_idx);
        let e = CachedEffects {
            layer_count,
            layer_idx,
            effects: copy_effects(effects),
            in_size,
            out_size: output_size(effects, in_size),
        };
        let ghost model = e.model();
        let ghost before = self.entries@;
        let mut entries: Vec<CachedEffects> = Vec::new();
        std::mem::swap(&mut entries, &mut self.entries);
        match place {
            Some(i) => {
                proof {
                    entry_map_updates(before, i as int, e);
                }
                entries.set(i, e);
            },
            None => {
                proof {
                    let more = before.push(e);
                    assert(more.drop_last() =~= before);
                    assert forall|a: int, b: int| 0 <= a < b < more.len() implies (
                    #[trigger] more[a]).key() != (#[trigger] more[b]).key() by {
                        assert(more[a] == before[a]);
                        if b < before.len() {
                            assert(more[b] == before[b]);
                        }
                    }
                }
                entries.push(e);
            },
        }
        self.entries = entries;
        assert(model == graph_of(effects@, in_size));
    }
}

/// A copy of an effect list.
pub fn copy_effects(effects: &Vec<GpuEffect>) -> (r: Vec<GpuEffect>)
    ensures
        r@ == effects@,
{
    let mut copy: Vec<GpuEffect> = Vec::new();
    let mut i: usize = 0;
    while i < effects.len()
        invariant
            i <= effects@.len(),
            copy@ =~= effects@.take(i as int),
        decreases effects@.len() - i,
    {
        copy.push(effects[i].clone());
        i = i + 1;
    }
    assert(effects@.take(effects@.len() as int) =~= effects@);
    copy
}

/// Whether a compositor made for one canvas has to be made anew for another.
pub fn needs_compositor(made_for: Option<(u32, u32)>, canvas: (u32, u32)) -> (r: bool)
    ensures
        r == (made_for != Some(canvas)),
{
    match made_for {
        Some(c) => !(c.0 == canvas.0 && c.1 == canvas.1),
        None => true,
    }
}

/// Formats of a colour table's file.
#[derive(Clone, Copy, Debug, PartialEq, Eq, Structural)]
pub enum LutFormat {
    Cube,
    ThreeDl,
}

/// The format that an extension names, in any case of its letters.
pub open spec fn format_named(extension: Seq<char>) -> Option<LutFormat> {
    if gpu::equal_but_case(extension, "cube"@) {
        Some(LutFormat::Cube)
    } else if gpu::equal_but_case(extension, "3dl"@) {
        Some(LutFormat::ThreeDl)
    } else {
        None
    }
}

/// The format that a file's extension names, in any case of its letters, or `None` where no
/// loader reads it.
pub fn lut_format(extension: Option<&str>) -> (r: Option<LutFormat>)
    ensures
        r == (match extension {
            Some(e) => format_named(e@),
            None => None::<LutFormat>,
        }),
{
    match extension {
        None => None,
        Some(e) => {
            if gpu::is_equal_but_case(e, "cube") {
                Some(LutFormat::Cube)
            } else if gpu::is_equal_but_case(e, "3dl") {
                Some(LutFormat::ThreeDl)
            } else {
                None
            }
        },
    }
}

/// The place of the last `c` in a text, or -1.
pub open spec fn last_place(text: Seq<char>, c: char) -> int
    decreases text.len(),
{
    if text.len() == 0 {
        -1
    } else if text.last() == c {
        text.len() - 1
    } else {
        last_place(text.drop_last(), c)
    }
}

/// The name of the file that a path leads to: what follows its last slash, where empty parts
/// and single dots at its end are passed over. A path that ends in two dots names no file.
pub open spec fn file_name(path: Seq<char>) -> Option<Seq<char>>
    decreases path.len(),
{
    let slash = last_place(path, '/');
    let part = path.skip(slash + 1);
    if part.len() == 0 || part == "."@ {
        if slash < 0 {
            None
        } else {
            proof {
                last_place_bounds(path, '/');
            }
            file_name(path.take(slash))
        }
    } else if part == ".."@ {
        None
    } else {
        Some(part)
    }
}

/// The place of a character lies within the text, or before it.
pub proof fn last_place_bounds(text: Seq<char>, c: char)
    ensures
        -1 <= last_place(text, c) < text.len(),
    decreases text.len(),
{
    if text.len() > 0 {
        last_place_bounds(text.drop_last(), c);
    }
}

/// The extension of a path: what follows the last dot of its file's name, unless that dot is
/// the name's first character.
pub open spec fn extension_of(path: Seq<char>) -> Option<Seq<char>> {
    match file_name(path) {
        None => None,
        Some(name) => {
            let dot = last_place(name, '.');
            if dot <= 0 {
                None
            } else {
                Some(name.skip(dot + 1))
            }
        },
    }
}

/// The format of the colour table that a path leads to.
pub open spec fn table_of(path: Seq<char>) -> Option<LutFormat> {
    match extension_of(path) {
        Some(e) => format_named(e),
        None => None,
    }
}

proof fn last_place_is(text: Seq<char>, c: char, i: int)
    requires
        -1 <= i < text.len(),
        i >= 0 ==> text[i] == c,
        forall|j: int| i < j < text.len() ==> #[trigger] text[j] != c,
    ensures
        last_place(text, c) == i,
    decreases text.len(),
{
    if text.len() > 0 && i < text.len() - 1 {
        assert(text[text.len() - 1] != c);
        let shorter = text.drop_last();
        assert forall|j: int| i < j < shorter.len() implies #[trigger] shorter[j] != c by {
            assert(shorter[j] == text[j]);
        }
        last_place_is(shorter, c, i);
    }
}

/// Finds where what follows the last `c` starts; `0` where there is none.
fn after_last(text: &str, c: char) -> (r: usize)
    ensures
        r == last_place(text@, c) + 1,
        r <= text@.len(),
        r > 0 ==> text@[r - 1] == c,
{
    let n: usize = text.unicode_len();
    let mut i: usize = n;
    while i > 0 && text.get_char(i - 1) != c
        invariant
            i <= n,
            n == text@.len(),
            forall|j: int| i <= j < n ==> #[trigger] text@[j] != c,
        decreases i,
    {
        i = i - 1;
    }
    proof {
        last_place_is(text@, c, i - 1);
    }
    i
}

fn name_of_file(path: &str) -> (r: Option<&str>)
    ensures
        match r {
            Some(name) => file_name(path@) == Some(name@),
            None => file_name(path@) is None,
        },
    decreases path@.len(),
{
    proof {
        reveal_strlit(".");
        reveal_strlit("..");
    }
    let n: usize = path.unicode_len();
    let start = after_last(path, '/');
    let part = path.substring_char(start, n);
    assert(part@ == path@.skip(last_place(path@, '/') + 1));
    let length: usize = n - start;
    if length == 0 || (length == 1 && part.get_char(0) == '.') {
        assert(part@.len() == 0 || part@ =~= "."@);
        if start == 0 {
            return None;
        }
        let rest = path.substring_char(0, start - 1);
        assert(rest@ =~= path@.take(last_place(path@, '/')));
        return name_of_file(rest);
    }
    if length == 2 && part.get_char(0) == '.' && part.get_char(1) == '.' {
        assert(part@ =~= ".."@);
        return None;
    }
    Some(part)
}

/// The format of the colour table that a path leads to, by its extension, or `None` where no
/// loader reads it.
pub fn table_format(path: &str) -> (r: Option<LutFormat>)
    ensures
        r == table_of(path@),
{
    match name_of_file(path) {
        None => None,
        Some(name) => {
            let dot = after_last(name, '.');
            if dot <= 1 {
                return None;
            }
            let extension = name.substring_char(dot, name.unicode_len());
            assert(extension@ == name@.skip(last_place(name@, '.') + 1));
            lut_format(Some(extension))
        },
    }
}

/// Whether an effect reads a colour table that no loader reads.
pub open spec fn unreadable(effect: GpuEffect) -> bool {
    effect matches GpuEffect::Lut { path } && table_of(path@) is None
}

/// Whether some effect of a chain reads a colour table that no loader reads.
pub open spec fn any_unreadable(effects: Seq<GpuEffect>) -> bool {
    exists|i: int| 0 <= i < effects.len() && unreadable(#[trigger] effects[i])
}

fn has_unreadable(effects: &Vec<GpuEffect>) -> (r: bool)
    ensures
        r == any_unreadable(effects@),
{
    let mut i: usize = 0;
    while i < effects.len()
        invariant
            i <= effects@.len(),
            forall|j: int| 0 <= j < i ==> !unreadable(#[trigger] effects@[j]),
        decreases effects@.len() - i,
    {
        if let GpuEffect::Lut { path } = &effects[i] {
            if table_format(path.as_str()).is_none() {
                assert(unreadable(effects@[i as int]));
                return true;
            }
        }
        i = i + 1;
    }
    false
}

/// Where the composite of a frame stands.
#[derive(Clone, Copy, Debug, PartialEq, Eq, Structural)]
pub enum PassStage {
    /// The pixels of a layer's frame are being read.
    Reading { layer: usize },
    /// The nodes of a layer's cached graph are taking their parameters.
    Setting { layer: usize },
    /// The graph of a layer's effects is being built.
    Building { layer: usize },
    /// A layer's graph is running on its frame.
    Running { layer: usize },
    /// The layers are being composed.
    Composing,
    /// Nothing more is to be done.
    Over,
}

/// What happened outside since the last action.
#[derive(Clone, Copy, Debug, PartialEq, Eq, Structural)]
pub enum PassEvent {
    /// The work that was asked for is done.
    Done,
    /// The work that was asked for failed: a frame without pixels, a node that declined a
    /// parameter, a colour table that cannot be loaded, or an error of the GPU.
    Failed,
}

/// What to do outside.
#[derive(Debug, PartialEq)]
pub enum PassAct {
    /// Read the pixels of a layer's frame.
    Read { layer: usize },
    /// Hand each of these parameters to the nodes of the layer's cached graph.
    Adjust { layer: usize, params: Vec<NodeParam> },
    /// Build a graph of the layer's effects, in order, and keep it for the layer.
    Build { layer: usize },
    /// Run the layer's graph on its pixels; it gives a frame of this size.
    Run { layer: usize, out_size: (u32, u32) },
    /// Compose the layers, on a compositor made anew where `remake` says so.
    Compose { layers: Vec<PlacedLayer>, remake: bool },
    /// The composed pixels are the frame.
    Show,
    /// Leave the frame to the CPU compositor.
    GiveUp,
}

/// The composite of one frame.
#[derive(Debug)]
pub struct Pass {
    /// The plans of the layers, from the bottom up.
    pub plans: Vec<GpuLayerPlan>,
    /// The sizes of the layers' frames.
    pub sizes: Vec<(u32, u32)>,
    /// The size of the canvas.
    pub canvas: (u32, u32),
    /// The size of the bottom layer's frame, once its effects have run.
    pub base: (u32, u32),
    /// Where the composite stands.
    pub stage: PassStage,
}

/// The GPU compositor, as far as it is known from frame to frame.
pub struct GpuCompositor {
    /// What the cached effect graphs hold.
    pub cache: EffectCache,
    /// The canvas that the compositor at hand was made for.
    pub made_for: Option<(u32, u32)>,
}

/// The first layer from `from` on that has effects, or the number of layers.
pub open spec fn next_worked(plans: Seq<GpuLayerPlan>, from: int) -> int
    decreases plans.len() - from,
{
    if from >= plans.len() {
        plans.len() as int
    } else if plans[from].effects@.len() > 0 {
        from
    } else {
        next_worked(plans, from + 1)
    }
}

/// The size of the bottom layer's frame.
pub open spec fn bottom_size(sizes: Seq<(u32, u32)>) -> (u32, u32) {
    if sizes.len() > 0 {
        sizes[0]
    } else {
        (0, 0)
    }
}

/// The layer that a stage is about.
pub open spec fn layer_at(stage: PassStage) -> Option<int> {
    match stage {
        PassStage::Reading { layer } => Some(layer as int),
        PassStage::Setting { layer } => Some(layer as int),
        PassStage::Building { layer } => Some(layer as int),
        PassStage::Running { layer } => Some(layer as int),
        PassStage::Composing => None,
        PassStage::Over => None,
    }
}

impl Pass {
    /// Whether the composite can go on: every layer has a frame, and the layer at hand exists.
    pub open spec fn sound(self) -> bool {
        &&& self.sizes@.len() == self.plans@.len()
        &&& layer_at(self.stage) matches Some(i) ==> 0 <= i < self.plans@.len()
    }

    /// The cache's key of a layer of this stack.
    pub open spec fn key(self, layer: int) -> (int, int) {
        (self.plans@.len() as int, layer)
    }

    /// What the graph of a layer holds once it runs.
    pub open spec fn graph(self, layer: int) -> CachedGraph {
        graph_of(self.plans@[layer].effects@, self.sizes@[layer])
    }

    /// Whether this is `was` at another stage, with its base frame of another size.
    pub open spec fn goes_on_from(self, was: Pass, stage: PassStage, base: (u32, u32)) -> bool {
        &&& self.plans@ == was.plans@
        &&& self.sizes@ == was.sizes@
        &&& self.canvas == was.canvas
        &&& self.base == base
        &&& self.stage == stage
    }
}

/// Whether `act` is what follows once the layers before `from` are done, and `pass` and
/// `made_for` stand as it leaves them: the next layer with effects is read; after the last one
/// the stack is composed, or given up where a layer has no placement.
pub open spec fn goes_to_layer(
    was: Pass,
    from: int,
    base: (u32, u32),
    was_made_for: Option<(u32, u32)>,
    pass: Pass,
    made_for: Option<(u32, u32)>,
    act: PassAct,
) -> bool {
    let i = next_worked(was.plans@, from);
    if i < was.plans@.len() {
        &&& pass.goes_on_from(was, PassStage::Reading { layer: i as usize }, base)
        &&& made_for == was_made_for
        &&& act == (PassAct::Read { layer: i as usize })
    } else {
        match act {
            PassAct::Compose { layers, remake } => {
                &&& pass.goes_on_from(was, PassStage::Composing, base)
                &&& assembled(was.plans@, base, was.canvas, Some(layers@))
                &&& remake == (was_made_for != Some(was.canvas))
                &&& made_for == Some(was.canvas)
            },
            PassAct::GiveUp => {
                &&& pass.goes_on_from(was, PassStage::Over, base)
                &&& assembled(was.plans@, base, was.canvas, None)
                &&& made_for == was_made_for
            },
            _ => false,
        }
    }
}

/// Whether `act` builds a layer's graph, or gives the frame up where the layer reads a colour
/// table that no loader reads.
pub open spec fn goes_to_build(was: Pass, layer: int, pass: Pass, act: PassAct) -> bool {
    if any_unreadable(was.plans@[layer].effects@) {
        &&& pass.goes_on_from(was, PassStage::Over, was.base)
        &&& act == PassAct::GiveUp
    } else {
        &&& pass.goes_on_from(was, PassStage::Building { layer: layer as usize }, was.base)
        &&& act == (PassAct::Build { layer: layer as usize })
    }
}

/// Whether `act` is what follows once the pixels of a layer are read: its cached graph takes
/// the parameters that changed, or a graph is built. A colour table that no loader reads leaves
/// the frame to the CPU.
pub open spec fn goes_to_graph(
    cache: Map<(int, int), CachedGraph>,
    was: Pass,
    layer: int,
    pass: Pass,
    act: PassAct,
) -> bool {
    let key = was.key(layer);
    let effects = was.plans@[layer].effects@;
    if !any_unreadable(effects) && hit(cache, key, was.sizes@[layer], effects) {
        &&& pass.goes_on_from(was, PassStage::Setting { layer: layer as usize }, was.base)
        &&& act matches PassAct::Adjust { layer: l, params } && l == layer && params@ == params_of(
            cache[key].effects,
            effects,
        )
    } else {
        goes_to_build(was, layer, pass, act)
    }
}

/// Whether `act` runs a layer's graph, which is recorded as holding the layer's effects.
pub open spec fn goes_to_run(
    was_cache: Map<(int, int), CachedGraph>,
    was: Pass,
    layer: int,
    cache: Map<(int, int), CachedGraph>,
    pass: Pass,
    act: PassAct,
) -> bool {
    &&& cache == was_cache.insert(was.key(layer), was.graph(layer))
    &&& pass.goes_on_from(was, PassStage::Running { layer: layer as usize }, was.base)
    &&& act == (PassAct::Run { layer: layer as usize, out_size: was.graph(layer).out_size })
}

/// Whether a composite goes from one state to another by `act` when `h` happens.
pub open spec fn pass_step(
    was_core: (Map<(int, int), CachedGraph>, Option<(u32, u32)>),
    was: Pass,
    h: PassEvent,
    core: (Map<(int, int), CachedGraph>, Option<(u32, u32)>),
    pass: Pass,
    act: PassAct,
) -> bool {
    match (was.stage, h) {
        (PassStage::Reading { layer }, PassEvent::Done) => {
            core == was_core && goes_to_graph(was_core.0, was, layer as int, pass, act)
        },
        (PassStage::Setting { layer }, PassEvent::Done) => {
            &&& core.1 == was_core.1
            &&& goes_to_run(was_core.0, was, layer as int, core.0, pass, act)
        },
        (PassStage::Setting { layer }, PassEvent::Failed) => {
            core == was_core && goes_to_build(was, layer as int, pass, act)
        },
        (PassStage::Building { layer }, PassEvent::Done) => {
            &&& core.1 == was_core.1
            &&& goes_to_run(was_core.0, was, layer as int, core.0, pass, act)
        },
        (PassStage::Running { layer }, PassEvent::Done) => {
            &&& core.0 == was_core.0
            &&& goes_to_layer(
                was,
                layer + 1,
                if layer == 0 {
                    was.graph(0).out_size
                } else {
                    was.base
                },
                was_core.1,
                pass,
                core.1,
                act,
            )
        },
        (PassStage::Composing, PassEvent::Done) => {
            &&& core == was_core
            &&& pass.goes_on_from(was, PassStage::Over, was.base)
            &&& act == PassAct::Show
        },
        _ => {
            &&& core == was_core
            &&& pass.goes_on_from(was, PassStage::Over, was.base)
            &&& act == PassAct::GiveUp
        },
    }
}

proof fn next_worked_is(plans: Seq<GpuLayerPlan>, from: int, i: int)
    requires
        0 <= from <= i <= plans.len(),
        forall|j: int| from <= j < i ==> (#[trigger] plans[j]).effects@.len() == 0,
        i < plans.len() ==> plans[i].effects@.len() > 0,
    ensures
        next_worked(plans, from) == i,
    decreases i - from,
{
    if from < i {
        assert(plans[from].effects@.len() == 0);
        next_worked_is(plans, from + 1, i);
    }
}

impl GpuCompositor {
    /// A compositor that has composed nothing yet.
    pub fn new() -> (r: GpuCompositor)
        ensures
            r.cache@ == Map::<(int, int), CachedGraph>::empty(),
            r.made_for is None,
    {
        GpuCompositor { cache: EffectCache::new(), made_for: None }
    }

    /// Forgets every cached effect graph, as at a cut.
    pub fn reset_effect_cache(&mut self)
        ensures
            final(self).cache@ == Map::<(int, int), CachedGraph>::empty(),
            final(self).made_for == old(self).made_for,
    {
        self.cache.reset_effect_cache();
    }

    /// Begins to composite layers, from the bottom up, at time `t`. `sizes` are those of their
    /// frames. Returns nothing where the scene falls back.
    ///
    /// The CPU compositor takes over wherever the scene does not map, a layer has no placement,
    /// or a step outside fails: a frame that is shown is never a wrong one.
    pub fn composite<L: GpuLayerSource>(
        &mut self,
        layers: &[L],
        sizes: Vec<(u32, u32)>,
        canvas: (u32, u32),
        t: Duration,
    ) -> (r: Option<(Pass, PassAct)>)
        requires
            sizes@.len() == layers@.len(),
        ensures
            final(self).cache@ == old(self).cache@,
            match r {
                None => {
                    &&& gpu::first_refusal(gpu::shown_all(layers@), t) is Some
                    &&& final(self).made_for == old(self).made_for
                },
                Some((pass, act)) => {
                    &&& gpu::first_refusal(gpu::shown_all(layers@), t) is None
                    &&& pass.sound()
                    &&& pass.sizes@ == sizes@
                    &&& pass.canvas == canvas
                    &&& gpu::plans_all(gpu::shown_all(layers@), t, pass.plans@)
                    &&& goes_to_layer(
                        pass,
                        0,
                        bottom_size(sizes@),
                        old(self).made_for,
                        pass,
                        final(self).made_for,
                        act,
                    )
                },
            },
    {
        let plan = match map_scene(layers, canvas, t) {
            GpuMapping::Gpu(plan) => plan,
            GpuMapping::Fallback(_) => {
                return None;
            },
        };
        let base = if sizes.len() > 0 {
            sizes[0]
        } else {
            (0, 0)
        };
        let mut pass = Pass { plans: plan.layers, sizes, canvas, base, stage: PassStage::Over };
        let act = self.go_to_layer(&mut pass, 0);
        Some((pass, act))
    }

    fn go_to_layer(&mut self, pass: &mut Pass, from: usize) -> (act: PassAct)
        requires
            old(pass).sizes@.len() == old(pass).plans@.len(),
            from <= old(pass).plans@.len(),
        ensures
            final(self).cache@ == old(self).cache@,
            final(pass).sound(),
            goes_to_layer(
                *old(pass),
                from as int,
                old(pass).base,
                old(self).made_for,
                *final(pass),
                final(self).made_for,
                act,
            ),
    {
        let mut i: usize = from;
        while i < pass.plans.len() && pass.plans[i].effects.len() == 0
            invariant
                from <= i <= pass.plans@.len(),
                forall|j: int| from <= j < i ==> (#[trigger] pass.plans@[j]).effects@.len() == 0,
            decreases pass.plans@.len() - i,
        {
            i = i + 1;
        }
        proof {
            next_worked_is(pass.plans@, from as int, i as int);
        }
        if i < pass.plans.len() {
            pass.stage = PassStage::Reading { layer: i };
            return PassAct::Read { layer: i };
        }
        match assemble(&pass.plans, pass.base, pass.canvas) {
            Some(layers) => {
                pass.stage = PassStage::Composing;
                let remake = needs_compositor(self.made_for, pass.canvas);
                self.made_for = Some(pass.canvas);
                PassAct::Compose { layers, remake }
            },
            None => {
                pass.stage = PassStage::Over;
                PassAct::GiveUp
            },
        }
    }

    fn go_to_build(&self, pass: &mut Pass, layer: usize) -> (act: PassAct)
        requires
            old(pass).sound(),
            layer < old(pass).plans@.len(),
        ensures
            final(pass).sound(),
            goes_to_build(*old(pass), layer as int, *final(pass), act),
    {
        if has_unreadable(&pass.plans[layer].effects) {
            pass.stage = PassStage::Over;
            return PassAct::GiveUp;
        }
        pass.stage = PassStage::Building { layer };
        PassAct::Build { layer }
    }

    fn go_to_graph(&self, pass: &mut Pass, layer: usize) -> (act: PassAct)
        requires
            old(pass).sound(),
            layer < old(pass).plans@.len(),
        ensures
            final(pass).sound(),
            goes_to_graph(self.cache@, *old(pass), layer as int, *final(pass), act),
    {
        if has_unreadable(&pass.plans[layer].effects) {
            return self.go_to_build(pass, layer);
        }
        let count: usize = pass.plans.len();
        match self.cache.prepare(count, layer, pass.sizes[layer], &pass.plans[layer].effects) {
            Preparation::Reuse { params, .. } => {
                pass.stage = PassStage::Setting { layer };
                PassAct::Adjust { layer, params }
            },
            Preparation::Build { .. } => self.go_to_build(pass, layer),
        }
    }

    fn go_to_run(&mut self, pass: &mut Pass, layer: usize) -> (act: PassAct)
        requires
            old(pass).sound(),
            layer < old(pass).plans@.len(),
        ensures
            final(self).made_for == old(self).made_for,
            final(pass).sound(),
            goes_to_run(
                old(self).cache@,
                *old(pass),
                layer as int,
                final(self).cache@,
                *final(pass),
                act,
            ),
    {
        let count: usize = pass.plans.len();
        let in_size = pass.sizes[layer];
        let effects = &pass.plans[layer].effects;
        let out_size = output_size(effects, in_size);
        self.cache.record(count, layer, in_size, effects);
        pass.stage = PassStage::Running { layer };
        PassAct::Run { layer, out_size }
    }

    /// Takes in what happened and says what to do next.
    pub fn step(&mut self, pass: &mut Pass, h: PassEvent) -> (act: PassAct)
        requires
            old(pass).sound(),
            old(pass).stage != PassStage::Over,
        ensures
            final(pass).sound(),
            pass_step(
                (old(self).cache@, old(self).made_for),
                *old(pass),
                h,
                (final(self).cache@, final(self).made_for),
                *final(pass),
                act,
            ),
    {
        match (pass.stage, h) {
            (PassStage::Reading { layer }, PassEvent::Done) => self.go_to_graph(pass, layer),
            (PassStage::Setting { layer }, PassEvent::Done) => self.go_to_run(pass, layer),
            (PassStage::Setting { layer }, PassEvent::Failed) => self.go_to_build(pass, layer),
            (PassStage::Building { layer }, PassEvent::Done) => self.go_to_run(pass, layer),
            (PassStage::Running { layer }, PassEvent::Done) => {
                let count: usize = pass.plans.len();
                assert(layer < count);
                if layer == 0 {
                    pass.base = output_size(&pass.plans[0].effects, pass.sizes[0]);
                }
                self.go_to_layer(pass, layer + 1)
            },
            (PassStage::Composing, PassEvent::Done) => {
                pass.stage = PassStage::Over;
                PassAct::Show
            },
            _ => {
                pass.stage = PassStage::Over;
                PassAct::GiveUp
            },
        }
    }
}

/// How far a composite is from its end.
pub open spec fn pass_left(pass: Pass) -> nat {
    let n = pass.plans@.len();
    match pass.stage {
        PassStage::Reading { layer } => (4 * (n - layer) + 5) as nat,
        PassStage::Setting { layer } => (4 * (n - layer) + 4) as nat,
        PassStage::Building { layer } => (4 * (n - layer) + 3) as nat,
        PassStage::Running { layer } => (4 * (n - layer) + 2) as nat,
        PassStage::Composing => 1,
        PassStage::Over => 0,
    }
}

proof fn next_worked_bounds(plans: Seq<GpuLayerPlan>, from: int)
    requires
        0 <= from <= plans.len(),
    ensures
        from <= next_worked(plans, from) <= plans.len(),
        next_worked(plans, from) < plans.len() ==> plans[next_worked(plans, from)].effects@.len()
            > 0,
        forall|j: int|
            from <= j < next_worked(plans, from) ==> (#[trigger] plans[j]).effects@.len() == 0,
    decreases plans.len() - from,
{
    if from < plans.len() && plans[from].effects@.len() == 0 {
        next_worked_bounds(plans, from + 1);
    }
}

/// A composite ends: whatever happens outside, every step brings it nearer to its end, and it
/// is over once it shows its frame or gives it up.
pub proof fn composite_ends(
    was_core: (Map<(int, int), CachedGraph>, Option<(u32, u32)>),
    was: Pass,
    h: PassEvent,
    core: (Map<(int, int), CachedGraph>, Option<(u32, u32)>),
    pass: Pass,
    act: PassAct,
)
    requires
        was.sound(),
        was.plans@.len() <= usize::MAX,
        was.stage != PassStage::Over,
        pass_step(was_core, was, h, core, pass, act),
    ensures
        pass_left(pass) < pass_left(was),
        (act == PassAct::Show || act == PassAct::GiveUp) <==> pass.stage == PassStage::Over,
{
    if let PassStage::Running { layer } = was.stage {
        next_worked_bounds(was.plans@, layer + 1);
    }
}

/// A graph runs what is planned: when a layer's graph is run, the cache says of it that it
/// holds the layer's planned effects for a frame of the layer's size.
pub proof fn graph_runs_the_plan(
    was_core: (Map<(int, int), CachedGraph>, Option<(u32, u32)>),
    was: Pass,
    h: PassEvent,
    core: (Map<(int, int), CachedGraph>, Option<(u32, u32)>),
    pass: Pass,
    act: PassAct,
    layer: usize,
    out_size: (u32, u32),
)
    requires
        was.sound(),
        was.stage != PassStage::Over,
        pass_step(was_core, was, h, core, pass, act),
        act == (PassAct::Run { layer, out_size }),
    ensures
        core.0.dom().contains(pass.key(layer as int)),
        core.0[pass.key(layer as int)].effects == pass.plans@[layer as int].effects@,
        core.0[pass.key(layer as int)].in_size == pass.sizes@[layer as int],
        core.0[pass.key(layer as int)].out_size == out_size,
{
    if let PassStage::Running { layer } = was.stage {
        next_worked_bounds(was.plans@, layer + 1);
    }
}

/// A colour table that no loader reads leaves the frame to the CPU: once the pixels of its layer
/// are read the composite gives up, and no graph of it is ever built.
pub proof fn unreadable_tables_give_up(
    was_core: (Map<(int, int), CachedGraph>, Option<(u32, u32)>),
    was: Pass,
    h: PassEvent,
    core: (Map<(int, int), CachedGraph>, Option<(u32, u32)>),
    pass: Pass,
    act: PassAct,
    layer: usize,
)
    requires
        was.sound(),
        pass_step(was_core, was, h, core, pass, act),
        layer < was.plans@.len(),
        any_unreadable(was.plans@[layer as int].effects@),
    ensures
        was.stage == (PassStage::Reading { layer }) ==> act == PassAct::GiveUp,
        act != (PassAct::Build { layer }),
        !(act matches PassAct::Adjust { layer: l, .. } && l == layer),
{
    if let PassStage::Running { layer } = was.stage {
        next_worked_bounds(was.plans@, layer + 1);
    }
}

/// A frame is shown only where nothing failed but a node that declined a parameter, after which
/// the graph is built anew.
pub proof fn failures_are_not_shown(
    was_core: (Map<(int, int), CachedGraph>, Option<(u32, u32)>),
    was: Pass,
    core: (Map<(int, int), CachedGraph>, Option<(u32, u32)>),
    pass: Pass,
    act: PassAct,
)
    requires
        pass_step(was_core, was, PassEvent::Failed, core, pass, act),
    ensures
        match was.stage {
            PassStage::Setting { layer } => act == (PassAct::Build { layer }) || act
                == PassAct::GiveUp,
            _ => act == PassAct::GiveUp,
        },
        core == was_core,
{
}

/// A graph that is run again gives frames of the size that the new effects give: a reused
/// graph's output never has a stale size.
pub proof fn reuse_keeps_the_size(
    cached: Seq<GpuEffect>,
    next: Seq<GpuEffect>,
    in_size: (u32, u32),
)
    requires
        reusable(cached, next),
    ensures
        chain_size(cached, in_size) == chain_size(next, in_size),
    decreases cached.len(),
{
    if cached.len() > 0 {
        let a = cached.drop_last();
        let b = next.drop_last();
        assert forall|i: int| 0 <= i < a.len() implies !(change(#[trigger] a[i], b[i])
            is Rebuilds) by {
            assert(a[i] == cached[i] && b[i] == next[i]);
        }
        reuse_keeps_the_size(a, b, in_size);
        assert(!(change(cached[cached.len() - 1], next[next.len() - 1]) is Rebuilds));
    }
}

/// An unchanged chain runs on its cached graph with nothing to apply, so that what its nodes
/// have accumulated stays. A chain that holds an undefined number is never unchanged.
pub proof fn unchanged_chain_is_reused(effects: Seq<GpuEffect>)
    requires
        forall|i: int|
            0 <= i < effects.len() ==> gpu::effects_agree(#[trigger] effects[i], effects[i]),
    ensures
        reusable(effects, effects),
        params_of(effects, effects).len() == 0,
    decreases effects.len(),
{
    if effects.len() > 0 {
        let rest = effects.drop_last();
        assert forall|i: int| 0 <= i < rest.len() implies gpu::effects_agree(
            #[trigger] rest[i],
            rest[i],
        ) by {
            assert(rest[i] == effects[i]);
        }
        unchanged_chain_is_reused(rest);
        assert forall|i: int| 0 <= i < effects.len() implies !(change(
            #[trigger] effects[i],
            effects[i],
        ) is Rebuilds) by {
            assert(gpu::effects_agree(effects[i], effects[i]));
        }
        assert(gpu::effects_agree(effects[effects.len() - 1], effects[effects.len() - 1]));
    }
}

/// The whole stack lands in one band: every layer's scale is the base's fit times its own, so
/// a layer that covers the base covers just its band.
pub proof fn stack_shares_the_fit(
    plans: Seq<GpuLayerPlan>,
    base: (u32, u32),
    canvas: (u32, u32),
    all: Seq<PlacedLayer>,
    i: int,
)
    requires
        assembled(plans, base, canvas, Some(all)),
        0 < i < all.len(),
    ensures
        letterboxed(base.0, base.1, canvas) == Some(all[0].transform),
        all[i].transform.scale_x == single::product(all[0].transform.scale_x, plans[i].scale_x),
        all[i].transform.scale_y == single::product(all[0].transform.scale_y, plans[i].scale_y),
{
    let first = all[0];
    let other = all[i];
}

/// A fitted frame lies within the canvas and has even sides, unless the frame has no area.
pub proof fn fit_stays_within(fw: u32, fh: u32, canvas: (u32, u32))
    requires
        fw > 0 && fh > 0,
    ensures
        fitted(fw, fh, canvas).0 <= canvas.0,
        fitted(fw, fh, canvas).1 <= canvas.1,
        fitted(fw, fh, canvas).0 % 2 == 0,
        fitted(fw, fh, canvas).1 % 2 == 0,
{
    side_stays_within(canvas.1, fw, fh, canvas.0);
    side_stays_within(canvas.0, fh, fw, canvas.1);
}

proof fn side_stays_within(other: u32, num: u32, den: u32, limit: u32)
    requires
        den > 0,
    ensures
        0 <= even_within(rescaled(other * num, den as int), limit as int) <= limit,
        even_within(rescaled(other * num, den as int), limit as int) % 2 == 0,
{
    assert(other * num >= 0) by (nonlinear_arith)
        requires
            other >= 0,
            num >= 0,
    ;
    let top = other * num + den as int / 2;
    assert(top / (den as int) >= 0) by (nonlinear_arith)
        requires
            top >= 0,
            den > 0,
    ;
}

} // verus!

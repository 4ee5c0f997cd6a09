//! Where a layer is, its plan puts it.

use vstd::arithmetic::power2;
use vstd::prelude::*;

use crate::filter::FilterStep;
use crate::float::accuracy;
use crate::float::double::F64;
use crate::float::grid;
use crate::float::magnitude;
use crate::float::rounding;
use crate::float::single;
use crate::float::single::F32;
use crate::float::values;
use crate::gpu;
use crate::gpu::{GpuMapping, LayerAt, StepClass};
use crate::time::Duration;

verus! {

/// Each number of a plan follows the number of the same name alone: two layers that share one
/// have plans that share it, whatever else differs. So a layer moved along one axis is planned
/// differently along that axis at most.
pub proof fn each_number_is_its_own(
    a: Seq<LayerAt>,
    b: Seq<LayerAt>,
    canvas: (u32, u32),
    other: (u32, u32),
    t: Duration,
    r: GpuMapping,
    s: GpuMapping,
    i: int,
)
    requires
        gpu::maps_to(a, canvas, t, r),
        gpu::maps_to(b, other, t, s),
        r is Gpu && s is Gpu,
        0 <= i < a.len() && i < b.len(),
    ensures
        ({
            let (x, y) = (a[i], b[i]);
            let (p, q) = (r->Gpu_0.layers@[i], s->Gpu_0.layers@[i]);
            &&& x.x == y.x ==> p.x == q.x
            &&& x.y == y.y ==> p.y == q.y
            &&& x.scale_x == y.scale_x ==> p.scale_x == q.scale_x
            &&& x.scale_y == y.scale_y ==> p.scale_y == q.scale_y
            &&& x.opacity == y.opacity ==> p.opacity == q.opacity
            &&& x.rotation == y.rotation && x.effects == y.effects ==> p.rotation == q.rotation
            &&& x.effects == y.effects ==> p.effects@ == q.effects@
            &&& x.composite_op == y.composite_op ==> p.composite_op == q.composite_op
            &&& x.composite_op == y.composite_op && x.blend_mode == y.blend_mode ==> p.blend_mode
                == q.blend_mode
            &&& p.z_order == q.z_order
        }),
{
    let (p, q) = (r->Gpu_0.layers@[i], s->Gpu_0.layers@[i]);
    assert(gpu::plans(a[i], i, t, p));
    assert(gpu::plans(b[i], i, t, q));
}

/// Where a layer is and how opaque it is does not decide whether its frame maps.
pub proof fn numbers_do_not_refuse(
    a: Seq<LayerAt>,
    k: int,
    moved: LayerAt,
    canvas: (u32, u32),
    t: Duration,
    r: GpuMapping,
    s: GpuMapping,
)
    requires
        0 <= k < a.len(),
        moved.blend_mode == a[k].blend_mode && moved.composite_op == a[k].composite_op,
        moved.effects == a[k].effects,
        gpu::maps_to(a, canvas, t, r),
        gpu::maps_to(a.update(k, moved), canvas, t, s),
    ensures
        r is Gpu <==> s is Gpu,
{
    let b = a.update(k, moved);
    gpu::one_refusal_refuses_the_frame(a, t);
    gpu::one_refusal_refuses_the_frame(b, t);
    assert forall|i: int| 0 <= i < a.len() implies gpu::refusal(#[trigger] a[i], t)
        == gpu::refusal(b[i], t) by {}
    assert forall|i: int| 0 <= i < a.len() implies gpu::refusal(#[trigger] b[i], t)
        == gpu::refusal(a[i], t) by {}
}

/// Whether a double is the number `v` of single precision.
pub open spec fn is_single(x: F64, v: F32) -> bool {
    &&& x.finite() && v.finite()
    &&& x.negative() == v.negative()
    &&& x.units() == v.units() * power2::pow2(925)
}

/// A layer whose numbers are of single precision is planned at just those: each coordinate and
/// each factor in its own place, the opacity held between zero and one, and the rotation where no
/// step of the chain turns the layer. The layer at place `i` is the `i`-th from the bottom.
pub proof fn single_numbers_are_planned_exactly(
    a: Seq<LayerAt>,
    canvas: (u32, u32),
    t: Duration,
    r: GpuMapping,
    i: int,
    v: F32,
)
    requires
        gpu::maps_to(a, canvas, t, r),
        r is Gpu,
        0 <= i < a.len(),
    ensures
        r->Gpu_0.canvas == canvas,
        r->Gpu_0.layers@.len() == a.len(),
        ({
            let (x, p) = (a[i], r->Gpu_0.layers@[i]);
            let u = accuracy::single_unit();
            &&& i <= 0x7FFF_FFFF ==> p.z_order == i
            &&& is_single(x.x, v) ==> p.x == v
            &&& is_single(x.y, v) ==> p.y == v
            &&& is_single(x.scale_x, v) ==> p.scale_x == v
            &&& is_single(x.scale_y, v) ==> p.scale_y == v
            &&& is_single(x.opacity, v) && 0 <= v.units() <= u ==> p.opacity.finite()
                && p.opacity.units() == v.units()
            &&& is_single(x.opacity, v) && v.units() < 0 ==> p.opacity.finite()
                && p.opacity.units() == 0
            &&& is_single(x.opacity, v) && v.units() > u ==> p.opacity.finite()
                && p.opacity.units() == u
            &&& is_single(x.rotation, v) && (forall|j: int|
                0 <= j < x.effects.len() ==> !((#[trigger] x.effects[j]) is RotateAnimated))
                ==> p.rotation.finite() && p.rotation.units() == v.units()
        }),
{
    let (x, p) = (a[i], r->Gpu_0.layers@[i]);
    assert(gpu::plans(x, i, t, p));
    if is_single(x.x, v) {
        accuracy::narrowing_keeps_singles(x.x, v);
    }
    if is_single(x.y, v) {
        accuracy::narrowing_keeps_singles(x.y, v);
    }
    if is_single(x.scale_x, v) {
        accuracy::narrowing_keeps_singles(x.scale_x, v);
    }
    if is_single(x.scale_y, v) {
        accuracy::narrowing_keeps_singles(x.scale_y, v);
    }
    if is_single(x.opacity, v) {
        accuracy::narrowing_keeps_singles(x.opacity, v);
        lemma_unit_part(v);
    }
    if is_single(x.rotation, v) && forall|j: int|
        0 <= j < x.effects.len() ==> !((#[trigger] x.effects[j]) is RotateAnimated) {
        accuracy::narrowing_keeps_singles(x.rotation, v);
        lemma_no_turn(x.effects, t);
        lemma_plus_zero(v);
    }
}

/// Holding a number between zero and one.
pub proof fn lemma_unit_part(v: F32)
    requires
        v.finite(),
    ensures
        gpu::unit_part(v).finite(),
        0 <= v.units() <= accuracy::single_unit() ==> gpu::unit_part(v).units() == v.units(),
        v.units() < 0 ==> gpu::unit_part(v).units() == 0,
        v.units() > accuracy::single_unit() ==> gpu::unit_part(v).units()
            == accuracy::single_unit(),
{
    accuracy::singles_are_their_numbers();
    single::order_is_numeric(v, F32 { bits: values::S_ZERO });
    single::order_is_numeric(F32 { bits: values::S_ONE }, v);
    power2::lemma_pow2_pos(149);
}

/// A chain with no turn in it turns nothing.
proof fn lemma_no_turn(steps: Seq<FilterStep<F64>>, t: Duration)
    requires
        forall|j: int| 0 <= j < steps.len() ==> !((#[trigger] steps[j]) is RotateAnimated),
    ensures
        gpu::turn_of(steps, t) == (F32 { bits: values::S_ZERO }),
    decreases steps.len(),
{
    if steps.len() > 0 {
        let rest = steps.drop_last();
        assert forall|j: int| 0 <= j < rest.len() implies !((#[trigger] rest[j])
            is RotateAnimated) by {
            assert(rest[j] == steps[j]);
        }
        lemma_no_turn(rest, t);
        assert(!(steps[steps.len() - 1] is RotateAnimated));
    }
}

/// Adding zero keeps a number.
pub proof fn lemma_plus_zero(v: F32)
    requires
        v.finite(),
    ensures
        single::sum(v, F32 { bits: values::S_ZERO }).finite(),
        single::sum(v, F32 { bits: values::S_ZERO }).units() == v.units(),
        single::sum(F32 { bits: values::S_ZERO }, v).finite(),
        single::sum(F32 { bits: values::S_ZERO }, v).units() == v.units(),
{
    magnitude::lemma_pow2_values();
    let zero = F32 { bits: values::S_ZERO };
    assert(zero.units() == 0);
    let k = v.magnitude() as nat;
    let g = grid::grid(23, k);
    grid::lemma_grid_increases(23, 0, k);
    if g > 0 {
        rounding::nearest_is_at_most(23, 0x7F80_0000, g, 1, k);
        rounding::nearest_is_at_least(23, 0x7F80_0000, g, 1, k);
    }
}

/// A layer that one step turns, on black and from no rotation of its own, is planned at the turn.
pub proof fn keyframed_turns_are_planned(
    a: Seq<LayerAt>,
    canvas: (u32, u32),
    t: Duration,
    r: GpuMapping,
    i: int,
    j: int,
    v: F32,
)
    requires
        gpu::maps_to(a, canvas, t, r),
        r is Gpu,
        0 <= i < a.len(),
        0 <= j < a[i].effects.len(),
        a[i].effects[j] matches FilterStep::RotateAnimated { angle, .. } && is_single(angle, v),
        forall|k: int|
            0 <= k < a[i].effects.len() && k != j ==> !((#[trigger] a[i].effects[k])
                is RotateAnimated),
        a[i].rotation.finite() && a[i].rotation.units() == 0,
    ensures
        r->Gpu_0.layers@[i].rotation.finite(),
        r->Gpu_0.layers@[i].rotation.units() == v.units(),
{
    let (x, p) = (a[i], r->Gpu_0.layers@[i]);
    assert(gpu::plans(x, i, t, p));
    gpu::one_refusal_refuses_the_frame(a, t);
    assert(gpu::refusal(a[i], t) is None);
    let zero = F32 { bits: values::S_ZERO };
    let flat = F32 { bits: if x.rotation.negative() { 0x8000_0000 } else { 0 } };
    magnitude::lemma_pow2_values();
    assert(flat.units() == 0 && flat.negative() == x.rotation.negative());
    assert(0 * power2::pow2(925) == 0);
    accuracy::narrowing_keeps_singles(x.rotation, flat);
    lemma_one_turn(x.effects, t, j, v);
    let turn = gpu::turn_of(x.effects, t);
    lemma_plus_nothing(flat, turn);
}

/// A number added to nothing, of either sign.
proof fn lemma_plus_nothing(flat: F32, v: F32)
    requires
        flat.finite() && flat.units() == 0,
        v.finite(),
    ensures
        single::sum(flat, v).finite(),
        single::sum(flat, v).units() == v.units(),
{
    magnitude::lemma_pow2_values();
    let k = v.magnitude() as nat;
    let g = grid::grid(23, k);
    grid::lemma_grid_increases(23, 0, k);
    if g > 0 {
        rounding::nearest_is_at_most(23, 0x7F80_0000, g, 1, k);
        rounding::nearest_is_at_least(23, 0x7F80_0000, g, 1, k);
    }
}

/// A chain with one turn in it turns by that.
proof fn lemma_one_turn(steps: Seq<FilterStep<F64>>, t: Duration, j: int, v: F32)
    requires
        gpu::covered(steps, t),
        0 <= j < steps.len(),
        steps[j] matches FilterStep::RotateAnimated { angle, .. } && is_single(angle, v),
        forall|k: int|
            0 <= k < steps.len() && k != j ==> !((#[trigger] steps[k]) is RotateAnimated),
    ensures
        gpu::turn_of(steps, t).finite(),
        gpu::turn_of(steps, t).units() == v.units(),
    decreases steps.len(),
{
    let rest = steps.drop_last();
    let last = steps[steps.len() - 1];
    assert forall|k: int| 0 <= k < rest.len() && k != j implies !((#[trigger] rest[k])
        is RotateAnimated) by {
        assert(rest[k] == steps[k]);
    }
    if j == steps.len() - 1 {
        lemma_no_turn(rest, t);
        accuracy::narrowing_keeps_singles(last->RotateAnimated_angle, v);
        assert(gpu::class_of(steps[j], t) != StepClass::Unsupported);
        lemma_plus_zero(v);
    } else {
        assert(rest[j] == steps[j]);
        assert forall|k: int| 0 <= k < rest.len() implies gpu::class_of(#[trigger] rest[k], t)
            != StepClass::Unsupported by {
            assert(rest[k] == steps[k]);
        }
        lemma_one_turn(rest, t, j, v);
        assert(!(last is RotateAnimated));
    }
}

/// A layer composites by the operator of its own name, and by its own blend mode where the
/// operator lays it over what is below; under any other operator it blends plainly. The modes
/// and the operators are told apart: two that differ are planned differently.
pub proof fn modes_are_planned_by_name(
    a: Seq<LayerAt>,
    canvas: (u32, u32),
    t: Duration,
    r: GpuMapping,
    i: int,
    j: int,
)
    requires
        gpu::maps_to(a, canvas, t, r),
        r is Gpu,
        0 <= i < a.len() && 0 <= j < a.len(),
    ensures
        ({
            let (x, y) = (a[i], a[j]);
            let (p, q) = (r->Gpu_0.layers@[i], r->Gpu_0.layers@[j]);
            &&& (x.composite_op is Over <==> p.composite_op is Over)
            &&& (x.composite_op is Under <==> p.composite_op is Under)
            &&& (x.composite_op is In <==> p.composite_op is In)
            &&& (x.composite_op is Out <==> p.composite_op is Out)
            &&& (x.composite_op is Atop <==> p.composite_op is Atop)
            &&& (x.composite_op is Xor <==> p.composite_op is Xor)
            &&& (x.composite_op !is Over ==> p.blend_mode is Normal)
            &&& x.composite_op is Over && y.composite_op is Over ==> (x.blend_mode == y.blend_mode
                <==> p.blend_mode == q.blend_mode)
            &&& x.composite_op is Over ==> {
                &&& x.blend_mode is Normal <==> p.blend_mode is Normal
                &&& x.blend_mode is Multiply <==> p.blend_mode is Multiply
                &&& x.blend_mode is Screen <==> p.blend_mode is Screen
                &&& x.blend_mode is Overlay <==> p.blend_mode is Overlay
                &&& x.blend_mode is SoftLight <==> p.blend_mode is SoftLight
                &&& x.blend_mode is HardLight <==> p.blend_mode is HardLight
                &&& x.blend_mode is ColorDodge <==> p.blend_mode is ColorDodge
                &&& x.blend_mode is ColorBurn <==> p.blend_mode is ColorBurn
                &&& x.blend_mode is Difference <==> p.blend_mode is Difference
                &&& x.blend_mode is Exclusion <==> p.blend_mode is Exclusion
                &&& x.blend_mode is Add <==> p.blend_mode is Add
                &&& x.blend_mode is Subtract <==> p.blend_mode is Subtract
                &&& x.blend_mode is Darken <==> p.blend_mode is Darken
                &&& x.blend_mode is Lighten <==> p.blend_mode is Lighten
                &&& x.blend_mode is And <==> p.blend_mode is And
                &&& x.blend_mode is Average <==> p.blend_mode is Average
                &&& x.blend_mode is Bleach <==> p.blend_mode is Bleach
                &&& x.blend_mode is Divide <==> p.blend_mode is Divide
                &&& x.blend_mode is Extremity <==> p.blend_mode is Extremity
                &&& x.blend_mode is Freeze <==> p.blend_mode is Freeze
                &&& x.blend_mode is Geometric <==> p.blend_mode is Geometric
                &&& x.blend_mode is Glow <==> p.blend_mode is Glow
                &&& x.blend_mode is GrainExtract <==> p.blend_mode is GrainExtract
                &&& x.blend_mode is GrainMerge <==> p.blend_mode is GrainMerge
                &&& x.blend_mode is HardMix <==> p.blend_mode is HardMix
                &&& x.blend_mode is HardOverlay <==> p.blend_mode is HardOverlay
                &&& x.blend_mode is Harmonic <==> p.blend_mode is Harmonic
                &&& x.blend_mode is Heat <==> p.blend_mode is Heat
                &&& x.blend_mode is Interpolate <==> p.blend_mode is Interpolate
                &&& x.blend_mode is LinearLight <==> p.blend_mode is LinearLight
                &&& x.blend_mode is Multiply128 <==> p.blend_mode is Multiply128
                &&& x.blend_mode is Negation <==> p.blend_mode is Negation
                &&& x.blend_mode is Or <==> p.blend_mode is Or
                &&& x.blend_mode is Phoenix <==> p.blend_mode is Phoenix
                &&& x.blend_mode is PinLight <==> p.blend_mode is PinLight
                &&& x.blend_mode is Reflect <==> p.blend_mode is Reflect
                &&& x.blend_mode is SoftDifference <==> p.blend_mode is SoftDifference
                &&& x.blend_mode is Stain <==> p.blend_mode is Stain
                &&& x.blend_mode is VividLight <==> p.blend_mode is VividLight
                &&& x.blend_mode is Xor <==> p.blend_mode is Xor
            }
        }),
{
    let (p, q) = (r->Gpu_0.layers@[i], r->Gpu_0.layers@[j]);
    assert(gpu::plans(a[i], i, t, p));
    assert(gpu::plans(a[j], j, t, q));
    gpu::one_refusal_refuses_the_frame(a, t);
    assert(gpu::refusal(a[i], t) is None);
    assert(gpu::refusal(a[j], t) is None);
}

} // verus!

//! A moment of a step is the step.
//!
//! Reading a step at a moment replaces its keyframes and nothing else, and what a step with
//! keyframes does at a moment is what the same step with constants does.

use vstd::arithmetic::power2;
use vstd::prelude::*;

use crate::filter;
use crate::filter::{AnimatedValue, Channels, FilterStep, Rgb, ScaleAlgorithm};
use crate::float::accuracy;
use crate::float::double;
use crate::float::double::F64;
use crate::float::magnitude;
use crate::float::single;
use crate::float::single::F32;
use crate::float::values;
use crate::gpu;
use crate::gpu::{GpuEffect, StepClass};
use crate::grading;
use crate::planning;
use crate::time::Duration;

verus! {

/// A constant.
pub open spec fn fixed(v: F64) -> AnimatedValue {
    AnimatedValue::Static(v)
}

/// Three constants.
pub open spec fn fixed_channels(c: Channels<F64>) -> Channels<AnimatedValue> {
    Channels { r: fixed(c.r), g: fixed(c.g), b: fixed(c.b) }
}

/// A step with a constant for each of its numbers.
pub open spec fn still(step: FilterStep<F64>) -> FilterStep<AnimatedValue> {
    match step {
        FilterStep::Trim { start, end } => FilterStep::Trim { start, end },
        FilterStep::ResetPts => FilterStep::ResetPts,
        FilterStep::OffsetPts { seconds } => FilterStep::OffsetPts { seconds },
        FilterStep::Speed { factor } => FilterStep::Speed { factor },
        FilterStep::ATrim { start, end } => FilterStep::ATrim { start, end },
        FilterStep::AResetPts => FilterStep::AResetPts,
        FilterStep::AudioDelay { ms } => FilterStep::AudioDelay { ms },
        FilterStep::PitchShift { semitones, algo } => FilterStep::PitchShift { semitones, algo },
        FilterStep::AFadeIn { start, duration } => FilterStep::AFadeIn { start, duration },
        FilterStep::AFadeOut { start, duration } => FilterStep::AFadeOut { start, duration },
        FilterStep::Volume { gain_db } => FilterStep::Volume { gain_db },
        FilterStep::Scale { width, height, algorithm } => FilterStep::Scale {
            width,
            height,
            algorithm,
        },
        FilterStep::ScaleAnimated { width, height, algorithm } => FilterStep::ScaleAnimated {
            width: fixed(width),
            height: fixed(height),
            algorithm,
        },
        FilterStep::RotateAnimated { angle, fill_color } => FilterStep::RotateAnimated {
            angle: fixed(angle),
            fill_color,
        },
        FilterStep::FitToAspect { width, height, color } => FilterStep::FitToAspect {
            width,
            height,
            color,
        },
        FilterStep::FillToAspect { width, height } => FilterStep::FillToAspect { width, height },
        FilterStep::Eq { brightness, contrast, saturation, temperature, tint } => FilterStep::Eq {
            brightness,
            contrast,
            saturation,
            temperature,
            tint,
        },
        FilterStep::EqAnimated {
            brightness,
            contrast,
            saturation,
            gamma,
            temperature,
            tint,
        } => FilterStep::EqAnimated {
            brightness: fixed(brightness),
            contrast: fixed(contrast),
            saturation: fixed(saturation),
            gamma: fixed(gamma),
            temperature: fixed(temperature),
            tint: fixed(tint),
        },
        FilterStep::GBlur { sigma } => FilterStep::GBlur { sigma },
        FilterStep::GBlurAnimated { sigma } => FilterStep::GBlurAnimated { sigma: fixed(sigma) },
        FilterStep::Unsharp { luma_strength, chroma_strength } => FilterStep::Unsharp {
            luma_strength,
            chroma_strength,
        },
        FilterStep::UnsharpAnimated {
            luma_strength,
            chroma_strength,
        } => FilterStep::UnsharpAnimated {
            luma_strength: fixed(luma_strength),
            chroma_strength: fixed(chroma_strength),
        },
        FilterStep::Vignette { angle, x0, y0 } => FilterStep::Vignette { angle, x0, y0 },
        FilterStep::VignetteAnimated { amount, x0, y0 } => FilterStep::VignetteAnimated {
            amount: fixed(amount),
            x0,
            y0,
        },
        FilterStep::FilmGrain { luma_strength, chroma_strength } => FilterStep::FilmGrain {
            luma_strength,
            chroma_strength,
        },
        FilterStep::FilmGrainAnimated {
            luma_strength,
            chroma_strength,
        } => FilterStep::FilmGrainAnimated {
            luma_strength: fixed(luma_strength),
            chroma_strength: fixed(chroma_strength),
        },
        FilterStep::Glow { threshold, radius, intensity } => FilterStep::Glow {
            threshold,
            radius,
            intensity,
        },
        FilterStep::GlowAnimated { threshold, radius, intensity } => FilterStep::GlowAnimated {
            threshold: fixed(threshold),
            radius: fixed(radius),
            intensity: fixed(intensity),
        },
        FilterStep::ThreeWayCC { lift, gamma, gain } => FilterStep::ThreeWayCC {
            lift,
            gamma,
            gain,
        },
        FilterStep::ThreeWayCCAnimated { lift, gamma, gain } => FilterStep::ThreeWayCCAnimated {
            lift: fixed_channels(lift),
            gamma: fixed_channels(gamma),
            gain: fixed_channels(gain),
        },
        FilterStep::Curves { master, r, g, b } => FilterStep::Curves { master, r, g, b },
        FilterStep::Hue { degrees } => FilterStep::Hue { degrees },
        FilterStep::Hsl { hue, saturation, lightness } => FilterStep::Hsl {
            hue,
            saturation,
            lightness,
        },
        FilterStep::HslAnimated { hue, saturation, lightness } => FilterStep::HslAnimated {
            hue: fixed(hue),
            saturation: fixed(saturation),
            lightness: fixed(lightness),
        },
        FilterStep::Lut3d { path } => FilterStep::Lut3d { path },
        FilterStep::ChromaKey { color, similarity, blend } => FilterStep::ChromaKey {
            color,
            similarity,
            blend,
        },
        FilterStep::ChromaKeyAnimated {
            color,
            similarity,
            blend,
        } => FilterStep::ChromaKeyAnimated {
            color,
            similarity: fixed(similarity),
            blend: fixed(blend),
        },
        FilterStep::LumaMask { invert } => FilterStep::LumaMask { invert },
        FilterStep::RectMask { x, y, width, height, invert } => FilterStep::RectMask {
            x,
            y,
            width,
            height,
            invert,
        },
        FilterStep::RectMaskAnimated {
            x,
            y,
            width,
            height,
            invert,
        } => FilterStep::RectMaskAnimated {
            x: fixed(x),
            y: fixed(y),
            width: fixed(width),
            height: fixed(height),
            invert,
        },
        FilterStep::MotionBlur { shutter_angle_degrees, sub_frames } => FilterStep::MotionBlur {
            shutter_angle_degrees,
            sub_frames,
        },
        FilterStep::MotionBlurAnimated {
            shutter_angle,
            sub_frames,
        } => FilterStep::MotionBlurAnimated {
            shutter_angle: fixed(shutter_angle),
            sub_frames,
        },
        FilterStep::XFade { transition, duration, offset } => FilterStep::XFade {
            transition,
            duration,
            offset,
        },
        FilterStep::Other { spelling } => FilterStep::Other { spelling },
    }
}

/// A step of constants is read at any moment as it is.
pub proof fn constants_are_read_as_they_are<F: Fn(&AnimatedValue) -> F64>(
    step: FilterStep<F64>,
    eval: F,
    at: FilterStep<F64>,
)
    requires
        grading::honest(eval),
        filter::step_sampled(still(step), eval, at),
    ensures
        at == step,
{
}

/// Three doubles that are the three channels of a colour in single precision.
pub open spec fn are_singles(c: Channels<F64>, v: Rgb) -> bool {
    planning::is_single(c.r, v.r) && planning::is_single(c.g, v.g) && planning::is_single(c.b, v.b)
}

proof fn lemma_channels(c: Channels<F64>, v: Rgb)
    requires
        are_singles(c, v),
    ensures
        gpu::rgb_of(c.r, c.g, c.b) == v,
{
    accuracy::narrowing_keeps_singles(c.r, v.r);
    accuracy::narrowing_keeps_singles(c.g, v.g);
    accuracy::narrowing_keeps_singles(c.b, v.b);
}

/// A keyframed step that stands at numbers of single precision maps as the step with these
/// numbers as constants: a blur, a grain, a glow, a change of hue, saturation and lightness.
pub proof fn keyframed_numbers_map_as_constants(
    x: F64,
    y: F64,
    z: F64,
    a: F32,
    b: F32,
    c: F32,
    t: Duration,
)
    requires
        planning::is_single(x, a),
        planning::is_single(y, b),
        planning::is_single(z, c),
    ensures
        gpu::class_of(FilterStep::GBlurAnimated { sigma: x }, t) == gpu::class_of(
            FilterStep::GBlur { sigma: a },
            t,
        ),
        gpu::class_of(FilterStep::FilmGrainAnimated { luma_strength: x, chroma_strength: y }, t)
            == gpu::class_of(FilterStep::FilmGrain { luma_strength: a, chroma_strength: b }, t),
        gpu::class_of(FilterStep::GlowAnimated { threshold: x, radius: y, intensity: z }, t)
            == gpu::class_of(FilterStep::Glow { threshold: a, radius: b, intensity: c }, t),
        gpu::class_of(FilterStep::HslAnimated { hue: x, saturation: y, lightness: z }, t)
            == gpu::class_of(FilterStep::Hsl { hue: a, saturation: b, lightness: c }, t),
        gpu::class_of(FilterStep::UnsharpAnimated { luma_strength: x, chroma_strength: y }, t)
            == gpu::class_of(FilterStep::Unsharp { luma_strength: a, chroma_strength: b }, t),
{
    accuracy::narrowing_keeps_singles(x, a);
    accuracy::narrowing_keeps_singles(y, b);
    accuracy::narrowing_keeps_singles(z, c);
    accuracy::doubles_are_their_numbers();
    accuracy::singles_are_their_numbers();
    double::order_is_numeric(y, F64 { bits: values::ZERO });
    single::order_is_numeric(b, F32 { bits: values::S_ZERO });
    power2::lemma_pow2_pos(925);
    assert(b.units() * power2::pow2(925) == 0 <==> b.units() == 0) by (nonlinear_arith)
        requires
            power2::pow2(925) > 0,
    ;
}

/// A keyframed colour correction with a gamma of one, three-way correction, chroma key or motion
/// blur that stands at numbers of single precision maps as the one with these constants.
pub proof fn keyframed_colours_map_as_constants(
    x: Seq<F64>,
    v: Seq<F32>,
    gamma: F64,
    lift: (Channels<F64>, Rgb),
    mid: (Channels<F64>, Rgb),
    gain: (Channels<F64>, Rgb),
    color: filter::NamedColor,
    sub_frames: u8,
    t: Duration,
)
    requires
        x.len() == 5 && v.len() == 5,
        forall|i: int| 0 <= i < 5 ==> planning::is_single(#[trigger] x[i], v[i]),
        gamma.finite() && gamma.units() == accuracy::unit(),
        are_singles(lift.0, lift.1),
        are_singles(mid.0, mid.1),
        are_singles(gain.0, gain.1),
    ensures
        gpu::class_of(
            FilterStep::EqAnimated {
                brightness: x[0],
                contrast: x[1],
                saturation: x[2],
                gamma,
                temperature: x[3],
                tint: x[4],
            },
            t,
        ) == gpu::class_of(
            FilterStep::Eq {
                brightness: v[0],
                contrast: v[1],
                saturation: v[2],
                temperature: v[3],
                tint: v[4],
            },
            t,
        ),
        gpu::class_of(
            FilterStep::ThreeWayCCAnimated { lift: lift.0, gamma: mid.0, gain: gain.0 },
            t,
        ) == gpu::class_of(
            FilterStep::ThreeWayCC { lift: lift.1, gamma: mid.1, gain: gain.1 },
            t,
        ),
        gpu::class_of(
            FilterStep::ChromaKeyAnimated { color, similarity: x[0], blend: x[1] },
            t,
        ) == gpu::class_of(FilterStep::ChromaKey { color, similarity: v[0], blend: v[1] }, t),
        gpu::class_of(FilterStep::MotionBlurAnimated { shutter_angle: x[0], sub_frames }, t)
            == gpu::class_of(
            FilterStep::MotionBlur { shutter_angle_degrees: v[0], sub_frames },
            t,
        ),
{
    accuracy::narrowing_keeps_singles(x[0], v[0]);
    accuracy::narrowing_keeps_singles(x[1], v[1]);
    accuracy::narrowing_keeps_singles(x[2], v[2]);
    accuracy::narrowing_keeps_singles(x[3], v[3]);
    accuracy::narrowing_keeps_singles(x[4], v[4]);
    lemma_channels(lift.0, lift.1);
    lemma_channels(mid.0, mid.1);
    lemma_channels(gain.0, gain.1);
    let one = F64 { bits: values::ONE };
    accuracy::doubles_are_their_numbers();
    accuracy::lemma_powers();
    double::order_is_numeric(gamma, one);
    crate::float::grid::lemma_grid_increases(52, 0, gamma.magnitude() as nat);
    assert(gamma == one);
    assert(one.turned().units() == -one.units());
    assert(double::difference(one, one).unsigned() == double::signed(false, 0));
}

/// A keyframed rectangle that stands at whole pixels maps as the rectangle of these pixels, edge
/// by edge; so does a keyframed size.
pub proof fn keyframed_pixels_map_as_constants(
    a: u32,
    b: u32,
    w: u32,
    h: u32,
    invert: bool,
    algorithm: ScaleAlgorithm,
    t: Duration,
)
    ensures
        gpu::class_of(
            FilterStep::RectMaskAnimated {
                x: double::whole(a as nat),
                y: double::whole(b as nat),
                width: double::whole(w as nat),
                height: double::whole(h as nat),
                invert,
            },
            t,
        ) == gpu::class_of(FilterStep::RectMask { x: a, y: b, width: w, height: h, invert }, t),
        gpu::class_of(
            FilterStep::ScaleAnimated {
                width: double::whole(w as nat),
                height: double::whole(h as nat),
                algorithm,
            },
            t,
        ) == gpu::class_of(FilterStep::Scale { width: w, height: h, algorithm }, t),
{
    lemma_pixels(a);
    lemma_pixels(b);
    lemma_pixels(w);
    lemma_pixels(h);
}

proof fn lemma_pixels(n: u32)
    ensures
        gpu::pixels(double::whole(n as nat)) == n,
{
    accuracy::lemma_powers();
    accuracy::whole_is_exact(n as nat);
    let v = double::whole(n as nat);
    grading::counts_are_nearest(v);
    let (r, u) = (gpu::pixels(v) as int, accuracy::unit());
    assert(0 <= v.units() <= 0xFFFF_FFFF * u) by (nonlinear_arith)
        requires
            v.units() == n * u,
            0 <= n <= 0xFFFF_FFFF,
            u > 0,
    ;
    assert(r == n) by (nonlinear_arith)
        requires
            2 * accuracy::gap(r * u, n * u) <= u,
            u > 0,
    ;
}

/// A size maps to the same size, with a resampler of the same name where the node has one. A hue
/// alone maps to itself with the saturation and the lightness as they are. A rotation on black or
/// on nothing turns the layer by its angle. What only moves frames in time maps to nothing; what
/// the canvas, the sound or the filter graph does stays on the CPU.
pub proof fn other_steps_map_by_name(step: FilterStep<F64>, t: Duration)
    ensures
        step matches FilterStep::Scale { width: w, height: h, algorithm: a } ==> (gpu::class_of(
            step,
            t,
        ) matches StepClass::Effect(GpuEffect::Scale { width, height, algorithm }) && width == w
            && height == h && (a is Bicubic <==> algorithm is Bicubic) && (a is Lanczos
            <==> algorithm is Lanczos)),
        step matches FilterStep::Hue { degrees } ==> (if grading::is_nil(degrees) {
            gpu::class_of(step, t) == StepClass::Skip
        } else {
            gpu::class_of(step, t) matches StepClass::Effect(
                GpuEffect::Hsl { hue_shift, saturation, lightness },
            ) && hue_shift == degrees && grading::is_one(saturation) && grading::is_nil(lightness)
        }),
        step matches FilterStep::RotateAnimated { angle, fill_color } ==> (fill_color@ == "black"@
            || fill_color@ == "none"@ ==> gpu::class_of(step, t) == StepClass::Rotation(
            double::narrowed(angle),
        )),
        step is Trim || step is ResetPts || step is OffsetPts || step is Speed ==> gpu::class_of(
            step,
            t,
        ) == StepClass::Skip,
        step is FitToAspect || step is FillToAspect || step is XFade || step is Other || step
            is ATrim || step is AResetPts || step is AudioDelay || step is PitchShift || step
            is AFadeIn || step is AFadeOut || step is Volume ==> gpu::class_of(step, t)
            == StepClass::Unsupported,
        step matches FilterStep::Curves { master, r, g, b } ==> (master.points@.len()
            + r.points@.len() + g.points@.len() + b.points@.len() > 0 ==> gpu::class_of(step, t)
            == StepClass::Effect(GpuEffect::Curves { master, red: r, green: g, blue: b })),
{
    accuracy::singles_are_their_numbers();
    magnitude::lemma_pow2_values();
    if let FilterStep::Hue { degrees } = step {
        if degrees.finite() {
            single::order_is_numeric(degrees, F32 { bits: values::S_ZERO });
        }
        single::order_is_numeric(F32 { bits: values::S_ONE }, F32 { bits: values::S_ONE });
        single::order_is_numeric(F32 { bits: values::S_ZERO }, F32 { bits: values::S_ZERO });
    }
    if let FilterStep::RotateAnimated { fill_color, .. } = step {
        assert(gpu::equal_but_case(fill_color@, fill_color@));
    }
}

/// A vignette by its angle is as strong as the part that the angle is of a quarter turn, held
/// between zero and one; off centre it stays on the CPU.
pub proof fn angled_vignettes_map_by_their_angle(angle: F32, x0: F32, y0: F32, t: Duration)
    requires
        angle.finite(),
    ensures
        ({
            let r = gpu::class_of(FilterStep::Vignette { angle, x0, y0 }, t);
            let quarter = F32 { bits: values::S_QUARTER_TURN };
            &&& !(grading::is_nil(x0) && grading::is_nil(y0)) ==> r == StepClass::Unsupported
            &&& grading::is_nil(x0) && grading::is_nil(y0) ==> (r matches StepClass::Effect(
                GpuEffect::Vignette { radius, strength, feather },
            ) && grading::is_half(radius) && grading::is_half(feather) && strength
                == gpu::unit_part(single::quotient(angle, quarter)))
        }),
{
    accuracy::singles_are_their_numbers();
    magnitude::lemma_pow2_values();
    let zero = F32 { bits: values::S_ZERO };
    if x0.finite() {
        single::order_is_numeric(x0, zero);
    }
    if y0.finite() {
        single::order_is_numeric(y0, zero);
    }
}

} // verus!

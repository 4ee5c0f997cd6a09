//! What an effect says is what its node does.
//!
//! The laws here follow a parameter of an effect from the clip, through the filter step that the
//! effect compiles to and the moment at which the step is read, to the node of the GPU: each
//! parameter comes out where it went in.

use vstd::arithmetic::power2;
use vstd::prelude::*;

use crate::effect;
use crate::effect::{EffectKind, Param};
use crate::filter;
use crate::filter::{AnimatedValue, Channels, Curve, FilterStep, Rgb};
use crate::float::accuracy;
use crate::float::double;
use crate::float::double::F64;
use crate::float::grid;
use crate::float::magnitude;
use crate::float::rounding;
use crate::float::single;
use crate::float::single::F32;
use crate::float::values;
use crate::gpu;
use crate::gpu::{GpuEffect, StepClass};
use crate::time::Duration;

verus! {

/// Whether `eval` reads a constant as it is.
pub open spec fn honest<F: Fn(&AnimatedValue) -> F64>(eval: F) -> bool {
    forall|c: F64, v: F64| #[trigger]
        eval.ensures((&AnimatedValue::Static(c),), v) ==> v == c
}

/// Whether `x` is the parameter `p` in single precision: its constant, or what `eval` reads of its
/// keyframes.
pub open spec fn comes<F: Fn(&AnimatedValue) -> F64>(p: Param, eval: F, x: F32) -> bool {
    match p {
        Param::Const(c) => x == double::narrowed(c),
        Param::Animated(t) => exists|v: F64| #[trigger]
            eval.ensures((&AnimatedValue::Track(t),), v) && x == double::narrowed(v),
    }
}

/// A curves step holds the authored curve of each channel in the channel's own place, and so does
/// the node that runs it; the effect costs a step exactly where one of its curves has a point.
pub proof fn curves_keep_their_channels<F: Fn(&AnimatedValue) -> F64>(
    master: Curve,
    red: Curve,
    green: Curve,
    blue: Curve,
    start: F64,
    step: Option<FilterStep<AnimatedValue>>,
    eval: F,
    at: FilterStep<F64>,
    t: Duration,
)
    requires
        effect::compiles_to(EffectKind::Curves { master, red, green, blue }, start, step),
        step matches Some(s) ==> filter::step_sampled(s, eval, at),
    ensures
        step is Some <==> master.points@.len() > 0 || red.points@.len() > 0 || green.points@.len()
            > 0 || blue.points@.len() > 0,
        step matches Some(s) ==> {
            &&& s matches FilterStep::Curves { master: m, r, g, b } && m == master && r == red && g
                == green && b == blue
            &&& gpu::class_of(at, t) matches StepClass::Effect(
                GpuEffect::Curves { master: m, red: r, green: g, blue: b },
            ) && m == master && r == red && g == green && b == blue
        },
{
}

/// A number of single precision that is zero.
pub open spec fn is_nil(x: F32) -> bool {
    x.finite() && x.units() == 0
}

/// A number of single precision that is one.
pub open spec fn is_one(x: F32) -> bool {
    x.finite() && x.units() == accuracy::single_unit()
}

/// A number of single precision that is one half.
pub open spec fn is_half(x: F32) -> bool {
    x.finite() && 2 * x.units() == accuracy::single_unit()
}

/// Whether a number of single precision is at most zero.
pub open spec fn at_most_nil(x: F32) -> bool {
    !x.nan() && (x.negative() || x.magnitude() == 0)
}

/// The tests on numbers of single precision, and what the named ones are.
proof fn lemma_tests(x: F32)
    ensures
        is_one(F32 { bits: values::S_ONE }),
        is_nil(F32 { bits: values::S_ZERO }),
        is_half(F32 { bits: values::S_HALF }),
        gpu::none_of(x) <==> at_most_nil(x),
        gpu::zero(x) <==> is_nil(x),
        single::equal(x, F32 { bits: values::S_ONE }) <==> is_one(x),
{
    accuracy::singles_are_their_numbers();
    magnitude::lemma_pow2_values();
    if x.finite() {
        single::order_is_numeric(x, F32 { bits: values::S_ONE });
        single::order_is_numeric(x, F32 { bits: values::S_ZERO });
    }
}

/// A colour correction comes through with each of its five numbers in its own place, constant or
/// keyframed.
pub proof fn corrections_come_through<F: Fn(&AnimatedValue) -> F64>(
    brightness: Param,
    contrast: Param,
    saturation: Param,
    temperature: Param,
    tint: Param,
    start: F64,
    step: FilterStep<AnimatedValue>,
    eval: F,
    at: FilterStep<F64>,
    t: Duration,
)
    requires
        honest(eval),
        effect::compiles_to(
            EffectKind::ColorCorrect { brightness, contrast, saturation, temperature, tint },
            start,
            Some(step),
        ),
        filter::step_sampled(step, eval, at),
    ensures
        gpu::class_of(at, t) matches StepClass::Effect(
            GpuEffect::ColorGrade {
                brightness: b,
                contrast: c,
                saturation: s,
                temperature: k,
                tint: i,
            },
        ) && comes(brightness, eval, b) && comes(contrast, eval, c) && comes(saturation, eval, s)
            && comes(temperature, eval, k) && comes(tint, eval, i),
{
    let one = F64 { bits: values::ONE };
    accuracy::doubles_are_their_numbers();
    accuracy::lemma_powers();
    assert(one.turned().units() == -one.units());
    assert(double::difference(one, one).unsigned() == double::signed(false, 0));
}

/// A colour correction costs nothing exactly where all of its five numbers are constant and
/// neutral.
pub proof fn neutral_corrections_cost_nothing(
    brightness: F64,
    contrast: F64,
    saturation: F64,
    temperature: F64,
    tint: F64,
    start: F64,
)
    requires
        brightness.finite() && contrast.finite() && saturation.finite() && temperature.finite()
            && tint.finite(),
    ensures
        effect::compiles_to(
            EffectKind::ColorCorrect {
                brightness: Param::Const(brightness),
                contrast: Param::Const(contrast),
                saturation: Param::Const(saturation),
                temperature: Param::Const(temperature),
                tint: Param::Const(tint),
            },
            start,
            None,
        ) <==> brightness.units() == 0 && contrast.units() == accuracy::unit() && saturation.units()
            == accuracy::unit() && temperature.units() == 0 && tint.units() == 0,
{
    let (zero, one) = (F64 { bits: values::ZERO }, F64 { bits: values::ONE });
    accuracy::doubles_are_their_numbers();
    double::order_is_numeric(brightness, zero);
    double::order_is_numeric(contrast, one);
    double::order_is_numeric(saturation, one);
    double::order_is_numeric(temperature, zero);
    double::order_is_numeric(tint, zero);
}

/// A blur comes through with its radius, a sharpening with its amount, on luma alone and with a
/// radius of one, and a vignette with its amount held between zero and one, of half the frame.
pub proof fn single_numbers_come_through<F: Fn(&AnimatedValue) -> F64>(
    kind: EffectKind,
    p: Param,
    start: F64,
    step: FilterStep<AnimatedValue>,
    eval: F,
    at: FilterStep<F64>,
    t: Duration,
)
    requires
        honest(eval),
        kind == (EffectKind::Blur { radius: p }) || kind == (EffectKind::Sharpen { amount: p })
            || kind == (EffectKind::Vignette { amount: p }),
        effect::compiles_to(kind, start, Some(step)),
        filter::step_sampled(step, eval, at),
    ensures
        kind is Blur ==> (gpu::class_of(at, t) matches StepClass::Effect(GpuEffect::Blur { sigma })
            && comes(p, eval, sigma)),
        kind is Sharpen ==> (gpu::class_of(at, t) matches StepClass::Effect(
            GpuEffect::Sharpen { radius, strength },
        ) && comes(p, eval, strength) && is_one(radius)),
        kind is Vignette ==> (gpu::class_of(at, t) matches StepClass::Effect(
            GpuEffect::Vignette { radius, strength, feather },
        ) && is_half(radius) && is_half(feather) && exists|x: F32| #[trigger]
            comes(p, eval, x) && (is_nil(x) || (!x.negative() && x.finite() && x.units()
                <= accuracy::single_unit()) ==> strength == x) && (at_most_nil(x) ==> is_nil(
                strength,
            )) && (x.finite() && x.units() > accuracy::single_unit() ==> is_one(strength))),
{
    lemma_tests(F32 { bits: values::S_ZERO });
    accuracy::doubles_are_their_numbers();
    if let FilterStep::VignetteAnimated { amount, .. } = at {
        let x = double::narrowed(amount);
        assert(comes(p, eval, x));
        accuracy::singles_are_their_numbers();
        magnitude::lemma_pow2_values();
        lemma_tests(x);
        if x.finite() {
            single::order_is_numeric(x, F32 { bits: values::S_ONE });
            single::order_is_numeric(x, F32 { bits: values::S_ZERO });
            single::order_is_numeric(F32 { bits: values::S_ONE }, x);
        }
    }
}

/// A glow comes through with its threshold, radius and intensity each in its own place, and runs
/// nothing exactly where the intensity is at most zero.
pub proof fn glows_come_through<F: Fn(&AnimatedValue) -> F64>(
    threshold: Param,
    radius: Param,
    intensity: Param,
    start: F64,
    step: FilterStep<AnimatedValue>,
    eval: F,
    at: FilterStep<F64>,
    t: Duration,
)
    requires
        honest(eval),
        effect::compiles_to(EffectKind::Glow { threshold, radius, intensity }, start, Some(step)),
        filter::step_sampled(step, eval, at),
    ensures
        exists|x: F32, y: F32, z: F32|
            #![trigger comes(threshold, eval, x), comes(radius, eval, y), comes(intensity, eval, z)]
            {
                &&& comes(threshold, eval, x) && comes(radius, eval, y) && comes(intensity, eval, z)
                &&& at_most_nil(z) ==> gpu::class_of(at, t) == StepClass::Skip
                &&& !at_most_nil(z) ==> gpu::class_of(at, t) == StepClass::Effect(
                    GpuEffect::Glow { threshold: x, radius: y, intensity: z },
                )
            },
{
    let (x, y, z) = match at {
        FilterStep::Glow { threshold, radius, intensity } => (threshold, radius, intensity),
        FilterStep::GlowAnimated { threshold, radius, intensity } => (
            double::narrowed(threshold),
            double::narrowed(radius),
            double::narrowed(intensity),
        ),
        _ => arbitrary(),
    };
    assert(comes(threshold, eval, x) && comes(radius, eval, y) && comes(intensity, eval, z));
    lemma_tests(z);
}

/// Hue, saturation and lightness come through each in its own place, and run nothing exactly
/// where they are zero, one and zero.
pub proof fn tones_come_through<F: Fn(&AnimatedValue) -> F64>(
    hue_shift: Param,
    saturation: Param,
    lightness: Param,
    start: F64,
    step: FilterStep<AnimatedValue>,
    eval: F,
    at: FilterStep<F64>,
    t: Duration,
)
    requires
        honest(eval),
        effect::compiles_to(
            EffectKind::Hsl { hue_shift, saturation, lightness },
            start,
            Some(step),
        ),
        filter::step_sampled(step, eval, at),
    ensures
        exists|x: F32, y: F32, z: F32|
            #![trigger comes(hue_shift, eval, x), comes(saturation, eval, y),
                comes(lightness, eval, z)]
            {
                &&& comes(hue_shift, eval, x) && comes(saturation, eval, y) && comes(
                    lightness,
                    eval,
                    z,
                )
                &&& is_nil(x) && is_one(y) && is_nil(z) ==> gpu::class_of(at, t) == StepClass::Skip
                &&& !(is_nil(x) && is_one(y) && is_nil(z)) ==> gpu::class_of(at, t)
                    == StepClass::Effect(
                    GpuEffect::Hsl { hue_shift: x, saturation: y, lightness: z },
                )
            },
{
    let (x, y, z) = match at {
        FilterStep::Hsl { hue, saturation, lightness } => (hue, saturation, lightness),
        FilterStep::HslAnimated { hue, saturation, lightness } => (
            double::narrowed(hue),
            double::narrowed(saturation),
            double::narrowed(lightness),
        ),
        _ => arbitrary(),
    };
    assert(comes(hue_shift, eval, x) && comes(saturation, eval, y) && comes(lightness, eval, z));
    lemma_tests(x);
    lemma_tests(y);
    lemma_tests(z);
}

/// Film grain comes through with each strength in its own place, scaled to the node's, and with
/// the frame's milliseconds as its seed; it runs nothing exactly where both are at most zero.
pub proof fn grain_comes_through<F: Fn(&AnimatedValue) -> F64>(
    luma_strength: Param,
    chroma_strength: Param,
    start: F64,
    step: FilterStep<AnimatedValue>,
    eval: F,
    at: FilterStep<F64>,
    t: Duration,
)
    requires
        honest(eval),
        effect::compiles_to(
            EffectKind::FilmGrain { luma_strength, chroma_strength },
            start,
            Some(step),
        ),
        filter::step_sampled(step, eval, at),
    ensures
        exists|x: F32, y: F32|
            #![trigger comes(luma_strength, eval, x), comes(chroma_strength, eval, y)]
            {
                let scale = F32 { bits: values::S_GRAIN_SCALE };
                &&& comes(luma_strength, eval, x) && comes(chroma_strength, eval, y)
                &&& at_most_nil(x) && at_most_nil(y) ==> gpu::class_of(at, t) == StepClass::Skip
                &&& !(at_most_nil(x) && at_most_nil(y)) ==> (gpu::class_of(
                    at,
                    t,
                ) matches StepClass::Effect(
                    GpuEffect::FilmGrain { luma_strength: l, chroma_strength: c, frame_index },
                ) && l == single::product(x, scale) && c == single::product(y, scale)
                    && frame_index as int == (t.nanos as int / 1_000_000) % 0x1_0000_0000)
            },
{
    let (x, y) = match at {
        FilterStep::FilmGrain { luma_strength, chroma_strength } => (
            luma_strength,
            chroma_strength,
        ),
        FilterStep::FilmGrainAnimated { luma_strength, chroma_strength } => (
            double::narrowed(luma_strength),
            double::narrowed(chroma_strength),
        ),
        _ => arbitrary(),
    };
    assert(comes(luma_strength, eval, x) && comes(chroma_strength, eval, y));
    lemma_tests(x);
    lemma_tests(y);
}

/// Whether `n` is the whole number nearest to `v`, held between zero and the largest of 32 bits.
pub open spec fn nearest_count(v: F64, n: u32) -> bool {
    &&& v.finite() && 0 <= v.units() <= 0xFFFF_FFFF * accuracy::unit() ==> 2 * accuracy::gap(
        n * accuracy::unit(),
        v.units(),
    ) <= accuracy::unit()
    &&& v.finite() && v.units() <= 0 ==> n == 0
    &&& v.finite() && v.units() >= 0xFFFF_FFFF * accuracy::unit() ==> n == 0xFFFF_FFFF
}

/// Rounding to a count takes the nearest whole number.
pub proof fn counts_are_nearest(v: F64)
    ensures
        nearest_count(v, double::rounded(v, 0xFFFF_FFFF) as u32),
{
    accuracy::lemma_powers();
    let u = accuracy::unit();
    if v.finite() {
        crate::float::grid::lemma_grid_increases(52, 0, v.magnitude() as nat);
        assert(crate::float::grid::grid(52, 0) == 0);
    }
    if v.finite() && !v.negative() {
        let (n, d) = (v.units() as nat, vstd::arithmetic::power2::pow2(1074));
        let (a, b) = ((2 * n + d) as int, (2 * d) as int);
        let q = a / b;
        vstd::arithmetic::div_mod::lemma_fundamental_div_mod(a, b);
        vstd::arithmetic::div_mod::lemma_mod_bound(a, b);
        assert(b * q == 2 * (q * u)) by (nonlinear_arith)
            requires
                b == 2 * u,
        ;
        assert(2 * accuracy::gap(q * u, v.units()) <= u);
        assert(v.units() <= 0xFFFF_FFFF * u ==> q <= 0xFFFF_FFFF) by (nonlinear_arith)
            requires
                2 * (q * u - v.units()) <= u,
                u > 0,
        ;
        assert(v.units() >= 0xFFFF_FFFF * u ==> q >= 0xFFFF_FFFF) by (nonlinear_arith)
            requires
                2 * (v.units() - q * u) <= u,
                u > 0,
        ;
        assert(q >= 0) by (nonlinear_arith)
            requires
                2 * (v.units() - q * u) <= u,
                v.units() >= 0,
                u > 0,
        ;
    }
    if v.finite() && v.units() <= 0 && !v.negative() {
        let d = vstd::arithmetic::power2::pow2(1074);
        assert(v.units() == 0);
        assert((2 * 0 + d) as int / (2 * d) as int == 0) by (nonlinear_arith)
            requires
                d > 0,
        ;
    }
}

/// Whether `n` is the parameter `p` as a count of pixels.
pub open spec fn counts<F: Fn(&AnimatedValue) -> F64>(p: Param, eval: F, n: u32) -> bool {
    match p {
        Param::Const(c) => nearest_count(c, n),
        Param::Animated(t) => exists|v: F64| #[trigger]
            eval.ensures((&AnimatedValue::Track(t),), v) && nearest_count(v, n),
    }
}

/// A rectangular mask comes through with its left edge, its top edge, its width and its height
/// each in its own place, to the nearest pixel, and on the same side of the rectangle.
pub proof fn masks_come_through<F: Fn(&AnimatedValue) -> F64>(
    x: Param,
    y: Param,
    width: Param,
    height: Param,
    invert: bool,
    start: F64,
    step: FilterStep<AnimatedValue>,
    eval: F,
    at: FilterStep<F64>,
    t: Duration,
)
    requires
        honest(eval),
        effect::compiles_to(
            EffectKind::ShapeMask { x, y, width, height, invert },
            start,
            Some(step),
        ),
        filter::step_sampled(step, eval, at),
    ensures
        exists|a: u32, b: u32, w: u32, h: u32|
            #![trigger counts(x, eval, a), counts(y, eval, b), counts(width, eval, w),
                counts(height, eval, h)]
            {
                &&& counts(x, eval, a) && counts(y, eval, b)
                &&& counts(width, eval, w) && counts(height, eval, h)
                &&& w == 0 || h == 0 ==> gpu::class_of(at, t) == StepClass::Skip
                &&& w > 0 && h > 0 ==> gpu::class_of(at, t) == StepClass::Effect(
                    GpuEffect::ShapeMask { x: a, y: b, width: w, height: h, invert },
                )
            },
{
    match at {
        FilterStep::RectMask { x: a, y: b, width: w, height: h, invert: i } => {
            counts_are_nearest(x->Const_0);
            counts_are_nearest(y->Const_0);
            counts_are_nearest(width->Const_0);
            counts_are_nearest(height->Const_0);
            assert(counts(x, eval, a) && counts(y, eval, b));
            assert(counts(width, eval, w) && counts(height, eval, h));
        },
        FilterStep::RectMaskAnimated { x: a, y: b, width: w, height: h, invert: i } => {
            counts_are_nearest(a);
            counts_are_nearest(b);
            counts_are_nearest(w);
            counts_are_nearest(h);
            assert(counts(x, eval, gpu::pixels(a)) && counts(y, eval, gpu::pixels(b)));
            assert(counts(width, eval, gpu::pixels(w)) && counts(height, eval, gpu::pixels(h)));
        },
        _ => {},
    }
}

/// A chroma key comes through with its similarity as the tolerance and its softness as the
/// softness, and with each channel of its colour in the channel's own place; it runs nothing
/// exactly where the tolerance is zero.
pub proof fn keys_come_through<F: Fn(&AnimatedValue) -> F64>(
    key_color: Rgb,
    similarity: Param,
    softness: Param,
    start: F64,
    step: FilterStep<AnimatedValue>,
    eval: F,
    at: FilterStep<F64>,
    t: Duration,
)
    requires
        honest(eval),
        effect::compiles_to(
            EffectKind::ChromaKey { key_color, similarity, softness },
            start,
            Some(step),
        ),
        filter::step_sampled(step, eval, at),
    ensures
        exists|x: F32, y: F32|
            #![trigger comes(similarity, eval, x), comes(softness, eval, y)]
            {
                &&& comes(similarity, eval, x) && comes(softness, eval, y)
                &&& is_nil(x) ==> gpu::class_of(at, t) == StepClass::Skip
                &&& !is_nil(x) ==> (gpu::class_of(at, t) matches StepClass::Effect(
                    GpuEffect::ChromaKey { key_color: k, tolerance, softness: s },
                ) && tolerance == x && s == y && {
                    &&& k.r == gpu::byte_part(effect::channel_byte(key_color.r) as u8)
                    &&& k.g == gpu::byte_part(effect::channel_byte(key_color.g) as u8)
                    &&& k.b == gpu::byte_part(effect::channel_byte(key_color.b) as u8)
                })
            },
{
    let (x, y) = match at {
        FilterStep::ChromaKey { color, similarity, blend } => (similarity, blend),
        FilterStep::ChromaKeyAnimated { color, similarity, blend } => (
            double::narrowed(similarity),
            double::narrowed(blend),
        ),
        _ => arbitrary(),
    };
    assert(comes(similarity, eval, x) && comes(softness, eval, y));
    lemma_tests(x);
}

/// A motion blur comes through with its shutter as it is at time zero and its trail; a table with
/// its path; a luma mask with its side; and a step given as it is stays as it is.
pub proof fn plain_values_come_through<F: Fn(&AnimatedValue) -> F64>(
    kind: EffectKind,
    start: F64,
    step: FilterStep<AnimatedValue>,
    eval: F,
    at: FilterStep<F64>,
    t: Duration,
)
    requires
        effect::compiles_to(kind, start, Some(step)),
        filter::step_sampled(step, eval, at),
    ensures
        kind matches EffectKind::MotionBlur { shutter_angle, sub_frames } ==> gpu::class_of(at, t)
            == StepClass::Effect(
            GpuEffect::MotionBlur {
                shutter_angle: double::narrowed(
                    match shutter_angle {
                        Param::Const(v) => v,
                        Param::Animated(_) => start,
                    },
                ),
                sub_frames,
            },
        ),
        kind matches EffectKind::Lut { path } ==> gpu::class_of(at, t) == StepClass::Effect(
            GpuEffect::Lut { path },
        ),
        kind matches EffectKind::LumaMask { invert } ==> gpu::class_of(at, t) == StepClass::Effect(
            GpuEffect::LumaMask { invert },
        ),
        kind matches EffectKind::Raw { step: raw } ==> step == raw,
        kind matches EffectKind::AudioRaw { step: raw } ==> step == raw,
        kind matches EffectKind::Volume { gain_db } ==> step == (FilterStep::<
            AnimatedValue,
        >::Volume {
            gain_db: match gain_db {
                Param::Const(v) => v,
                Param::Animated(_) => start,
            },
        }),
{
}

/// What costs no step is neutral: a gain of nothing, a shutter that does not open, a table with
/// no path, a key that takes nothing, a mask with no area; and nothing else of these kinds.
pub proof fn only_neutral_values_cost_nothing(kind: EffectKind, start: F64)
    requires
        start.finite(),
    ensures
        kind matches EffectKind::Volume { gain_db: Param::Const(v) } ==> (v.finite() ==> (
        effect::compiles_to(kind, start, None) <==> v.units() == 0)),
        kind matches EffectKind::Volume { gain_db: Param::Animated(_) } ==> (effect::compiles_to(
            kind,
            start,
            None,
        ) <==> start.units() == 0),
        kind matches EffectKind::MotionBlur { shutter_angle: Param::Const(v), .. } ==> (
        effect::compiles_to(kind, start, None) <==> at_most_nil(double::narrowed(v))),
        kind matches EffectKind::Lut { path } ==> (effect::compiles_to(kind, start, None)
            <==> path@.len() == 0),
        kind matches EffectKind::ChromaKey { similarity, .. } ==> (effect::compiles_to(
            kind,
            start,
            None,
        ) <==> (similarity matches Param::Const(v) && !v.nan() && v.magnitude() == 0)),
        kind is Blur || kind is Sharpen || kind is Vignette || kind is FilmGrain || kind is Glow
            || kind is LumaMask || kind is Raw || kind is AudioRaw ==> !effect::compiles_to(
            kind,
            start,
            None,
        ),
{
    let zero = F64 { bits: values::ZERO };
    accuracy::doubles_are_their_numbers();
    double::order_is_numeric(start, zero);
    if let EffectKind::Volume { gain_db: Param::Const(v) } = kind {
        if v.finite() {
            double::order_is_numeric(v, zero);
        }
    }
    if let EffectKind::MotionBlur { shutter_angle: Param::Const(v), .. } = kind {
        lemma_tests(double::narrowed(v));
    }
}

/// Colour wheels keep their channels: each lift is the authored one of its channel moved up by
/// one, and each gamma and each gain is the authored one.
pub proof fn wheels_keep_their_channels(
    lift: Channels<Param>,
    gamma: Channels<Param>,
    gain: Channels<Param>,
    start: F64,
    step: FilterStep<AnimatedValue>,
)
    requires
        effect::compiles_to(
            EffectKind::ColorWheels {
                shadows_lift: lift,
                midtones_gamma: gamma,
                highlights_gain: gain,
            },
            start,
            Some(step),
        ),
    ensures
        step matches FilterStep::ThreeWayCC { lift: l, gamma: m, gain: n } ==> {
            let one = F64 { bits: values::ONE };
            &&& lift.r matches Param::Const(v) && l.r == double::narrowed(double::sum(v, one))
            &&& lift.g matches Param::Const(v) && l.g == double::narrowed(double::sum(v, one))
            &&& lift.b matches Param::Const(v) && l.b == double::narrowed(double::sum(v, one))
            &&& gamma.r matches Param::Const(v) && m.r == double::narrowed(v)
            &&& gamma.g matches Param::Const(v) && m.g == double::narrowed(v)
            &&& gamma.b matches Param::Const(v) && m.b == double::narrowed(v)
            &&& gain.r matches Param::Const(v) && n.r == double::narrowed(v)
            &&& gain.g matches Param::Const(v) && n.g == double::narrowed(v)
            &&& gain.b matches Param::Const(v) && n.b == double::narrowed(v)
        },
        step matches FilterStep::ThreeWayCCAnimated { lift: l, gamma: m, gain: n } ==> {
            &&& effect::lifted(lift.r, l.r)
            &&& effect::lifted(lift.g, l.g)
            &&& effect::lifted(lift.b, l.b)
            &&& m.r == keeps(gamma.r) && m.g == keeps(gamma.g) && m.b == keeps(gamma.b)
            &&& n.r == keeps(gain.r) && n.g == keeps(gain.g) && n.b == keeps(gain.b)
        },
        step is ThreeWayCC || step is ThreeWayCCAnimated,
{
}

/// A parameter as it is authored: a constant as a constant, keyframes as keyframes.
pub open spec fn keeps(p: Param) -> AnimatedValue {
    match p {
        Param::Const(v) => AnimatedValue::Static(v),
        Param::Animated(t) => AnimatedValue::Track(t),
    }
}

/// A channel between zero and one becomes the byte nearest to its part of 255, to one part in
/// `2^16`; a channel below zero becomes none of it, and one above one all of it.
pub proof fn bytes_are_nearest(v: F32)
    requires
        v.finite(),
    ensures
        ({
            let b = effect::channel_byte(v) as int;
            let u = accuracy::single_unit();
            &&& 0 <= b <= 255
            &&& 0 <= v.units() <= u ==> 0x1_0000 * accuracy::gap(b * u, 255 * v.units()) <= 0x8001
                * u
            &&& v.units() <= 0 ==> b == 0
            &&& v.units() >= u ==> b == 255
        }),
{
    magnitude::lemma_pow2_values();
    accuracy::singles_are_their_numbers();
    let u = accuracy::single_unit();
    power2::lemma_pow2_pos(149);
    let (zero, one) = (F32 { bits: values::S_ZERO }, F32 { bits: values::S_ONE });
    single::order_is_numeric(v, zero);
    single::order_is_numeric(one, v);
    let x = single::held(v, zero, one);
    assert(0 <= x.units() <= u);
    assert(0 <= v.units() <= u ==> x.units() == v.units());
    let max = F32 { bits: values::S_BYTE_MAX };
    let half = F32 { bits: values::S_HALF };
    let p = single::product(x, max);
    let s = single::sum(p, half);
    power2::lemma_pow2_adds(133, 16);
    power2::lemma_pow2_adds(134, 15);
    power2::lemma2_to64();
    let step = power2::pow2(133) as int;
    assert(u == 0x1_0000 * step);
    let top = 0x7F80_0000nat;
    let d = power2::pow2(149);
    let n = (x.unsigned().units() as nat) * (max.unsigned().units() as nat);
    assert(max.unsigned() == max);
    assert(x.unsigned().units() == x.units());
    assert(n == (255 * x.units()) * u) by (nonlinear_arith)
        requires
            n == x.units() * (255 * u),
    ;
    assert(max.units() == grid::grid(23, 0x437F_0000));
    assert(n <= grid::grid(23, 0x437F_0000) * d) by (nonlinear_arith)
        requires
            n == (255 * x.units()) * u,
            grid::grid(23, 0x437F_0000) == 255 * u,
            x.units() <= u,
            d == u,
            u > 0,
    ;
    let k = grid::nearest(23, top, n, d);
    rounding::nearest_is_at_most(23, top, n, d, 0x437F_0000);
    grid::lemma_grid_increases(23, k, 0x437F_0000);
    rounding::rounding_moves_by_half_a_step(23, top, n, d, 0x437F_0000);
    assert(grid::spacing(23, 0x437F_0000) == 133);
    assert(p.units() == grid::grid(23, k) || p.units() == -(grid::grid(23, k) as int));
    assert(x.negative() ==> x.units() == 0);
    if x.negative() {
        assert(x.magnitude() == 0) by {
            grid::lemma_grid_increases(23, 0, x.magnitude() as nat);
            if x.magnitude() > 0 {
                grid::lemma_grid_increases(23, 1, x.magnitude() as nat);
            }
        }
        assert(n == 0);
        assert(grid::grid(23, 0) == 0);
        rounding::nearest_is_at_most(23, top, n, d, 0);
        assert(k == 0);
    }
    let g = p.units();
    assert(g == grid::grid(23, k));
    assert(2 * accuracy::gap(g, 255 * x.units()) <= step) by (nonlinear_arith)
        requires
            2 * ((255 * x.units()) * u - g * u) <= step * u,
            2 * (g * u - (255 * x.units()) * u) <= step * u,
            u > 0,
    ;
    let m = (g + half.units()) as nat;
    grid::lemma_grid_of(23, 133, 0xFF_8000);
    assert(grid::grid(23, 0x437F_8000) == 0xFF_8000 * step);
    rounding::nearest_is_at_most(23, top, m, 1, 0x437F_8000);
    let j = grid::nearest(23, top, m, 1);
    grid::lemma_grid_increases(23, j, 0x437F_8000);
    rounding::rounding_moves_by_half_a_step(23, top, m, 1, 0x437F_8000);
    assert(grid::spacing(23, 0x437F_8000) == 133);
    assert(s == single::signed(false, j));
    let t = s.units();
    assert(2 * accuracy::gap(t, g + half.units()) <= step);
    let b = t / u;
    vstd::arithmetic::div_mod::lemma_fundamental_div_mod(t, u);
    vstd::arithmetic::div_mod::lemma_mod_bound(t, u);
    assert(u * b == b * u) by (nonlinear_arith);
    assert(0 <= b <= 255) by (nonlinear_arith)
        requires
            b * u <= t < b * u + u,
            0 <= t < 256 * u,
            u > 0,
    ;
    assert(effect::channel_byte(v) == b);
    if v.units() <= 0 {
        assert(b == 0) by (nonlinear_arith)
            requires
                b * u <= t,
                t < u,
                b >= 0,
                u > 0,
        ;
    }
    if v.units() >= u {
        assert(b == 255) by (nonlinear_arith)
            requires
                t < b * u + u,
                t >= 255 * u,
                b <= 255,
                u > 0,
        ;
    }
}

/// A byte of a colour is handed to a node as its part of 255.
pub proof fn bytes_are_handed_on(v: u8)
    ensures
        ({
            let r = gpu::byte_part(v);
            let u = accuracy::single_unit();
            &&& r.finite() && !r.negative() && r.units() <= u
            &&& accuracy::P23 * accuracy::gap(r.units() * 255, v * u) <= v * u
            &&& v == 0 ==> r.units() == 0
            &&& v == 255 ==> r.units() == u
        }),
{
    accuracy::singles_are_their_numbers();
    magnitude::lemma_pow2_values();
    accuracy::single_whole_is_exact(255);
    let (a, b) = (single::whole(255), F32 { bits: values::S_BYTE_MAX });
    single::order_is_numeric(a, b);
    assert(a == b);
    accuracy::part_is_accurate(v as nat, 255);
}

} // verus!

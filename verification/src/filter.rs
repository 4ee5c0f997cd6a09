//! The vocabulary of the filter chain: animated values, blend and composite operators, and
//! the steps that a layer's chain is made of.

use std::sync::Arc;

use vstd::prelude::*;

use crate::float::double::F64;
use crate::float::single::F32;
use crate::time::Duration;

verus! {

/// Another pointer to the same value.
///
/// Calls `Arc::clone`, which makes a new pointer to the allocation that `a` points to; the
/// contract says that what the two point to is equal.
#[verifier::external_body]
pub(crate) fn share<T>(a: &Arc<T>) -> (r: Arc<T>)
    ensures
        r == *a,
{
    Arc::clone(a)
}

/// How a keyframe leads to the next one.
#[derive(Debug, PartialEq)]
pub enum Easing {
    /// At an even pace.
    Linear,
    /// By another curve, as the animation engine spells it.
    Curve(String),
}

impl Clone for Easing {
    fn clone(&self) -> (r: Self)
        ensures
            r == *self,
    {
        match self {
            Easing::Linear => Easing::Linear,
            Easing::Curve(spelling) => Easing::Curve(spelling.clone()),
        }
    }
}

/// A value at a time.
#[derive(Debug, PartialEq)]
pub struct Keyframe {
    pub timestamp: Duration,
    pub value: F64,
    pub easing: Easing,
}

/// A value that changes over time, by its keyframes in order.
#[derive(Debug, PartialEq)]
pub struct AnimationTrack {
    pub keyframes: Arc<Vec<Keyframe>>,
}

impl AnimationTrack {
    /// The track with the given keyframes, in order of time.
    pub fn new(keyframes: Vec<Keyframe>) -> (r: AnimationTrack)
        ensures
            r.keyframes == keyframes,
    {
        AnimationTrack { keyframes: Arc::new(keyframes) }
    }
}

impl Clone for AnimationTrack {
    fn clone(&self) -> (r: Self)
        ensures
            r == *self,
    {
        AnimationTrack { keyframes: share(&self.keyframes) }
    }
}

/// A constant or an animation.
#[derive(Debug, PartialEq)]
pub enum AnimatedValue {
    /// The same at every time.
    Static(F64),
    /// As the track says.
    Track(AnimationTrack),
}

impl Clone for AnimatedValue {
    fn clone(&self) -> (r: Self)
        ensures
            r == *self,
    {
        match self {
            AnimatedValue::Static(v) => AnimatedValue::Static(*v),
            AnimatedValue::Track(t) => AnimatedValue::Track(t.clone()),
        }
    }
}

/// A copy of an optional track.
pub fn copy_track(t: &Option<AnimationTrack>) -> (r: Option<AnimationTrack>)
    ensures
        r == *t,
{
    match t {
        Some(track) => Some(track.clone()),
        None => None,
    }
}

/// An opaque or translucent colour, eight bits a channel.
#[derive(Clone, Copy, Debug, PartialEq, Eq, Structural)]
pub struct Color {
    pub r: u8,
    pub g: u8,
    pub b: u8,
    pub a: u8,
}

impl Color {
    /// An opaque colour.
    pub fn rgb(r: u8, g: u8, b: u8) -> (c: Color)
        ensures
            c == (Color { r, g, b, a: 255 }),
    {
        Color { r, g, b, a: 255 }
    }
}

/// A colour as a filter option spells it, and the colour that the spelling names, if any.
#[derive(Debug, PartialEq)]
pub struct NamedColor {
    pub text: String,
    pub color: Option<Color>,
}

impl Clone for NamedColor {
    fn clone(&self) -> (r: Self)
        ensures
            r == *self,
    {
        NamedColor { text: self.text.clone(), color: self.color }
    }
}

/// A title: its text, and its style as the text renderer spells it.
#[derive(Debug, PartialEq)]
pub struct TextSpec {
    pub text: String,
    pub style: String,
}

impl Clone for TextSpec {
    fn clone(&self) -> (r: Self)
        ensures
            r == *self,
    {
        TextSpec { text: self.text.clone(), style: self.style.clone() }
    }
}

/// Three single-precision channels.
#[derive(Clone, Copy, Debug, PartialEq, Eq, Structural)]
pub struct Rgb {
    pub r: F32,
    pub g: F32,
    pub b: F32,
}

/// Three animated channels.
#[derive(Debug, PartialEq)]
pub struct Channels<V> {
    pub r: V,
    pub g: V,
    pub b: V,
}

impl Clone for Channels<AnimatedValue> {
    fn clone(&self) -> (r: Self)
        ensures
            r == *self,
    {
        Channels { r: self.r.clone(), g: self.g.clone(), b: self.b.clone() }
    }
}

/// A control point of a tone curve.
#[derive(Clone, Copy, Debug, PartialEq, Eq, Structural)]
pub struct CurvePoint {
    pub input: F32,
    pub output: F32,
}

/// The control points of a tone curve; none at all is the identity.
#[derive(Debug, PartialEq)]
pub struct Curve {
    pub points: Arc<Vec<CurvePoint>>,
}

impl Curve {
    /// The curve through the given points.
    pub fn new(points: Vec<CurvePoint>) -> (r: Curve)
        ensures
            r.points == points,
    {
        Curve { points: Arc::new(points) }
    }

    /// Whether the curve has no control points.
    pub open spec fn identity(self) -> bool {
        self.points@.len() == 0
    }

    /// Whether the curve has no control points.
    pub fn is_empty(&self) -> (r: bool)
        ensures
            r == self.identity(),
    {
        self.points.len() == 0
    }
}

impl Clone for Curve {
    fn clone(&self) -> (r: Self)
        ensures
            r == *self,
    {
        Curve { points: share(&self.points) }
    }
}

/// How layers mix.
#[derive(Clone, Copy, Debug, PartialEq, Eq, Structural)]
pub enum BlendMode {
    Normal,
    Multiply,
    Screen,
    Overlay,
    SoftLight,
    HardLight,
    ColorDodge,
    ColorBurn,
    Difference,
    Exclusion,
    Add,
    Subtract,
    Darken,
    Lighten,
    And,
    Average,
    Bleach,
    Divide,
    Extremity,
    Freeze,
    Geometric,
    Glow,
    GrainExtract,
    GrainMerge,
    HardMix,
    HardOverlay,
    Harmonic,
    Heat,
    Interpolate,
    LinearLight,
    Multiply128,
    Negation,
    Or,
    Phoenix,
    PinLight,
    Reflect,
    SoftDifference,
    Stain,
    VividLight,
    Xor,
    /// A mode this library has no name for.
    Other(u32),
}

/// Porter-Duff operators.
#[derive(Clone, Copy, Debug, PartialEq, Eq, Structural)]
pub enum CompositeOp {
    Over,
    Under,
    In,
    Out,
    Atop,
    Xor,
    /// An operator this library has no name for.
    Other(u32),
}

/// Resampling algorithms.
#[derive(Clone, Copy, Debug, PartialEq, Eq, Structural)]
pub enum ScaleAlgorithm {
    Fast,
    Bilinear,
    Bicubic,
    Lanczos,
    /// An algorithm this library has no name for.
    Other(u32),
}

/// Backends of the pitch shift.
#[derive(Clone, Copy, Debug, PartialEq, Eq, Structural)]
pub enum PitchAlgo {
    /// The signal path that is always there.
    Signal,
    /// A backend this library has no name for.
    Other(u32),
}

/// Cross-fade kinds.
#[derive(Clone, Copy, Debug, PartialEq, Eq, Structural)]
pub enum XfadeTransition {
    Fade,
    Dissolve,
    WipeLeft,
    WipeRight,
    WipeUp,
    WipeDown,
    SlideLeft,
    SlideRight,
    SlideUp,
    SlideDown,
    CircleOpen,
    CircleClose,
    FadeGrays,
    FadeBlack,
    FadeWhite,
    Pixelize,
    /// A kind this library has no name for.
    Other(u32),
}

/// One step of a layer's filter chain. `V` is what stands for an animated value: a
/// track or constant while authoring, a number once sampled at a frame time.
#[allow(inconsistent_fields)]
#[derive(Debug, PartialEq)]
pub enum FilterStep<V> {
    /// Keep a span of the source.
    Trim { start: Option<F64>, end: Option<F64> },
    /// Restart the timestamps at zero.
    ResetPts,
    /// Move the timestamps later.
    OffsetPts { seconds: F64 },
    /// Play faster or slower.
    Speed { factor: F64 },
    /// Keep a span of the audio.
    ATrim { start: Option<F64>, end: Option<F64> },
    /// Restart the audio timestamps at zero.
    AResetPts,
    /// Delay the audio.
    AudioDelay { ms: F64 },
    /// Shift the pitch.
    PitchShift { semitones: F32, algo: PitchAlgo },
    /// Fade the audio in.
    AFadeIn { start: F64, duration: F64 },
    /// Fade the audio out.
    AFadeOut { start: F64, duration: F64 },
    /// Gain in decibels.
    Volume { gain_db: F64 },
    /// Resize to a fixed size.
    Scale { width: u32, height: u32, algorithm: ScaleAlgorithm },
    /// Resize to an animated size in pixels.
    ScaleAnimated { width: V, height: V, algorithm: ScaleAlgorithm },
    /// Rotate by an animated angle in clockwise degrees.
    RotateAnimated { angle: V, fill_color: String },
    /// Scale to fit inside a size, padding the rest.
    FitToAspect { width: u32, height: u32, color: String },
    /// Scale to cover a size, cropping the rest.
    FillToAspect { width: u32, height: u32 },
    /// Brightness, contrast, saturation, temperature and tint.
    Eq { brightness: F32, contrast: F32, saturation: F32, temperature: F32, tint: F32 },
    /// The same, animated, with gamma.
    EqAnimated { brightness: V, contrast: V, saturation: V, gamma: V, temperature: V, tint: V },
    /// Gaussian blur.
    GBlur { sigma: F32 },
    /// Animated Gaussian blur.
    GBlurAnimated { sigma: V },
    /// Unsharp mask.
    Unsharp { luma_strength: F32, chroma_strength: F32 },
    /// Animated unsharp mask.
    UnsharpAnimated { luma_strength: V, chroma_strength: V },
    /// Vignette by angle, around an offset centre.
    Vignette { angle: F32, x0: F32, y0: F32 },
    /// Vignette by an animated amount.
    VignetteAnimated { amount: V, x0: F32, y0: F32 },
    /// Temporal grain.
    FilmGrain { luma_strength: F32, chroma_strength: F32 },
    /// Animated temporal grain.
    FilmGrainAnimated { luma_strength: V, chroma_strength: V },
    /// Bloom around highlights.
    Glow { threshold: F32, radius: F32, intensity: F32 },
    /// Animated bloom.
    GlowAnimated { threshold: V, radius: V, intensity: V },
    /// Lift, gamma and gain by channel.
    ThreeWayCC { lift: Rgb, gamma: Rgb, gain: Rgb },
    /// Animated lift, gamma and gain.
    ThreeWayCCAnimated { lift: Channels<V>, gamma: Channels<V>, gain: Channels<V> },
    /// Tone curves, the master one and one for each channel.
    Curves { master: Curve, r: Curve, g: Curve, b: Curve },
    /// Hue rotation.
    Hue { degrees: F32 },
    /// Hue, saturation and lightness.
    Hsl { hue: F32, saturation: F32, lightness: F32 },
    /// Animated hue, saturation and lightness.
    HslAnimated { hue: V, saturation: V, lightness: V },
    /// A colour table read from a file.
    Lut3d { path: String },
    /// Chroma key.
    ChromaKey { color: NamedColor, similarity: F32, blend: F32 },
    /// Animated chroma key.
    ChromaKeyAnimated { color: NamedColor, similarity: V, blend: V },
    /// Mask by the frame's own luma.
    LumaMask { invert: bool },
    /// Mask by a rectangle in pixels.
    RectMask { x: u32, y: u32, width: u32, height: u32, invert: bool },
    /// Mask by an animated rectangle.
    RectMaskAnimated { x: V, y: V, width: V, height: V, invert: bool },
    /// Exposure trail.
    MotionBlur { shutter_angle_degrees: F32, sub_frames: u8 },
    /// Exposure trail with an animated shutter.
    MotionBlurAnimated { shutter_angle: V, sub_frames: u8 },
    /// Cross-fade from the preceding clip.
    XFade { transition: XfadeTransition, duration: F64, offset: F64 },
    /// Any other step, as the filter graph spells it.
    Other { spelling: String },
}

impl Clone for FilterStep<AnimatedValue> {
    fn clone(&self) -> (r: Self)
        ensures
            r == *self,
    {
        match self {
            FilterStep::Trim { start, end } => FilterStep::Trim { start: *start, end: *end },
            FilterStep::ResetPts => FilterStep::ResetPts,
            FilterStep::OffsetPts { seconds } => FilterStep::OffsetPts { seconds: *seconds },
            FilterStep::Speed { factor } => FilterStep::Speed { factor: *factor },
            FilterStep::ATrim { start, end } => FilterStep::ATrim { start: *start, end: *end },
            FilterStep::AResetPts => FilterStep::AResetPts,
            FilterStep::AudioDelay { ms } => FilterStep::AudioDelay { ms: *ms },
            FilterStep::PitchShift { semitones, algo } => FilterStep::PitchShift {
                semitones: *semitones,
                algo: *algo,
            },
            FilterStep::AFadeIn { start, duration } => FilterStep::AFadeIn {
                start: *start,
                duration: *duration,
            },
            FilterStep::AFadeOut { start, duration } => FilterStep::AFadeOut {
                start: *start,
                duration: *duration,
            },
            FilterStep::Volume { gain_db } => FilterStep::Volume { gain_db: *gain_db },
            FilterStep::Scale { width, height, algorithm } => FilterStep::Scale {
                width: *width,
                height: *height,
                algorithm: *algorithm,
            },
            FilterStep::ScaleAnimated { width, height, algorithm } => FilterStep::ScaleAnimated {
                width: width.clone(),
                height: height.clone(),
                algorithm: *algorithm,
            },
            FilterStep::RotateAnimated { angle, fill_color } => FilterStep::RotateAnimated {
                angle: angle.clone(),
                fill_color: fill_color.clone(),
            },
            FilterStep::FitToAspect { width, height, color } => FilterStep::FitToAspect {
                width: *width,
                height: *height,
                color: color.clone(),
            },
            FilterStep::FillToAspect { width, height } => FilterStep::FillToAspect {
                width: *width,
                height: *height,
            },
            FilterStep::Eq {
                brightness,
                contrast,
                saturation,
                temperature,
                tint,
            } => FilterStep::Eq {
                brightness: *brightness,
                contrast: *contrast,
                saturation: *saturation,
                temperature: *temperature,
                tint: *tint,
            },
            FilterStep::EqAnimated {
                brightness,
                contrast,
                saturation,
                gamma,
                temperature,
                tint,
            } => FilterStep::EqAnimated {
                brightness: brightness.clone(),
                contrast: contrast.clone(),
                saturation: saturation.clone(),
                gamma: gamma.clone(),
                temperature: temperature.clone(),
                tint: tint.clone(),
            },
            FilterStep::GBlur { sigma } => FilterStep::GBlur { sigma: *sigma },
            FilterStep::GBlurAnimated { sigma } => FilterStep::GBlurAnimated {
                sigma: sigma.clone(),
            },
            FilterStep::Unsharp { luma_strength, chroma_strength } => FilterStep::Unsharp {
                luma_strength: *luma_strength,
                chroma_strength: *chroma_strength,
            },
            FilterStep::UnsharpAnimated {
                luma_strength,
                chroma_strength,
            } => FilterStep::UnsharpAnimated {
                luma_strength: luma_strength.clone(),
                chroma_strength: chroma_strength.clone(),
            },
            FilterStep::Vignette { angle, x0, y0 } => FilterStep::Vignette {
                angle: *angle,
                x0: *x0,
                y0: *y0,
            },
            FilterStep::VignetteAnimated { amount, x0, y0 } => FilterStep::VignetteAnimated {
                amount: amount.clone(),
                x0: *x0,
                y0: *y0,
            },
            FilterStep::FilmGrain { luma_strength, chroma_strength } => FilterStep::FilmGrain {
                luma_strength: *luma_strength,
                chroma_strength: *chroma_strength,
            },
            FilterStep::FilmGrainAnimated {
                luma_strength,
                chroma_strength,
            } => FilterStep::FilmGrainAnimated {
                luma_strength: luma_strength.clone(),
                chroma_strength: chroma_strength.clone(),
            },
            FilterStep::Glow { threshold, radius, intensity } => FilterStep::Glow {
                threshold: *threshold,
                radius: *radius,
                intensity: *intensity,
            },
            FilterStep::GlowAnimated { threshold, radius, intensity } => FilterStep::GlowAnimated {
                threshold: threshold.clone(),
                radius: radius.clone(),
                intensity: intensity.clone(),
            },
            FilterStep::ThreeWayCC { lift, gamma, gain } => FilterStep::ThreeWayCC {
                lift: *lift,
                gamma: *gamma,
                gain: *gain,
            },
            FilterStep::ThreeWayCCAnimated { lift, gamma, gain } => FilterStep::ThreeWayCCAnimated {
                lift: lift.clone(),
                gamma: gamma.clone(),
                gain: gain.clone(),
            },
            FilterStep::Curves { master, r, g, b } => FilterStep::Curves {
                master: master.clone(),
                r: r.clone(),
                g: g.clone(),
                b: b.clone(),
            },
            FilterStep::Hue { degrees } => FilterStep::Hue { degrees: *degrees },
            FilterStep::Hsl { hue, saturation, lightness } => FilterStep::Hsl {
                hue: *hue,
                saturation: *saturation,
                lightness: *lightness,
            },
            FilterStep::HslAnimated { hue, saturation, lightness } => FilterStep::HslAnimated {
                hue: hue.clone(),
                saturation: saturation.clone(),
                lightness: lightness.clone(),
            },
            FilterStep::Lut3d { path } => FilterStep::Lut3d { path: path.clone() },
            FilterStep::ChromaKey { color, similarity, blend } => FilterStep::ChromaKey {
                color: color.clone(),
                similarity: *similarity,
                blend: *blend,
            },
            FilterStep::ChromaKeyAnimated {
                color,
                similarity,
                blend,
            } => FilterStep::ChromaKeyAnimated {
                color: color.clone(),
                similarity: similarity.clone(),
                blend: blend.clone(),
            },
            FilterStep::LumaMask { invert } => FilterStep::LumaMask { invert: *invert },
            FilterStep::RectMask { x, y, width, height, invert } => FilterStep::RectMask {
                x: *x,
                y: *y,
                width: *width,
                height: *height,
                invert: *invert,
            },
            FilterStep::RectMaskAnimated {
                x,
                y,
                width,
                height,
                invert,
            } => FilterStep::RectMaskAnimated {
                x: x.clone(),
                y: y.clone(),
                width: width.clone(),
                height: height.clone(),
                invert: *invert,
            },
            FilterStep::MotionBlur { shutter_angle_degrees, sub_frames } => FilterStep::MotionBlur {
                shutter_angle_degrees: *shutter_angle_degrees,
                sub_frames: *sub_frames,
            },
            FilterStep::MotionBlurAnimated {
                shutter_angle,
                sub_frames,
            } => FilterStep::MotionBlurAnimated {
                shutter_angle: shutter_angle.clone(),
                sub_frames: *sub_frames,
            },
            FilterStep::XFade { transition, duration, offset } => FilterStep::XFade {
                transition: *transition,
                duration: *duration,
                offset: *offset,
            },
            FilterStep::Other { spelling } => FilterStep::Other { spelling: spelling.clone() },
        }
    }
}

/// Whether `at` is `authored` with each channel replaced by a number that `eval` gives for
/// it.
pub open spec fn channels_sampled<F: Fn(&AnimatedValue) -> F64>(
    authored: Channels<AnimatedValue>,
    eval: F,
    at: Channels<F64>,
) -> bool {
    &&& eval.ensures((&authored.r,), at.r)
    &&& eval.ensures((&authored.g,), at.g)
    &&& eval.ensures((&authored.b,), at.b)
}

fn channels_at<F: Fn(&AnimatedValue) -> F64>(
    channels: &Channels<AnimatedValue>,
    eval: &F,
) -> (r: Channels<F64>)
    requires
        forall|v: AnimatedValue| #[trigger] eval.requires((&v,)),
    ensures
        channels_sampled(*channels, *eval, r),
{
    Channels { r: eval(&channels.r), g: eval(&channels.g), b: eval(&channels.b) }
}

/// Whether `step` is `authored` with each animated value replaced by a number that `eval`
/// gives for it.
pub open spec fn step_sampled<F: Fn(&AnimatedValue) -> F64>(
    authored: FilterStep<AnimatedValue>,
    eval: F,
    step: FilterStep<F64>,
) -> bool {
    match (authored, step) {
        (FilterStep::Trim { start, end }, FilterStep::Trim { start: start_at, end: end_at }) => {
            &&& start == start_at
            &&& end == end_at
        },
        (FilterStep::ResetPts, FilterStep::ResetPts) => true,
        (FilterStep::OffsetPts { seconds }, FilterStep::OffsetPts { seconds: seconds_at }) => {
            &&& seconds == seconds_at
        },
        (FilterStep::Speed { factor }, FilterStep::Speed { factor: factor_at }) => {
            &&& factor == factor_at
        },
        (FilterStep::ATrim { start, end }, FilterStep::ATrim { start: start_at, end: end_at }) => {
            &&& start == start_at
            &&& end == end_at
        },
        (FilterStep::AResetPts, FilterStep::AResetPts) => true,
        (FilterStep::AudioDelay { ms }, FilterStep::AudioDelay { ms: ms_at }) => {
            &&& ms == ms_at
        },
        (
            FilterStep::PitchShift { semitones, algo },
            FilterStep::PitchShift { semitones: semitones_at, algo: algo_at },
        ) => {
            &&& semitones == semitones_at
            &&& algo == algo_at
        },
        (
            FilterStep::AFadeIn { start, duration },
            FilterStep::AFadeIn { start: start_at, duration: duration_at },
        ) => {
            &&& start == start_at
            &&& duration == duration_at
        },
        (
            FilterStep::AFadeOut { start, duration },
            FilterStep::AFadeOut { start: start_at, duration: duration_at },
        ) => {
            &&& start == start_at
            &&& duration == duration_at
        },
        (FilterStep::Volume { gain_db }, FilterStep::Volume { gain_db: gain_db_at }) => {
            &&& gain_db == gain_db_at
        },
        (
            FilterStep::Scale { width, height, algorithm },
            FilterStep::Scale { width: width_at, height: height_at, algorithm: algorithm_at },
        ) => {
            &&& width == width_at
            &&& height == height_at
            &&& algorithm == algorithm_at
        },
        (
            FilterStep::ScaleAnimated { width, height, algorithm },
            FilterStep::ScaleAnimated {
                width: width_at,
                height: height_at,
                algorithm: algorithm_at,
            },
        ) => {
            &&& eval.ensures((&width,), width_at)
            &&& eval.ensures((&height,), height_at)
            &&& algorithm == algorithm_at
        },
        (
            FilterStep::RotateAnimated { angle, fill_color },
            FilterStep::RotateAnimated { angle: angle_at, fill_color: fill_color_at },
        ) => {
            &&& eval.ensures((&angle,), angle_at)
            &&& fill_color == fill_color_at
        },
        (
            FilterStep::FitToAspect { width, height, color },
            FilterStep::FitToAspect { width: width_at, height: height_at, color: color_at },
        ) => {
            &&& width == width_at
            &&& height == height_at
            &&& color == color_at
        },
        (
            FilterStep::FillToAspect { width, height },
            FilterStep::FillToAspect { width: width_at, height: height_at },
        ) => {
            &&& width == width_at
            &&& height == height_at
        },
        (
            FilterStep::Eq { brightness, contrast, saturation, temperature, tint },
            FilterStep::Eq {
                brightness: brightness_at,
                contrast: contrast_at,
                saturation: saturation_at,
                temperature: temperature_at,
                tint: tint_at,
            },
        ) => {
            &&& brightness == brightness_at
            &&& contrast == contrast_at
            &&& saturation == saturation_at
            &&& temperature == temperature_at
            &&& tint == tint_at
        },
        (
            FilterStep::EqAnimated { brightness, contrast, saturation, gamma, temperature, tint },
            FilterStep::EqAnimated {
                brightness: brightness_at,
                contrast: contrast_at,
                saturation: saturation_at,
                gamma: gamma_at,
                temperature: temperature_at,
                tint: tint_at,
            },
        ) => {
            &&& eval.ensures((&brightness,), brightness_at)
            &&& eval.ensures((&contrast,), contrast_at)
            &&& eval.ensures((&saturation,), saturation_at)
            &&& eval.ensures((&gamma,), gamma_at)
            &&& eval.ensures((&temperature,), temperature_at)
            &&& eval.ensures((&tint,), tint_at)
        },
        (FilterStep::GBlur { sigma }, FilterStep::GBlur { sigma: sigma_at }) => {
            &&& sigma == sigma_at
        },
        (FilterStep::GBlurAnimated { sigma }, FilterStep::GBlurAnimated { sigma: sigma_at }) => {
            &&& eval.ensures((&sigma,), sigma_at)
        },
        (
            FilterStep::Unsharp { luma_strength, chroma_strength },
            FilterStep::Unsharp {
                luma_strength: luma_strength_at,
                chroma_strength: chroma_strength_at,
            },
        ) => {
            &&& luma_strength == luma_strength_at
            &&& chroma_strength == chroma_strength_at
        },
        (
            FilterStep::UnsharpAnimated { luma_strength, chroma_strength },
            FilterStep::UnsharpAnimated {
                luma_strength: luma_strength_at,
                chroma_strength: chroma_strength_at,
            },
        ) => {
            &&& eval.ensures((&luma_strength,), luma_strength_at)
            &&& eval.ensures((&chroma_strength,), chroma_strength_at)
        },
        (
            FilterStep::Vignette { angle, x0, y0 },
            FilterStep::Vignette { angle: angle_at, x0: x0_at, y0: y0_at },
        ) => {
            &&& angle == angle_at
            &&& x0 == x0_at
            &&& y0 == y0_at
        },
        (
            FilterStep::VignetteAnimated { amount, x0, y0 },
            FilterStep::VignetteAnimated { amount: amount_at, x0: x0_at, y0: y0_at },
        ) => {
            &&& eval.ensures((&amount,), amount_at)
            &&& x0 == x0_at
            &&& y0 == y0_at
        },
        (
            FilterStep::FilmGrain { luma_strength, chroma_strength },
            FilterStep::FilmGrain {
                luma_strength: luma_strength_at,
                chroma_strength: chroma_strength_at,
            },
        ) => {
            &&& luma_strength == luma_strength_at
            &&& chroma_strength == chroma_strength_at
        },
        (
            FilterStep::FilmGrainAnimated { luma_strength, chroma_strength },
            FilterStep::FilmGrainAnimated {
                luma_strength: luma_strength_at,
                chroma_strength: chroma_strength_at,
            },
        ) => {
            &&& eval.ensures((&luma_strength,), luma_strength_at)
            &&& eval.ensures((&chroma_strength,), chroma_strength_at)
        },
        (
            FilterStep::Glow { threshold, radius, intensity },
            FilterStep::Glow {
                threshold: threshold_at,
                radius: radius_at,
                intensity: intensity_at,
            },
        ) => {
            &&& threshold == threshold_at
            &&& radius == radius_at
            &&& intensity == intensity_at
        },
        (
            FilterStep::GlowAnimated { threshold, radius, intensity },
            FilterStep::GlowAnimated {
                threshold: threshold_at,
                radius: radius_at,
                intensity: intensity_at,
            },
        ) => {
            &&& eval.ensures((&threshold,), threshold_at)
            &&& eval.ensures((&radius,), radius_at)
            &&& eval.ensures((&intensity,), intensity_at)
        },
        (
            FilterStep::ThreeWayCC { lift, gamma, gain },
            FilterStep::ThreeWayCC { lift: lift_at, gamma: gamma_at, gain: gain_at },
        ) => {
            &&& lift == lift_at
            &&& gamma == gamma_at
            &&& gain == gain_at
        },
        (
            FilterStep::ThreeWayCCAnimated { lift, gamma, gain },
            FilterStep::ThreeWayCCAnimated { lift: lift_at, gamma: gamma_at, gain: gain_at },
        ) => {
            &&& channels_sampled(lift, eval, lift_at)
            &&& channels_sampled(gamma, eval, gamma_at)
            &&& channels_sampled(gain, eval, gain_at)
        },
        (
            FilterStep::Curves { master, r, g, b },
            FilterStep::Curves { master: master_at, r: r_at, g: g_at, b: b_at },
        ) => {
            &&& master == master_at
            &&& r == r_at
            &&& g == g_at
            &&& b == b_at
        },
        (FilterStep::Hue { degrees }, FilterStep::Hue { degrees: degrees_at }) => {
            &&& degrees == degrees_at
        },
        (
            FilterStep::Hsl { hue, saturation, lightness },
            FilterStep::Hsl { hue: hue_at, saturation: saturation_at, lightness: lightness_at },
        ) => {
            &&& hue == hue_at
            &&& saturation == saturation_at
            &&& lightness == lightness_at
        },
        (
            FilterStep::HslAnimated { hue, saturation, lightness },
            FilterStep::HslAnimated {
                hue: hue_at,
                saturation: saturation_at,
                lightness: lightness_at,
            },
        ) => {
            &&& eval.ensures((&hue,), hue_at)
            &&& eval.ensures((&saturation,), saturation_at)
            &&& eval.ensures((&lightness,), lightness_at)
        },
        (FilterStep::Lut3d { path }, FilterStep::Lut3d { path: path_at }) => {
            &&& path == path_at
        },
        (
            FilterStep::ChromaKey { color, similarity, blend },
            FilterStep::ChromaKey { color: color_at, similarity: similarity_at, blend: blend_at },
        ) => {
            &&& color == color_at
            &&& similarity == similarity_at
            &&& blend == blend_at
        },
        (
            FilterStep::ChromaKeyAnimated { color, similarity, blend },
            FilterStep::ChromaKeyAnimated {
                color: color_at,
                similarity: similarity_at,
                blend: blend_at,
            },
        ) => {
            &&& color == color_at
            &&& eval.ensures((&similarity,), similarity_at)
            &&& eval.ensures((&blend,), blend_at)
        },
        (FilterStep::LumaMask { invert }, FilterStep::LumaMask { invert: invert_at }) => {
            &&& invert == invert_at
        },
        (
            FilterStep::RectMask { x, y, width, height, invert },
            FilterStep::RectMask {
                x: x_at,
                y: y_at,
                width: width_at,
                height: height_at,
                invert: invert_at,
            },
        ) => {
            &&& x == x_at
            &&& y == y_at
            &&& width == width_at
            &&& height == height_at
            &&& invert == invert_at
        },
        (
            FilterStep::RectMaskAnimated { x, y, width, height, invert },
            FilterStep::RectMaskAnimated {
                x: x_at,
                y: y_at,
                width: width_at,
                height: height_at,
                invert: invert_at,
            },
        ) => {
            &&& eval.ensures((&x,), x_at)
            &&& eval.ensures((&y,), y_at)
            &&& eval.ensures((&width,), width_at)
            &&& eval.ensures((&height,), height_at)
            &&& invert == invert_at
        },
        (
            FilterStep::MotionBlur { shutter_angle_degrees, sub_frames },
            FilterStep::MotionBlur {
                shutter_angle_degrees: shutter_angle_degrees_at,
                sub_frames: sub_frames_at,
            },
        ) => {
            &&& shutter_angle_degrees == shutter_angle_degrees_at
            &&& sub_frames == sub_frames_at
        },
        (
            FilterStep::MotionBlurAnimated { shutter_angle, sub_frames },
            FilterStep::MotionBlurAnimated {
                shutter_angle: shutter_angle_at,
                sub_frames: sub_frames_at,
            },
        ) => {
            &&& eval.ensures((&shutter_angle,), shutter_angle_at)
            &&& sub_frames == sub_frames_at
        },
        (
            FilterStep::XFade { transition, duration, offset },
            FilterStep::XFade {
                transition: transition_at,
                duration: duration_at,
                offset: offset_at,
            },
        ) => {
            &&& transition == transition_at
            &&& duration == duration_at
            &&& offset == offset_at
        },
        (FilterStep::Other { spelling }, FilterStep::Other { spelling: spelling_at }) => {
            &&& spelling == spelling_at
        },
        _ => false,
    }
}

impl FilterStep<AnimatedValue> {
    /// The step at one moment: each animated value replaced by what `eval` gives for it.
    pub fn at<F: Fn(&AnimatedValue) -> F64>(&self, eval: &F) -> (r: FilterStep<F64>)
        requires
            forall|v: AnimatedValue| #[trigger] eval.requires((&v,)),
        ensures
            step_sampled(*self, *eval, r),
    {
        match self {
            FilterStep::Trim { start, end } => FilterStep::Trim { start: *start, end: *end },
            FilterStep::ResetPts => FilterStep::ResetPts,
            FilterStep::OffsetPts { seconds } => FilterStep::OffsetPts { seconds: *seconds },
            FilterStep::Speed { factor } => FilterStep::Speed { factor: *factor },
            FilterStep::ATrim { start, end } => FilterStep::ATrim { start: *start, end: *end },
            FilterStep::AResetPts => FilterStep::AResetPts,
            FilterStep::AudioDelay { ms } => FilterStep::AudioDelay { ms: *ms },
            FilterStep::PitchShift { semitones, algo } => FilterStep::PitchShift {
                semitones: *semitones,
                algo: *algo,
            },
            FilterStep::AFadeIn { start, duration } => FilterStep::AFadeIn {
                start: *start,
                duration: *duration,
            },
            FilterStep::AFadeOut { start, duration } => FilterStep::AFadeOut {
                start: *start,
                duration: *duration,
            },
            FilterStep::Volume { gain_db } => FilterStep::Volume { gain_db: *gain_db },
            FilterStep::Scale { width, height, algorithm } => FilterStep::Scale {
                width: *width,
                height: *height,
                algorithm: *algorithm,
            },
            FilterStep::ScaleAnimated { width, height, algorithm } => FilterStep::ScaleAnimated {
                width: eval(width),
                height: eval(height),
                algorithm: *algorithm,
            },
            FilterStep::RotateAnimated { angle, fill_color } => FilterStep::RotateAnimated {
                angle: eval(angle),
                fill_color: fill_color.clone(),
            },
            FilterStep::FitToAspect { width, height, color } => FilterStep::FitToAspect {
                width: *width,
                height: *height,
                color: color.clone(),
            },
            FilterStep::FillToAspect { width, height } => FilterStep::FillToAspect {
                width: *width,
                height: *height,
            },
            FilterStep::Eq {
                brightness,
                contrast,
                saturation,
                temperature,
                tint,
            } => FilterStep::Eq {
                brightness: *brightness,
                contrast: *contrast,
                saturation: *saturation,
                temperature: *temperature,
                tint: *tint,
            },
            FilterStep::EqAnimated {
                brightness,
                contrast,
                saturation,
                gamma,
                temperature,
                tint,
            } => FilterStep::EqAnimated {
                brightness: eval(brightness),
                contrast: eval(contrast),
                saturation: eval(saturation),
                gamma: eval(gamma),
                temperature: eval(temperature),
                tint: eval(tint),
            },
            FilterStep::GBlur { sigma } => FilterStep::GBlur { sigma: *sigma },
            FilterStep::GBlurAnimated { sigma } => FilterStep::GBlurAnimated { sigma: eval(sigma) },
            FilterStep::Unsharp { luma_strength, chroma_strength } => FilterStep::Unsharp {
                luma_strength: *luma_strength,
                chroma_strength: *chroma_strength,
            },
            FilterStep::UnsharpAnimated {
                luma_strength,
                chroma_strength,
            } => FilterStep::UnsharpAnimated {
                luma_strength: eval(luma_strength),
                chroma_strength: eval(chroma_strength),
            },
            FilterStep::Vignette { angle, x0, y0 } => FilterStep::Vignette {
                angle: *angle,
                x0: *x0,
                y0: *y0,
            },
            FilterStep::VignetteAnimated { amount, x0, y0 } => FilterStep::VignetteAnimated {
                amount: eval(amount),
                x0: *x0,
                y0: *y0,
            },
            FilterStep::FilmGrain { luma_strength, chroma_strength } => FilterStep::FilmGrain {
                luma_strength: *luma_strength,
                chroma_strength: *chroma_strength,
            },
            FilterStep::FilmGrainAnimated {
                luma_strength,
                chroma_strength,
            } => FilterStep::FilmGrainAnimated {
                luma_strength: eval(luma_strength),
                chroma_strength: eval(chroma_strength),
            },
            FilterStep::Glow { threshold, radius, intensity } => FilterStep::Glow {
                threshold: *threshold,
                radius: *radius,
                intensity: *intensity,
            },
            FilterStep::GlowAnimated { threshold, radius, intensity } => FilterStep::GlowAnimated {
                threshold: eval(threshold),
                radius: eval(radius),
                intensity: eval(intensity),
            },
            FilterStep::ThreeWayCC { lift, gamma, gain } => FilterStep::ThreeWayCC {
                lift: *lift,
                gamma: *gamma,
                gain: *gain,
            },
            FilterStep::ThreeWayCCAnimated { lift, gamma, gain } => FilterStep::ThreeWayCCAnimated {
                lift: channels_at(lift, eval),
                gamma: channels_at(gamma, eval),
                gain: channels_at(gain, eval),
            },
            FilterStep::Curves { master, r, g, b } => FilterStep::Curves {
                master: master.clone(),
                r: r.clone(),
                g: g.clone(),
                b: b.clone(),
            },
            FilterStep::Hue { degrees } => FilterStep::Hue { degrees: *degrees },
            FilterStep::Hsl { hue, saturation, lightness } => FilterStep::Hsl {
                hue: *hue,
                saturation: *saturation,
                lightness: *lightness,
            },
            FilterStep::HslAnimated { hue, saturation, lightness } => FilterStep::HslAnimated {
                hue: eval(hue),
                saturation: eval(saturation),
                lightness: eval(lightness),
            },
            FilterStep::Lut3d { path } => FilterStep::Lut3d { path: path.clone() },
            FilterStep::ChromaKey { color, similarity, blend } => FilterStep::ChromaKey {
                color: color.clone(),
                similarity: *similarity,
                blend: *blend,
            },
            FilterStep::ChromaKeyAnimated {
                color,
                similarity,
                blend,
            } => FilterStep::ChromaKeyAnimated {
                color: color.clone(),
                similarity: eval(similarity),
                blend: eval(blend),
            },
            FilterStep::LumaMask { invert } => FilterStep::LumaMask { invert: *invert },
            FilterStep::RectMask { x, y, width, height, invert } => FilterStep::RectMask {
                x: *x,
                y: *y,
                width: *width,
                height: *height,
                invert: *invert,
            },
            FilterStep::RectMaskAnimated {
                x,
                y,
                width,
                height,
                invert,
            } => FilterStep::RectMaskAnimated {
                x: eval(x),
                y: eval(y),
                width: eval(width),
                height: eval(height),
                invert: *invert,
            },
            FilterStep::MotionBlur { shutter_angle_degrees, sub_frames } => FilterStep::MotionBlur {
                shutter_angle_degrees: *shutter_angle_degrees,
                sub_frames: *sub_frames,
            },
            FilterStep::MotionBlurAnimated {
                shutter_angle,
                sub_frames,
            } => FilterStep::MotionBlurAnimated {
                shutter_angle: eval(shutter_angle),
                sub_frames: *sub_frames,
            },
            FilterStep::XFade { transition, duration, offset } => FilterStep::XFade {
                transition: *transition,
                duration: *duration,
                offset: *offset,
            },
            FilterStep::Other { spelling } => FilterStep::Other { spelling: spelling.clone() },
        }
    }
}

/// Whether two animated values hold the same: the same constant, or the same keyframes.
pub open spec fn values_alike(a: AnimatedValue, b: AnimatedValue) -> bool {
    match (a, b) {
        (AnimatedValue::Static(v), AnimatedValue::Static(w)) => v == w,
        (AnimatedValue::Track(t), AnimatedValue::Track(u)) => t.keyframes@ == u.keyframes@,
        _ => false,
    }
}

/// Whether two steps do the same: they are equal, texts taken by their characters and tracks by
/// their keyframes.
pub open spec fn steps_alike(a: FilterStep<AnimatedValue>, b: FilterStep<AnimatedValue>) -> bool {
    ||| a == b
    ||| match (a, b) {
        (
            FilterStep::ScaleAnimated { width: w, height: h, algorithm: m },
            FilterStep::ScaleAnimated { width: x, height: i, algorithm: n },
        ) => values_alike(w, x) && values_alike(h, i) && m == n,
        (
            FilterStep::RotateAnimated { angle: x, fill_color: c },
            FilterStep::RotateAnimated { angle: y, fill_color: d },
        ) => x == y && c@ == d@,
        (
            FilterStep::FitToAspect { width: w, height: h, color: c },
            FilterStep::FitToAspect { width: x, height: i, color: d },
        ) => w == x && h == i && c@ == d@,
        (
            FilterStep::ThreeWayCCAnimated { lift: l, gamma: g, gain: h },
            FilterStep::ThreeWayCCAnimated { lift: m, gamma: i, gain: j },
        ) => values_alike(l.r, m.r) && values_alike(l.g, m.g) && values_alike(l.b, m.b) && g == i
            && h == j,
        (
            FilterStep::ChromaKey { color: c, similarity: s, blend: f },
            FilterStep::ChromaKey { color: d, similarity: t, blend: g },
        ) => c.text@ == d.text@ && c.color == d.color && s == t && f == g,
        (
            FilterStep::ChromaKeyAnimated { color: c, similarity: s, blend: f },
            FilterStep::ChromaKeyAnimated { color: d, similarity: t, blend: g },
        ) => c.text@ == d.text@ && c.color == d.color && s == t && f == g,
        _ => false,
    }
}

/// Whether two chains do the same, step by step.
pub open spec fn chains_alike(
    s: Seq<FilterStep<AnimatedValue>>,
    t: Seq<FilterStep<AnimatedValue>>,
) -> bool {
    &&& s.len() == t.len()
    &&& forall|i: int|
        #![trigger s[i]]
        #![trigger t[i]]
        0 <= i < s.len() ==> steps_alike(s[i], t[i])
}

} // verus!

//! From a frame's layers to a plan for compositing it on the GPU.
//!
//! A frame maps as a whole: where one layer holds a blend mode, an operator or a step that no
//! GPU node covers, the frame falls back to the CPU compositor, and no step is dropped.

use vstd::prelude::*;

use crate::derive::{RealtimeLayerDescriptor, VideoLayer};
use crate::effect;
use crate::effect::{EffectKind, Param};
use crate::filter;
use crate::filter::{
    AnimatedValue, BlendMode, Channels, Color, CompositeOp, Curve, FilterStep, NamedColor, Rgb,
    ScaleAlgorithm,
};
use crate::float::double;
use crate::float::double::F64;
use crate::float::rounding;
use crate::float::single;
use crate::float::single::F32;
use crate::float::values;
use crate::time;
use crate::time::Duration;

verus! {

/// Blend modes of the GPU compositor.
#[derive(Clone, Copy, Debug, PartialEq, Eq, Structural)]
pub enum RenderBlendMode {
    Normal,
    Multiply,
    Screen,
    Overlay,
    SoftLight,
    HardLight,
    ColorDodge,
    ColorBurn,
    Difference,
    Exclusion,
    Add,
    Subtract,
    Darken,
    Lighten,
    And,
    Average,
    Bleach,
    Divide,
    Extremity,
    Freeze,
    Geometric,
    Glow,
    GrainExtract,
    GrainMerge,
    HardMix,
    HardOverlay,
    Harmonic,
    Heat,
    Interpolate,
    LinearLight,
    Multiply128,
    Negation,
    Or,
    Phoenix,
    PinLight,
    Reflect,
    SoftDifference,
    Stain,
    VividLight,
    Xor,
}

/// Porter-Duff operators of the GPU compositor.
#[derive(Clone, Copy, Debug, PartialEq, Eq, Structural)]
pub enum RenderCompositeOp {
    Over,
    Under,
    In,
    Out,
    Atop,
    Xor,
}

/// Resampling algorithms of the GPU scaler.
#[derive(Clone, Copy, Debug, PartialEq, Eq, Structural)]
pub enum RenderScaleAlgorithm {
    Bilinear,
    Bicubic,
    Lanczos,
}

/// A layer effect that a GPU node runs.
#[allow(inconsistent_fields)]
#[derive(Debug, PartialEq)]
pub enum GpuEffect {
    /// Brightness, contrast, saturation, temperature and tint.
    ColorGrade { brightness: F32, contrast: F32, saturation: F32, temperature: F32, tint: F32 },
    /// Resize to a fixed target.
    Scale { width: u32, height: u32, algorithm: RenderScaleAlgorithm },
    /// Gaussian blur.
    Blur { sigma: F32 },
    /// Unsharp mask on luma.
    Sharpen { radius: F32, strength: F32 },
    /// Radial darkening.
    Vignette { radius: F32, strength: F32, feather: F32 },
    /// Temporal grain, seeded by the frame.
    FilmGrain { luma_strength: F32, chroma_strength: F32, frame_index: u32 },
    /// Bloom around highlights.
    Glow { threshold: F32, radius: F32, intensity: F32 },
    /// Three-way corrector: additive lift, gamma and gain.
    ColorWheels { shadows_lift: Rgb, midtones_gamma: Rgb, highlights_gain: Rgb },
    /// Tone curves, the master one and one for each channel.
    Curves { master: Curve, red: Curve, green: Curve, blue: Curve },
    /// Hue, saturation and lightness.
    Hsl { hue_shift: F32, saturation: F32, lightness: F32 },
    /// A colour table read from a file.
    Lut { path: String },
    /// Keying by chroma distance.
    ChromaKey { key_color: Rgb, tolerance: F32, softness: F32 },
    /// Mask by the frame's own luma.
    LumaMask { invert: bool },
    /// Mask by a rectangle in pixels.
    ShapeMask { x: u32, y: u32, width: u32, height: u32, invert: bool },
    /// Exposure trail, which accumulates over the frames of a clip.
    MotionBlur { shutter_angle: F32, sub_frames: u8 },
}

impl Clone for GpuEffect {
    fn clone(&self) -> (r: Self)
        ensures
            r == *self,
    {
        match self {
            GpuEffect::ColorGrade {
                brightness,
                contrast,
                saturation,
                temperature,
                tint,
            } => GpuEffect::ColorGrade {
                brightness: *brightness,
                contrast: *contrast,
                saturation: *saturation,
                temperature: *temperature,
                tint: *tint,
            },
            GpuEffect::Scale { width, height, algorithm } => GpuEffect::Scale {
                width: *width,
                height: *height,
                algorithm: *algorithm,
            },
            GpuEffect::Blur { sigma } => GpuEffect::Blur { sigma: *sigma },
            GpuEffect::Sharpen { radius, strength } => GpuEffect::Sharpen {
                radius: *radius,
                strength: *strength,
            },
            GpuEffect::Vignette { radius, strength, feather } => GpuEffect::Vignette {
                radius: *radius,
                strength: *strength,
                feather: *feather,
            },
            GpuEffect::FilmGrain {
                luma_strength,
                chroma_strength,
                frame_index,
            } => GpuEffect::FilmGrain {
                luma_strength: *luma_strength,
                chroma_strength: *chroma_strength,
                frame_index: *frame_index,
            },
            GpuEffect::Glow { threshold, radius, intensity } => GpuEffect::Glow {
                threshold: *threshold,
                radius: *radius,
                intensity: *intensity,
            },
            GpuEffect::ColorWheels {
                shadows_lift,
                midtones_gamma,
                highlights_gain,
            } => GpuEffect::ColorWheels {
                shadows_lift: *shadows_lift,
                midtones_gamma: *midtones_gamma,
                highlights_gain: *highlights_gain,
            },
            GpuEffect::Curves { master, red, green, blue } => GpuEffect::Curves {
                master: master.clone(),
                red: red.clone(),
                green: green.clone(),
                blue: blue.clone(),
            },
            GpuEffect::Hsl { hue_shift, saturation, lightness } => GpuEffect::Hsl {
                hue_shift: *hue_shift,
                saturation: *saturation,
                lightness: *lightness,
            },
            GpuEffect::Lut { path } => GpuEffect::Lut { path: path.clone() },
            GpuEffect::ChromaKey { key_color, tolerance, softness } => GpuEffect::ChromaKey {
                key_color: *key_color,
                tolerance: *tolerance,
                softness: *softness,
            },
            GpuEffect::LumaMask { invert } => GpuEffect::LumaMask { invert: *invert },
            GpuEffect::ShapeMask { x, y, width, height, invert } => GpuEffect::ShapeMask {
                x: *x,
                y: *y,
                width: *width,
                height: *height,
                invert: *invert,
            },
            GpuEffect::MotionBlur { shutter_angle, sub_frames } => GpuEffect::MotionBlur {
                shutter_angle: *shutter_angle,
                sub_frames: *sub_frames,
            },
        }
    }
}

/// Whether two colours have numerically equal channels.
pub open spec fn rgb_agree(a: Rgb, b: Rgb) -> bool {
    single::equal(a.r, b.r) && single::equal(a.g, b.g) && single::equal(a.b, b.b)
}

/// Whether two curves run through numerically equal points.
pub open spec fn curves_agree(a: Curve, b: Curve) -> bool {
    &&& a.points@.len() == b.points@.len()
    &&& forall|i: int|
        #![trigger a.points@[i]]
        #![trigger b.points@[i]]
        0 <= i < a.points@.len() ==> single::equal(a.points@[i].input, b.points@[i].input)
            && single::equal(a.points@[i].output, b.points@[i].output)
}

/// Whether two effects are of one kind with equal parameters, numbers compared numerically: an
/// undefined number agrees with nothing.
pub open spec fn effects_agree(a: GpuEffect, b: GpuEffect) -> bool {
    match (a, b) {
        (
            GpuEffect::ColorGrade { brightness, contrast, saturation, temperature, tint },
            GpuEffect::ColorGrade {
                brightness: brightness_2,
                contrast: contrast_2,
                saturation: saturation_2,
                temperature: temperature_2,
                tint: tint_2,
            },
        ) => {
            &&& single::equal(brightness, brightness_2)
            &&& single::equal(contrast, contrast_2)
            &&& single::equal(saturation, saturation_2)
            &&& single::equal(temperature, temperature_2)
            &&& single::equal(tint, tint_2)
        },
        (
            GpuEffect::Scale { width, height, algorithm },
            GpuEffect::Scale { width: width_2, height: height_2, algorithm: algorithm_2 },
        ) => {
            &&& width == width_2
            &&& height == height_2
            &&& algorithm == algorithm_2
        },
        (GpuEffect::Blur { sigma }, GpuEffect::Blur { sigma: sigma_2 }) => {
            &&& single::equal(sigma, sigma_2)
        },
        (
            GpuEffect::Sharpen { radius, strength },
            GpuEffect::Sharpen { radius: radius_2, strength: strength_2 },
        ) => {
            &&& single::equal(radius, radius_2)
            &&& single::equal(strength, strength_2)
        },
        (
            GpuEffect::Vignette { radius, strength, feather },
            GpuEffect::Vignette { radius: radius_2, strength: strength_2, feather: feather_2 },
        ) => {
            &&& single::equal(radius, radius_2)
            &&& single::equal(strength, strength_2)
            &&& single::equal(feather, feather_2)
        },
        (
            GpuEffect::FilmGrain { luma_strength, chroma_strength, frame_index },
            GpuEffect::FilmGrain {
                luma_strength: luma_strength_2,
                chroma_strength: chroma_strength_2,
                frame_index: frame_index_2,
            },
        ) => {
            &&& single::equal(luma_strength, luma_strength_2)
            &&& single::equal(chroma_strength, chroma_strength_2)
            &&& frame_index == frame_index_2
        },
        (
            GpuEffect::Glow { threshold, radius, intensity },
            GpuEffect::Glow { threshold: threshold_2, radius: radius_2, intensity: intensity_2 },
        ) => {
            &&& single::equal(threshold, threshold_2)
            &&& single::equal(radius, radius_2)
            &&& single::equal(intensity, intensity_2)
        },
        (
            GpuEffect::ColorWheels { shadows_lift, midtones_gamma, highlights_gain },
            GpuEffect::ColorWheels {
                shadows_lift: shadows_lift_2,
                midtones_gamma: midtones_gamma_2,
                highlights_gain: highlights_gain_2,
            },
        ) => {
            &&& rgb_agree(shadows_lift, shadows_lift_2)
            &&& rgb_agree(midtones_gamma, midtones_gamma_2)
            &&& rgb_agree(highlights_gain, highlights_gain_2)
        },
        (
            GpuEffect::Curves { master, red, green, blue },
            GpuEffect::Curves { master: master_2, red: red_2, green: green_2, blue: blue_2 },
        ) => {
            &&& curves_agree(master, master_2)
            &&& curves_agree(red, red_2)
            &&& curves_agree(green, green_2)
            &&& curves_agree(blue, blue_2)
        },
        (
            GpuEffect::Hsl { hue_shift, saturation, lightness },
            GpuEffect::Hsl {
                hue_shift: hue_shift_2,
                saturation: saturation_2,
                lightness: lightness_2,
            },
        ) => {
            &&& single::equal(hue_shift, hue_shift_2)
            &&& single::equal(saturation, saturation_2)
            &&& single::equal(lightness, lightness_2)
        },
        (GpuEffect::Lut { path }, GpuEffect::Lut { path: path_2 }) => {
            &&& path@ == path_2@
        },
        (
            GpuEffect::ChromaKey { key_color, tolerance, softness },
            GpuEffect::ChromaKey {
                key_color: key_color_2,
                tolerance: tolerance_2,
                softness: softness_2,
            },
        ) => {
            &&& rgb_agree(key_color, key_color_2)
            &&& single::equal(tolerance, tolerance_2)
            &&& single::equal(softness, softness_2)
        },
        (GpuEffect::LumaMask { invert }, GpuEffect::LumaMask { invert: invert_2 }) => {
            &&& invert == invert_2
        },
        (
            GpuEffect::ShapeMask { x, y, width, height, invert },
            GpuEffect::ShapeMask {
                x: x_2,
                y: y_2,
                width: width_2,
                height: height_2,
                invert: invert_2,
            },
        ) => {
            &&& x == x_2
            &&& y == y_2
            &&& width == width_2
            &&& height == height_2
            &&& invert == invert_2
        },
        (
            GpuEffect::MotionBlur { shutter_angle, sub_frames },
            GpuEffect::MotionBlur { shutter_angle: shutter_angle_2, sub_frames: sub_frames_2 },
        ) => {
            &&& single::equal(shutter_angle, shutter_angle_2)
            &&& sub_frames == sub_frames_2
        },
        _ => false,
    }
}

fn rgb_same(a: Rgb, b: Rgb) -> (r: bool)
    ensures
        r == rgb_agree(a, b),
{
    a.r.same(b.r) && a.g.same(b.g) && a.b.same(b.b)
}

fn curve_same(a: &Curve, b: &Curve) -> (r: bool)
    ensures
        r == curves_agree(*a, *b),
{
    if a.points.len() != b.points.len() {
        return false;
    }
    let mut i: usize = 0;
    while i < a.points.len()
        invariant
            i <= a.points@.len(),
            a.points@.len() == b.points@.len(),
            forall|j: int|
                #![trigger a.points@[j]]
                #![trigger b.points@[j]]
                0 <= j < i ==> single::equal(a.points@[j].input, b.points@[j].input)
                    && single::equal(a.points@[j].output, b.points@[j].output),
        decreases a.points@.len() - i,
    {
        let p = a.points[i];
        let q = b.points[i];
        if !(p.input.same(q.input) && p.output.same(q.output)) {
            assert(!(single::equal(a.points@[i as int].input, b.points@[i as int].input)
                && single::equal(a.points@[i as int].output, b.points@[i as int].output)));
            return false;
        }
        i = i + 1;
    }
    true
}

/// Whether two effects are of one kind with numerically equal parameters.
pub fn same_effect(a: &GpuEffect, b: &GpuEffect) -> (r: bool)
    ensures
        r == effects_agree(*a, *b),
{
    match (a, b) {
        (
            GpuEffect::ColorGrade { brightness, contrast, saturation, temperature, tint },
            GpuEffect::ColorGrade {
                brightness: brightness_2,
                contrast: contrast_2,
                saturation: saturation_2,
                temperature: temperature_2,
                tint: tint_2,
            },
        ) => {
            brightness.same(*brightness_2)
                && contrast.same(*contrast_2)
                && saturation.same(*saturation_2)
                && temperature.same(*temperature_2)
                && tint.same(*tint_2)
        },
        (
            GpuEffect::Scale { width, height, algorithm },
            GpuEffect::Scale { width: width_2, height: height_2, algorithm: algorithm_2 },
        ) => {
            *width == *width_2 && *height == *height_2 && *algorithm == *algorithm_2
        },
        (GpuEffect::Blur { sigma }, GpuEffect::Blur { sigma: sigma_2 }) => {
            sigma.same(*sigma_2)
        },
        (
            GpuEffect::Sharpen { radius, strength },
            GpuEffect::Sharpen { radius: radius_2, strength: strength_2 },
        ) => {
            radius.same(*radius_2) && strength.same(*strength_2)
        },
        (
            GpuEffect::Vignette { radius, strength, feather },
            GpuEffect::Vignette { radius: radius_2, strength: strength_2, feather: feather_2 },
        ) => {
            radius.same(*radius_2) && strength.same(*strength_2) && feather.same(*feather_2)
        },
        (
            GpuEffect::FilmGrain { luma_strength, chroma_strength, frame_index },
            GpuEffect::FilmGrain {
                luma_strength: luma_strength_2,
                chroma_strength: chroma_strength_2,
                frame_index: frame_index_2,
            },
        ) => {
            luma_strength.same(*luma_strength_2)
                && chroma_strength.same(*chroma_strength_2)
                && *frame_index == *frame_index_2
        },
        (
            GpuEffect::Glow { threshold, radius, intensity },
            GpuEffect::Glow { threshold: threshold_2, radius: radius_2, intensity: intensity_2 },
        ) => {
            threshold.same(*threshold_2) && radius.same(*radius_2) && intensity.same(*intensity_2)
        },
        (
            GpuEffect::ColorWheels { shadows_lift, midtones_gamma, highlights_gain },
            GpuEffect::ColorWheels {
                shadows_lift: shadows_lift_2,
                midtones_gamma: midtones_gamma_2,
                highlights_gain: highlights_gain_2,
            },
        ) => {
            rgb_same(*shadows_lift, *shadows_lift_2)
                && rgb_same(*midtones_gamma, *midtones_gamma_2)
                && rgb_same(*highlights_gain,*highlights_gain_2)
        },
        (
            GpuEffect::Curves { master, red, green, blue },
            GpuEffect::Curves { master: master_2, red: red_2, green: green_2, blue: blue_2 },
        ) => {
            curve_same(master, master_2)
                && curve_same(red, red_2)
                && curve_same(green, green_2)
                && curve_same(blue,blue_2)
        },
        (
            GpuEffect::Hsl { hue_shift, saturation, lightness },
            GpuEffect::Hsl {
                hue_shift: hue_shift_2,
                saturation: saturation_2,
                lightness: lightness_2,
            },
        ) => {
            hue_shift.same(*hue_shift_2) && saturation.same(*saturation_2) && lightness.same(
                *lightness_2,
            )
        },
        (GpuEffect::Lut { path }, GpuEffect::Lut { path: path_2 }) => {
            *path == *path_2
        },
        (
            GpuEffect::ChromaKey { key_color, tolerance, softness },
            GpuEffect::ChromaKey {
                key_color: key_color_2,
                tolerance: tolerance_2,
                softness: softness_2,
            },
        ) => {
            rgb_same(*key_color, *key_color_2) && tolerance.same(*tolerance_2) && softness.same(
                *softness_2,
            )
        },
        (GpuEffect::LumaMask { invert }, GpuEffect::LumaMask { invert: invert_2 }) => {
            *invert == *invert_2
        },
        (
            GpuEffect::ShapeMask { x, y, width, height, invert },
            GpuEffect::ShapeMask {
                x: x_2,
                y: y_2,
                width: width_2,
                height: height_2,
                invert: invert_2,
            },
        ) => {
            *x == *x_2
                && *y == *y_2
                && *width == *width_2
                && *height == *height_2
                && *invert == *invert_2
        },
        (
            GpuEffect::MotionBlur { shutter_angle, sub_frames },
            GpuEffect::MotionBlur { shutter_angle: shutter_angle_2, sub_frames: sub_frames_2 },
        ) => {
            shutter_angle.same(*shutter_angle_2) && *sub_frames == *sub_frames_2
        },
        _ => false,
    }
}

/// One layer of a plan: where it goes, how it mixes, and what runs on its frame first.
#[derive(Debug, PartialEq)]
pub struct GpuLayerPlan {
    /// Order from the bottom up: the layer's index.
    pub z_order: i32,
    /// Horizontal offset in canvas pixels.
    pub x: F32,
    /// Vertical offset in canvas pixels.
    pub y: F32,
    /// Horizontal scale factor.
    pub scale_x: F32,
    /// Vertical scale factor.
    pub scale_y: F32,
    /// Rotation in clockwise degrees.
    pub rotation: F32,
    /// Opacity between zero and one.
    pub opacity: F32,
    /// Blend mode against the layers below.
    pub blend_mode: RenderBlendMode,
    /// Porter-Duff operator; the blend mode means something under `Over` alone.
    pub composite_op: RenderCompositeOp,
    /// The effects that run on the frame, in order.
    pub effects: Vec<GpuEffect>,
}

/// A frame's plan: the canvas, and the layers from the bottom up.
#[derive(Debug, PartialEq)]
pub struct GpuScenePlan {
    pub canvas: (u32, u32),
    pub layers: Vec<GpuLayerPlan>,
}

/// Why a frame falls back to the CPU compositor.
#[derive(Clone, Copy, Debug, PartialEq, Eq, Structural)]
pub enum GpuFallback {
    /// A blend mode with no GPU equivalent.
    UnsupportedBlendMode(BlendMode),
    /// An operator with no GPU equivalent.
    UnsupportedCompositeOp(CompositeOp),
    /// A step with no GPU node.
    UnsupportedEffect,
}

/// What a frame maps to.
#[derive(Debug, PartialEq)]
pub enum GpuMapping {
    /// The frame composites on the GPU.
    Gpu(GpuScenePlan),
    /// The frame falls back to the CPU compositor.
    Fallback(GpuFallback),
}

/// A layer at one moment, as the mapping reads it.
pub struct LayerAt {
    pub opacity: F64,
    pub x: F64,
    pub y: F64,
    pub scale_x: F64,
    pub scale_y: F64,
    pub rotation: F64,
    pub blend_mode: BlendMode,
    pub composite_op: CompositeOp,
    pub effects: Seq<FilterStep<F64>>,
}

/// A layer at one moment that the mapping can read.
pub trait GpuLayerSource {
    /// The layer as the mapping reads it.
    spec fn shown(&self) -> LayerAt;

    /// Opacity.
    fn opacity(&self) -> (r: F64)
        ensures
            r == self.shown().opacity,
    ;

    /// Horizontal position.
    fn x(&self) -> (r: F64)
        ensures
            r == self.shown().x,
    ;

    /// Vertical position.
    fn y(&self) -> (r: F64)
        ensures
            r == self.shown().y,
    ;

    /// Horizontal scale.
    fn scale_x(&self) -> (r: F64)
        ensures
            r == self.shown().scale_x,
    ;

    /// Vertical scale.
    fn scale_y(&self) -> (r: F64)
        ensures
            r == self.shown().scale_y,
    ;

    /// Rotation.
    fn rotation(&self) -> (r: F64)
        ensures
            r == self.shown().rotation,
    ;

    /// Blend mode.
    fn blend_mode(&self) -> (r: BlendMode)
        ensures
            r == self.shown().blend_mode,
    ;

    /// Porter-Duff operator.
    fn composite_op(&self) -> (r: CompositeOp)
        ensures
            r == self.shown().composite_op,
    ;

    /// The effect chain, in order.
    fn effects(&self) -> (r: &Vec<FilterStep<F64>>)
        ensures
            r@ == self.shown().effects,
    ;
}

impl GpuLayerSource for RealtimeLayerDescriptor<F64> {
    open spec fn shown(&self) -> LayerAt {
        LayerAt {
            opacity: self.opacity,
            x: self.x,
            y: self.y,
            scale_x: self.scale_x,
            scale_y: self.scale_y,
            rotation: self.rotation,
            blend_mode: self.blend_mode,
            composite_op: self.composite_op,
            effects: self.effects@,
        }
    }

    fn opacity(&self) -> F64 {
        self.opacity
    }

    fn x(&self) -> F64 {
        self.x
    }

    fn y(&self) -> F64 {
        self.y
    }

    fn scale_x(&self) -> F64 {
        self.scale_x
    }

    fn scale_y(&self) -> F64 {
        self.scale_y
    }

    fn rotation(&self) -> F64 {
        self.rotation
    }

    fn blend_mode(&self) -> BlendMode {
        self.blend_mode
    }

    fn composite_op(&self) -> CompositeOp {
        self.composite_op
    }

    fn effects(&self) -> &Vec<FilterStep<F64>> {
        &self.effects
    }
}

impl GpuLayerSource for VideoLayer<F64> {
    open spec fn shown(&self) -> LayerAt {
        LayerAt {
            opacity: self.opacity,
            x: self.x,
            y: self.y,
            scale_x: self.scale_x,
            scale_y: self.scale_y,
            rotation: self.rotation,
            blend_mode: self.blend_mode,
            composite_op: self.composite_op,
            effects: self.effects@,
        }
    }

    fn opacity(&self) -> F64 {
        self.opacity
    }

    fn x(&self) -> F64 {
        self.x
    }

    fn y(&self) -> F64 {
        self.y
    }

    fn scale_x(&self) -> F64 {
        self.scale_x
    }

    fn scale_y(&self) -> F64 {
        self.scale_y
    }

    fn rotation(&self) -> F64 {
        self.rotation
    }

    fn blend_mode(&self) -> BlendMode {
        self.blend_mode
    }

    fn composite_op(&self) -> CompositeOp {
        self.composite_op
    }

    fn effects(&self) -> &Vec<FilterStep<F64>> {
        &self.effects
    }
}

impl<T: GpuLayerSource> GpuLayerSource for &T {
    open spec fn shown(&self) -> LayerAt {
        (**self).shown()
    }

    fn opacity(&self) -> F64 {
        (**self).opacity()
    }

    fn x(&self) -> F64 {
        (**self).x()
    }

    fn y(&self) -> F64 {
        (**self).y()
    }

    fn scale_x(&self) -> F64 {
        (**self).scale_x()
    }

    fn scale_y(&self) -> F64 {
        (**self).scale_y()
    }

    fn rotation(&self) -> F64 {
        (**self).rotation()
    }

    fn blend_mode(&self) -> BlendMode {
        (**self).blend_mode()
    }

    fn composite_op(&self) -> CompositeOp {
        (**self).composite_op()
    }

    fn effects(&self) -> &Vec<FilterStep<F64>> {
        (**self).effects()
    }
}

/// How a step maps.
#[derive(Debug, PartialEq)]
pub enum StepClass {
    /// Nothing to run: a temporal step, which the decoder has applied, or a neutral one.
    Skip,
    /// An effect on the frame.
    Effect(GpuEffect),
    /// Clockwise degrees to add to the layer's rotation.
    Rotation(F32),
    /// No GPU node; the frame falls back.
    Unsupported,
}

/// The GPU's blend mode of the same name.
pub open spec fn blend_of(mode: BlendMode) -> Option<RenderBlendMode> {
    match mode {
        BlendMode::Normal => Some(RenderBlendMode::Normal),
        BlendMode::Multiply => Some(RenderBlendMode::Multiply),
        BlendMode::Screen => Some(RenderBlendMode::Screen),
        BlendMode::Overlay => Some(RenderBlendMode::Overlay),
        BlendMode::SoftLight => Some(RenderBlendMode::SoftLight),
        BlendMode::HardLight => Some(RenderBlendMode::HardLight),
        BlendMode::ColorDodge => Some(RenderBlendMode::ColorDodge),
        BlendMode::ColorBurn => Some(RenderBlendMode::ColorBurn),
        BlendMode::Difference => Some(RenderBlendMode::Difference),
        BlendMode::Exclusion => Some(RenderBlendMode::Exclusion),
        BlendMode::Add => Some(RenderBlendMode::Add),
        BlendMode::Subtract => Some(RenderBlendMode::Subtract),
        BlendMode::Darken => Some(RenderBlendMode::Darken),
        BlendMode::Lighten => Some(RenderBlendMode::Lighten),
        BlendMode::And => Some(RenderBlendMode::And),
        BlendMode::Average => Some(RenderBlendMode::Average),
        BlendMode::Bleach => Some(RenderBlendMode::Bleach),
        BlendMode::Divide => Some(RenderBlendMode::Divide),
        BlendMode::Extremity => Some(RenderBlendMode::Extremity),
        BlendMode::Freeze => Some(RenderBlendMode::Freeze),
        BlendMode::Geometric => Some(RenderBlendMode::Geometric),
        BlendMode::Glow => Some(RenderBlendMode::Glow),
        BlendMode::GrainExtract => Some(RenderBlendMode::GrainExtract),
        BlendMode::GrainMerge => Some(RenderBlendMode::GrainMerge),
        BlendMode::HardMix => Some(RenderBlendMode::HardMix),
        BlendMode::HardOverlay => Some(RenderBlendMode::HardOverlay),
        BlendMode::Harmonic => Some(RenderBlendMode::Harmonic),
        BlendMode::Heat => Some(RenderBlendMode::Heat),
        BlendMode::Interpolate => Some(RenderBlendMode::Interpolate),
        BlendMode::LinearLight => Some(RenderBlendMode::LinearLight),
        BlendMode::Multiply128 => Some(RenderBlendMode::Multiply128),
        BlendMode::Negation => Some(RenderBlendMode::Negation),
        BlendMode::Or => Some(RenderBlendMode::Or),
        BlendMode::Phoenix => Some(RenderBlendMode::Phoenix),
        BlendMode::PinLight => Some(RenderBlendMode::PinLight),
        BlendMode::Reflect => Some(RenderBlendMode::Reflect),
        BlendMode::SoftDifference => Some(RenderBlendMode::SoftDifference),
        BlendMode::Stain => Some(RenderBlendMode::Stain),
        BlendMode::VividLight => Some(RenderBlendMode::VividLight),
        BlendMode::Xor => Some(RenderBlendMode::Xor),
        BlendMode::Other(_) => None,
    }
}

/// The GPU's operator of the same name.
pub open spec fn operator_of(op: CompositeOp) -> Option<RenderCompositeOp> {
    match op {
        CompositeOp::Over => Some(RenderCompositeOp::Over),
        CompositeOp::Under => Some(RenderCompositeOp::Under),
        CompositeOp::In => Some(RenderCompositeOp::In),
        CompositeOp::Out => Some(RenderCompositeOp::Out),
        CompositeOp::Atop => Some(RenderCompositeOp::Atop),
        CompositeOp::Xor => Some(RenderCompositeOp::Xor),
        CompositeOp::Other(_) => None,
    }
}

/// The GPU's closest resampling algorithm; it has no fast one.
pub open spec fn algorithm_of(algo: ScaleAlgorithm) -> RenderScaleAlgorithm {
    match algo {
        ScaleAlgorithm::Bicubic => RenderScaleAlgorithm::Bicubic,
        ScaleAlgorithm::Lanczos => RenderScaleAlgorithm::Lanczos,
        _ => RenderScaleAlgorithm::Bilinear,
    }
}

/// Whether `v` is neutral: within a millionth of `neutral`.
pub open spec fn near(v: F32, neutral: u32) -> bool {
    single::less(
        single::difference(v, F32 { bits: neutral }).unsigned(),
        F32 { bits: values::S_MILLIONTH },
    )
}

/// Whether `v` is within a millionth of zero.
pub open spec fn near_zero(v: F32) -> bool {
    single::less(v.unsigned(), F32 { bits: values::S_MILLIONTH })
}

/// Whether `v` is zero.
pub open spec fn zero(v: F32) -> bool {
    single::equal(v, F32 { bits: values::S_ZERO })
}

/// Whether `v` is at most zero.
pub open spec fn none_of(v: F32) -> bool {
    single::at_most(v, F32 { bits: values::S_ZERO })
}

/// The part of `v` between zero and one.
pub open spec fn unit_part(v: F32) -> F32 {
    single::held(v, F32 { bits: values::S_ZERO }, F32 { bits: values::S_ONE })
}

/// An animated pixel count as a whole one.
pub open spec fn pixels(v: F64) -> u32 {
    double::rounded(v, u32::MAX as nat) as u32
}

/// The seed of a frame: its time in milliseconds, in 32 bits.
pub open spec fn frame_seed(t: Duration) -> u32 {
    ((t.nanos / time::NANOS_PER_MILLI) % 0x1_0000_0000u128) as u32
}

/// A small letter for a capital one of ASCII; any other character as it is.
pub open spec fn small(c: char) -> char {
    if 'A' <= c <= 'Z' {
        (c as int + 32) as char
    } else {
        c
    }
}

/// Whether two texts are equal but for the case of ASCII letters.
pub open spec fn equal_but_case(a: Seq<char>, b: Seq<char>) -> bool {
    a.len() == b.len() && forall|i: int| 0 <= i < a.len() ==> small(#[trigger] a[i]) == small(b[i])
}

/// Grain: none where both strengths are at most zero, else the strengths in the node's scale.
pub open spec fn grain(luma: F32, chroma: F32, t: Duration) -> StepClass {
    if none_of(luma) && none_of(chroma) {
        StepClass::Skip
    } else {
        StepClass::Effect(
            GpuEffect::FilmGrain {
                luma_strength: single::product(luma, F32 { bits: values::S_GRAIN_SCALE }),
                chroma_strength: single::product(chroma, F32 { bits: values::S_GRAIN_SCALE }),
                frame_index: frame_seed(t),
            },
        )
    }
}

/// The lift of a three-way corrector, neutral at one, as the node has it, neutral at zero.
pub open spec fn lift_of(v: Rgb) -> Rgb {
    Rgb {
        r: single::difference(v.r, F32 { bits: values::S_ONE }),
        g: single::difference(v.g, F32 { bits: values::S_ONE }),
        b: single::difference(v.b, F32 { bits: values::S_ONE }),
    }
}

/// Three sampled channels in single precision.
pub open spec fn rgb_of(r: F64, g: F64, b: F64) -> Rgb {
    Rgb { r: double::narrowed(r), g: double::narrowed(g), b: double::narrowed(b) }
}

/// Three-way correction: none where every channel is neutral.
pub open spec fn wheels(lift: Rgb, gamma: Rgb, gain: Rgb) -> StepClass {
    if near_zero(lift.r) && near_zero(lift.g) && near_zero(lift.b) && near(gamma.r, values::S_ONE)
        && near(gamma.g, values::S_ONE) && near(gamma.b, values::S_ONE) && near(
        gain.r,
        values::S_ONE,
    ) && near(gain.g, values::S_ONE) && near(gain.b, values::S_ONE) {
        StepClass::Skip
    } else {
        StepClass::Effect(
            GpuEffect::ColorWheels {
                shadows_lift: lift,
                midtones_gamma: gamma,
                highlights_gain: gain,
            },
        )
    }
}

/// Glow: none where the intensity is at most zero.
pub open spec fn glow(threshold: F32, radius: F32, intensity: F32) -> StepClass {
    if none_of(intensity) {
        StepClass::Skip
    } else {
        StepClass::Effect(GpuEffect::Glow { threshold, radius, intensity })
    }
}

/// Hue, saturation and lightness: none where all three are neutral.
pub open spec fn hsl(hue_shift: F32, saturation: F32, lightness: F32) -> StepClass {
    if zero(hue_shift) && single::equal(saturation, F32 { bits: values::S_ONE }) && zero(
        lightness,
    ) {
        StepClass::Skip
    } else {
        StepClass::Effect(GpuEffect::Hsl { hue_shift, saturation, lightness })
    }
}

/// A byte as a part of its largest value.
pub open spec fn byte_part(v: u8) -> F32 {
    single::quotient(single::whole(v as nat), F32 { bits: values::S_BYTE_MAX })
}

/// Keying: impossible where the spelling names no colour, none where the tolerance is zero.
pub open spec fn key(color: Option<Color>, tolerance: F32, softness: F32) -> StepClass {
    match color {
        None => StepClass::Unsupported,
        Some(c) => {
            if zero(tolerance) {
                StepClass::Skip
            } else {
                StepClass::Effect(
                    GpuEffect::ChromaKey {
                        key_color: Rgb {
                            r: byte_part(c.r),
                            g: byte_part(c.g),
                            b: byte_part(c.b),
                        },
                        tolerance,
                        softness,
                    },
                )
            }
        },
    }
}

/// A rectangular mask: none where the rectangle has no area.
pub open spec fn rectangle(x: u32, y: u32, width: u32, height: u32, invert: bool) -> StepClass {
    if width == 0 || height == 0 {
        StepClass::Skip
    } else {
        StepClass::Effect(GpuEffect::ShapeMask { x, y, width, height, invert })
    }
}

/// Motion blur: none where the shutter is at most zero.
pub open spec fn trail(shutter_angle: F32, sub_frames: u8) -> StepClass {
    if none_of(shutter_angle) {
        StepClass::Skip
    } else {
        StepClass::Effect(GpuEffect::MotionBlur { shutter_angle, sub_frames })
    }
}

/// Sharpening by luma alone: impossible where chroma is sharpened too.
pub open spec fn sharpen(luma: F32, chroma_is_zero: bool) -> StepClass {
    if !chroma_is_zero {
        StepClass::Unsupported
    } else {
        StepClass::Effect(
            GpuEffect::Sharpen { radius: F32 { bits: values::S_ONE }, strength: luma },
        )
    }
}

/// A centred vignette: impossible off centre.
pub open spec fn vignette(strength: F32, x0: F32, y0: F32) -> StepClass {
    if !zero(x0) || !zero(y0) {
        StepClass::Unsupported
    } else {
        StepClass::Effect(
            GpuEffect::Vignette {
                radius: F32 { bits: values::S_HALF },
                strength,
                feather: F32 { bits: values::S_HALF },
            },
        )
    }
}

/// How a step maps at time `t`.
pub open spec fn class_of(step: FilterStep<F64>, t: Duration) -> StepClass {
    match step {
        FilterStep::Trim { .. } => StepClass::Skip,
        FilterStep::ResetPts => StepClass::Skip,
        FilterStep::OffsetPts { .. } => StepClass::Skip,
        FilterStep::Speed { .. } => StepClass::Skip,
        FilterStep::Eq { brightness, contrast, saturation, temperature, tint } => StepClass::Effect(
            GpuEffect::ColorGrade { brightness, contrast, saturation, temperature, tint },
        ),
        FilterStep::EqAnimated { brightness, contrast, saturation, gamma, temperature, tint } => {
            if double::less(
                double::difference(gamma, F64 { bits: values::ONE }).unsigned(),
                F64 { bits: values::MILLIONTH },
            ) {
                StepClass::Effect(
                    GpuEffect::ColorGrade {
                        brightness: double::narrowed(brightness),
                        contrast: double::narrowed(contrast),
                        saturation: double::narrowed(saturation),
                        temperature: double::narrowed(temperature),
                        tint: double::narrowed(tint),
                    },
                )
            } else {
                StepClass::Unsupported
            }
        },
        FilterStep::Scale { width, height, algorithm } => StepClass::Effect(
            GpuEffect::Scale { width, height, algorithm: algorithm_of(algorithm) },
        ),
        FilterStep::ScaleAnimated { width, height, algorithm } => StepClass::Effect(
            GpuEffect::Scale {
                width: pixels(width),
                height: pixels(height),
                algorithm: algorithm_of(algorithm),
            },
        ),
        FilterStep::RotateAnimated { angle, fill_color } => {
            if equal_but_case(fill_color@, "black"@) || equal_but_case(fill_color@, "none"@) {
                StepClass::Rotation(double::narrowed(angle))
            } else {
                StepClass::Unsupported
            }
        },
        FilterStep::GBlur { sigma } => StepClass::Effect(GpuEffect::Blur { sigma }),
        FilterStep::GBlurAnimated { sigma } => StepClass::Effect(
            GpuEffect::Blur { sigma: double::narrowed(sigma) },
        ),
        FilterStep::Unsharp { luma_strength, chroma_strength } => sharpen(
            luma_strength,
            zero(chroma_strength),
        ),
        FilterStep::UnsharpAnimated { luma_strength, chroma_strength } => sharpen(
            double::narrowed(luma_strength),
            double::equal(chroma_strength, F64 { bits: values::ZERO }),
        ),
        FilterStep::Vignette { angle, x0, y0 } => vignette(
            unit_part(single::quotient(angle, F32 { bits: values::S_QUARTER_TURN })),
            x0,
            y0,
        ),
        FilterStep::VignetteAnimated { amount, x0, y0 } => vignette(
            unit_part(double::narrowed(amount)),
            x0,
            y0,
        ),
        FilterStep::FilmGrain { luma_strength, chroma_strength } => grain(
            luma_strength,
            chroma_strength,
            t,
        ),
        FilterStep::FilmGrainAnimated { luma_strength, chroma_strength } => grain(
            double::narrowed(luma_strength),
            double::narrowed(chroma_strength),
            t,
        ),
        FilterStep::Glow { threshold, radius, intensity } => glow(threshold, radius, intensity),
        FilterStep::GlowAnimated { threshold, radius, intensity } => glow(
            double::narrowed(threshold),
            double::narrowed(radius),
            double::narrowed(intensity),
        ),
        FilterStep::ThreeWayCC { lift, gamma, gain } => wheels(lift_of(lift), gamma, gain),
        FilterStep::ThreeWayCCAnimated { lift, gamma, gain } => wheels(
            lift_of(rgb_of(lift.r, lift.g, lift.b)),
            rgb_of(gamma.r, gamma.g, gamma.b),
            rgb_of(gain.r, gain.g, gain.b),
        ),
        FilterStep::Curves { master, r, g, b } => {
            if master.identity() && r.identity() && g.identity() && b.identity() {
                StepClass::Skip
            } else {
                StepClass::Effect(GpuEffect::Curves { master, red: r, green: g, blue: b })
            }
        },
        FilterStep::Hue { degrees } => hsl(
            degrees,
            F32 { bits: values::S_ONE },
            F32 { bits: values::S_ZERO },
        ),
        FilterStep::Hsl { hue, saturation, lightness } => hsl(hue, saturation, lightness),
        FilterStep::HslAnimated { hue, saturation, lightness } => hsl(
            double::narrowed(hue),
            double::narrowed(saturation),
            double::narrowed(lightness),
        ),
        FilterStep::Lut3d { path } => {
            if path@.len() == 0 {
                StepClass::Skip
            } else {
                StepClass::Effect(GpuEffect::Lut { path })
            }
        },
        FilterStep::ChromaKey { color, similarity, blend } => key(color.color, similarity, blend),
        FilterStep::ChromaKeyAnimated { color, similarity, blend } => key(
            color.color,
            double::narrowed(similarity),
            double::narrowed(blend),
        ),
        FilterStep::LumaMask { invert } => StepClass::Effect(GpuEffect::LumaMask { invert }),
        FilterStep::RectMask { x, y, width, height, invert } => rectangle(
            x,
            y,
            width,
            height,
            invert,
        ),
        FilterStep::RectMaskAnimated { x, y, width, height, invert } => rectangle(
            pixels(x),
            pixels(y),
            pixels(width),
            pixels(height),
            invert,
        ),
        FilterStep::MotionBlur { shutter_angle_degrees, sub_frames } => trail(
            shutter_angle_degrees,
            sub_frames,
        ),
        FilterStep::MotionBlurAnimated { shutter_angle, sub_frames } => trail(
            double::narrowed(shutter_angle),
            sub_frames,
        ),
        _ => StepClass::Unsupported,
    }
}

/// The GPU's blend mode of the same name, or `None` where it has none.
pub fn map_blend_mode(mode: BlendMode) -> (r: Option<RenderBlendMode>)
    ensures
        r == blend_of(mode),
{
    match mode {
        BlendMode::Normal => Some(RenderBlendMode::Normal),
        BlendMode::Multiply => Some(RenderBlendMode::Multiply),
        BlendMode::Screen => Some(RenderBlendMode::Screen),
        BlendMode::Overlay => Some(RenderBlendMode::Overlay),
        BlendMode::SoftLight => Some(RenderBlendMode::SoftLight),
        BlendMode::HardLight => Some(RenderBlendMode::HardLight),
        BlendMode::ColorDodge => Some(RenderBlendMode::ColorDodge),
        BlendMode::ColorBurn => Some(RenderBlendMode::ColorBurn),
        BlendMode::Difference => Some(RenderBlendMode::Difference),
        BlendMode::Exclusion => Some(RenderBlendMode::Exclusion),
        BlendMode::Add => Some(RenderBlendMode::Add),
        BlendMode::Subtract => Some(RenderBlendMode::Subtract),
        BlendMode::Darken => Some(RenderBlendMode::Darken),
        BlendMode::Lighten => Some(RenderBlendMode::Lighten),
        BlendMode::And => Some(RenderBlendMode::And),
        BlendMode::Average => Some(RenderBlendMode::Average),
        BlendMode::Bleach => Some(RenderBlendMode::Bleach),
        BlendMode::Divide => Some(RenderBlendMode::Divide),
        BlendMode::Extremity => Some(RenderBlendMode::Extremity),
        BlendMode::Freeze => Some(RenderBlendMode::Freeze),
        BlendMode::Geometric => Some(RenderBlendMode::Geometric),
        BlendMode::Glow => Some(RenderBlendMode::Glow),
        BlendMode::GrainExtract => Some(RenderBlendMode::GrainExtract),
        BlendMode::GrainMerge => Some(RenderBlendMode::GrainMerge),
        BlendMode::HardMix => Some(RenderBlendMode::HardMix),
        BlendMode::HardOverlay => Some(RenderBlendMode::HardOverlay),
        BlendMode::Harmonic => Some(RenderBlendMode::Harmonic),
        BlendMode::Heat => Some(RenderBlendMode::Heat),
        BlendMode::Interpolate => Some(RenderBlendMode::Interpolate),
        BlendMode::LinearLight => Some(RenderBlendMode::LinearLight),
        BlendMode::Multiply128 => Some(RenderBlendMode::Multiply128),
        BlendMode::Negation => Some(RenderBlendMode::Negation),
        BlendMode::Or => Some(RenderBlendMode::Or),
        BlendMode::Phoenix => Some(RenderBlendMode::Phoenix),
        BlendMode::PinLight => Some(RenderBlendMode::PinLight),
        BlendMode::Reflect => Some(RenderBlendMode::Reflect),
        BlendMode::SoftDifference => Some(RenderBlendMode::SoftDifference),
        BlendMode::Stain => Some(RenderBlendMode::Stain),
        BlendMode::VividLight => Some(RenderBlendMode::VividLight),
        BlendMode::Xor => Some(RenderBlendMode::Xor),
        BlendMode::Other(_) => None,
    }
}

/// The GPU's operator of the same name, or `None` where it has none.
pub fn map_composite_op(op: CompositeOp) -> (r: Option<RenderCompositeOp>)
    ensures
        r == operator_of(op),
{
    match op {
        CompositeOp::Over => Some(RenderCompositeOp::Over),
        CompositeOp::Under => Some(RenderCompositeOp::Under),
        CompositeOp::In => Some(RenderCompositeOp::In),
        CompositeOp::Out => Some(RenderCompositeOp::Out),
        CompositeOp::Atop => Some(RenderCompositeOp::Atop),
        CompositeOp::Xor => Some(RenderCompositeOp::Xor),
        CompositeOp::Other(_) => None,
    }
}

/// The GPU's closest resampling algorithm.
pub fn map_scale_algo(algo: ScaleAlgorithm) -> (r: RenderScaleAlgorithm)
    ensures
        r == algorithm_of(algo),
{
    match algo {
        ScaleAlgorithm::Fast => RenderScaleAlgorithm::Bilinear,
        ScaleAlgorithm::Bilinear => RenderScaleAlgorithm::Bilinear,
        ScaleAlgorithm::Bicubic => RenderScaleAlgorithm::Bicubic,
        ScaleAlgorithm::Lanczos => RenderScaleAlgorithm::Lanczos,
        ScaleAlgorithm::Other(_) => RenderScaleAlgorithm::Bilinear,
    }
}

fn is_zero(v: F32) -> (r: bool)
    ensures
        r == zero(v),
{
    v.same(F32 { bits: values::S_ZERO })
}

fn is_none_of(v: F32) -> (r: bool)
    ensures
        r == none_of(v),
{
    v.at_most(F32 { bits: values::S_ZERO })
}

fn is_near_zero(v: F32) -> (r: bool)
    ensures
        r == near_zero(v),
{
    v.abs().below(F32 { bits: values::S_MILLIONTH })
}

fn is_near_one(v: F32) -> (r: bool)
    ensures
        r == near(v, values::S_ONE),
{
    v.minus(F32 { bits: values::S_ONE }).abs().below(F32 { bits: values::S_MILLIONTH })
}

fn clamp_unit(v: F32) -> (r: F32)
    ensures
        r == unit_part(v),
{
    v.clamp(F32 { bits: values::S_ZERO }, F32 { bits: values::S_ONE })
}

fn film_grain_step(luma_strength: F32, chroma_strength: F32, t: Duration) -> (r: StepClass)
    ensures
        r == grain(luma_strength, chroma_strength, t),
{
    if is_none_of(luma_strength) && is_none_of(chroma_strength) {
        return StepClass::Skip;
    }
    let scale = F32 { bits: values::S_GRAIN_SCALE };
    StepClass::Effect(
        GpuEffect::FilmGrain {
            luma_strength: luma_strength.times(scale),
            chroma_strength: chroma_strength.times(scale),
            frame_index: (t.as_millis() % 0x1_0000_0000) as u32,
        },
    )
}

fn color_wheels_step(lift: Rgb, gamma: Rgb, gain: Rgb) -> (r: StepClass)
    ensures
        r == wheels(lift_of(lift), gamma, gain),
{
    let one = F32 { bits: values::S_ONE };
    let lift = Rgb { r: lift.r.minus(one), g: lift.g.minus(one), b: lift.b.minus(one) };
    let neutral = is_near_zero(lift.r) && is_near_zero(lift.g) && is_near_zero(lift.b)
        && is_near_one(gamma.r) && is_near_one(gamma.g) && is_near_one(gamma.b) && is_near_one(
        gain.r,
    ) && is_near_one(gain.g) && is_near_one(gain.b);
    if neutral {
        return StepClass::Skip;
    }
    StepClass::Effect(
        GpuEffect::ColorWheels {
            shadows_lift: lift,
            midtones_gamma: gamma,
            highlights_gain: gain,
        },
    )
}

fn narrow(r: F64, g: F64, b: F64) -> (c: Rgb)
    ensures
        c == rgb_of(r, g, b),
{
    Rgb { r: r.to_single(), g: g.to_single(), b: b.to_single() }
}

fn glow_step(threshold: F32, radius: F32, intensity: F32) -> (r: StepClass)
    ensures
        r == glow(threshold, radius, intensity),
{
    if is_none_of(intensity) {
        return StepClass::Skip;
    }
    StepClass::Effect(GpuEffect::Glow { threshold, radius, intensity })
}

fn hsl_step(hue_shift: F32, saturation: F32, lightness: F32) -> (r: StepClass)
    ensures
        r == hsl(hue_shift, saturation, lightness),
{
    if is_zero(hue_shift) && saturation.same(F32 { bits: values::S_ONE }) && is_zero(lightness) {
        return StepClass::Skip;
    }
    StepClass::Effect(GpuEffect::Hsl { hue_shift, saturation, lightness })
}

/// The key colour that a spelling names, each channel as a part of its largest value; any alpha
/// is dropped.
pub fn parse_key_color(color: &NamedColor) -> (r: Option<Rgb>)
    ensures
        color.color is None ==> r is None,
        color.color matches Some(c) ==> r == Some(
            Rgb { r: byte_part(c.r), g: byte_part(c.g), b: byte_part(c.b) },
        ),
{
    match color.color {
        None => None,
        Some(c) => {
            let top = F32 { bits: values::S_BYTE_MAX };
            Some(
                Rgb {
                    r: F32::from_whole(c.r as u128).over(top),
                    g: F32::from_whole(c.g as u128).over(top),
                    b: F32::from_whole(c.b as u128).over(top),
                },
            )
        },
    }
}

fn chroma_key_step(color: &NamedColor, tolerance: F32, softness: F32) -> (r: StepClass)
    ensures
        r == key(color.color, tolerance, softness),
{
    match parse_key_color(color) {
        None => StepClass::Unsupported,
        Some(key_color) => {
            if is_zero(tolerance) {
                StepClass::Skip
            } else {
                StepClass::Effect(GpuEffect::ChromaKey { key_color, tolerance, softness })
            }
        },
    }
}

fn shape_mask_step(x: u32, y: u32, width: u32, height: u32, invert: bool) -> (r: StepClass)
    ensures
        r == rectangle(x, y, width, height, invert),
{
    if width == 0 || height == 0 {
        return StepClass::Skip;
    }
    StepClass::Effect(GpuEffect::ShapeMask { x, y, width, height, invert })
}

fn motion_blur_step(shutter_angle: F32, sub_frames: u8) -> (r: StepClass)
    ensures
        r == trail(shutter_angle, sub_frames),
{
    if is_none_of(shutter_angle) {
        return StepClass::Skip;
    }
    StepClass::Effect(GpuEffect::MotionBlur { shutter_angle, sub_frames })
}

fn sharpen_step(strength: F32, chroma_is_zero: bool) -> (r: StepClass)
    ensures
        r == sharpen(strength, chroma_is_zero),
{
    if !chroma_is_zero {
        return StepClass::Unsupported;
    }
    StepClass::Effect(GpuEffect::Sharpen { radius: F32 { bits: values::S_ONE }, strength })
}

fn vignette_step(strength: F32, x0: F32, y0: F32) -> (r: StepClass)
    ensures
        r == vignette(strength, x0, y0),
{
    if !is_zero(x0) || !is_zero(y0) {
        return StepClass::Unsupported;
    }
    StepClass::Effect(
        GpuEffect::Vignette {
            radius: F32 { bits: values::S_HALF },
            strength,
            feather: F32 { bits: values::S_HALF },
        },
    )
}

fn lower(c: char) -> (r: char)
    ensures
        r == small(c),
{
    match c {
        'A' => 'a',
        'B' => 'b',
        'C' => 'c',
        'D' => 'd',
        'E' => 'e',
        'F' => 'f',
        'G' => 'g',
        'H' => 'h',
        'I' => 'i',
        'J' => 'j',
        'K' => 'k',
        'L' => 'l',
        'M' => 'm',
        'N' => 'n',
        'O' => 'o',
        'P' => 'p',
        'Q' => 'q',
        'R' => 'r',
        'S' => 's',
        'T' => 't',
        'U' => 'u',
        'V' => 'v',
        'W' => 'w',
        'X' => 'x',
        'Y' => 'y',
        'Z' => 'z',
        _ => c,
    }
}

/// Whether two texts are equal but for the case of ASCII letters.
pub fn is_equal_but_case(a: &str, b: &str) -> (r: bool)
    ensures
        r == equal_but_case(a@, b@),
{
    let n: usize = a.unicode_len();
    if n != b.unicode_len() {
        return false;
    }
    let mut i: usize = 0;
    while i < n
        invariant
            i <= n,
            n == a@.len(),
            n == b@.len(),
            forall|j: int| 0 <= j < i ==> small(#[trigger] a@[j]) == small(b@[j]),
        decreases n - i,
    {
        if lower(a.get_char(i)) != lower(b.get_char(i)) {
            assert(small(a@[i as int]) != small(b@[i as int]));
            return false;
        }
        i = i + 1;
    }
    true
}

fn rotate_animated_step(degrees: F64, fill_color: &String) -> (r: StepClass)
    ensures
        r == (if equal_but_case(fill_color@, "black"@) || equal_but_case(fill_color@, "none"@) {
            StepClass::Rotation(double::narrowed(degrees))
        } else {
            StepClass::Unsupported
        }),
{
    let fill = fill_color.as_str();
    if is_equal_but_case(fill, "black") || is_equal_but_case(fill, "none") {
        StepClass::Rotation(degrees.to_single())
    } else {
        StepClass::Unsupported
    }
}

fn round_u32(v: F64) -> (r: u32)
    ensures
        r == pixels(v),
{
    v.round_at_most(u32::MAX as u64) as u32
}

/// How a step maps at time `t`.
pub fn classify_step(step: &FilterStep<F64>, t: Duration) -> (r: StepClass)
    ensures
        r == class_of(*step, t),
{
    match step {
        FilterStep::Trim { .. } => StepClass::Skip,
        FilterStep::ResetPts => StepClass::Skip,
        FilterStep::OffsetPts { .. } => StepClass::Skip,
        FilterStep::Speed { .. } => StepClass::Skip,
        FilterStep::Eq { brightness, contrast, saturation, temperature, tint } => StepClass::Effect(
            GpuEffect::ColorGrade {
                brightness: *brightness,
                contrast: *contrast,
                saturation: *saturation,
                temperature: *temperature,
                tint: *tint,
            },
        ),
        FilterStep::EqAnimated { brightness, contrast, saturation, gamma, temperature, tint } => {
            let off = gamma.minus(F64 { bits: values::ONE }).abs();
            if off.below(F64 { bits: values::MILLIONTH }) {
                StepClass::Effect(
                    GpuEffect::ColorGrade {
                        brightness: brightness.to_single(),
                        contrast: contrast.to_single(),
                        saturation: saturation.to_single(),
                        temperature: temperature.to_single(),
                        tint: tint.to_single(),
                    },
                )
            } else {
                StepClass::Unsupported
            }
        },
        FilterStep::Scale { width, height, algorithm } => StepClass::Effect(
            GpuEffect::Scale {
                width: *width,
                height: *height,
                algorithm: map_scale_algo(*algorithm),
            },
        ),
        FilterStep::ScaleAnimated { width, height, algorithm } => StepClass::Effect(
            GpuEffect::Scale {
                width: round_u32(*width),
                height: round_u32(*height),
                algorithm: map_scale_algo(*algorithm),
            },
        ),
        FilterStep::RotateAnimated { angle, fill_color } => rotate_animated_step(
            *angle,
            fill_color,
        ),
        FilterStep::GBlur { sigma } => StepClass::Effect(GpuEffect::Blur { sigma: *sigma }),
        FilterStep::GBlurAnimated { sigma } => StepClass::Effect(
            GpuEffect::Blur { sigma: sigma.to_single() },
        ),
        FilterStep::Unsharp { luma_strength, chroma_strength } => sharpen_step(
            *luma_strength,
            is_zero(*chroma_strength),
        ),
        FilterStep::UnsharpAnimated { luma_strength, chroma_strength } => sharpen_step(
            luma_strength.to_single(),
            chroma_strength.same(F64 { bits: values::ZERO }),
        ),
        FilterStep::Vignette { angle, x0, y0 } => vignette_step(
            clamp_unit(angle.over(F32 { bits: values::S_QUARTER_TURN })),
            *x0,
            *y0,
        ),
        FilterStep::VignetteAnimated { amount, x0, y0 } => vignette_step(
            clamp_unit(amount.to_single()),
            *x0,
            *y0,
        ),
        FilterStep::FilmGrain { luma_strength, chroma_strength } => film_grain_step(
            *luma_strength,
            *chroma_strength,
            t,
        ),
        FilterStep::FilmGrainAnimated { luma_strength, chroma_strength } => film_grain_step(
            luma_strength.to_single(),
            chroma_strength.to_single(),
            t,
        ),
        FilterStep::Glow { threshold, radius, intensity } => glow_step(
            *threshold,
            *radius,
            *intensity,
        ),
        FilterStep::GlowAnimated { threshold, radius, intensity } => glow_step(
            threshold.to_single(),
            radius.to_single(),
            intensity.to_single(),
        ),
        FilterStep::ThreeWayCC { lift, gamma, gain } => color_wheels_step(*lift, *gamma, *gain),
        FilterStep::ThreeWayCCAnimated { lift, gamma, gain } => color_wheels_step(
            narrow(lift.r, lift.g, lift.b),
            narrow(gamma.r, gamma.g, gamma.b),
            narrow(gain.r, gain.g, gain.b),
        ),
        FilterStep::Curves { master, r, g, b } => {
            if master.is_empty() && r.is_empty() && g.is_empty() && b.is_empty() {
                StepClass::Skip
            } else {
                StepClass::Effect(
                    GpuEffect::Curves {
                        master: master.clone(),
                        red: r.clone(),
                        green: g.clone(),
                        blue: b.clone(),
                    },
                )
            }
        },
        FilterStep::Hue { degrees } => hsl_step(
            *degrees,
            F32 { bits: values::S_ONE },
            F32 { bits: values::S_ZERO },
        ),
        FilterStep::Hsl { hue, saturation, lightness } => hsl_step(*hue, *saturation, *lightness),
        FilterStep::HslAnimated { hue, saturation, lightness } => hsl_step(
            hue.to_single(),
            saturation.to_single(),
            lightness.to_single(),
        ),
        FilterStep::Lut3d { path } => {
            if path.as_str().unicode_len() == 0 {
                StepClass::Skip
            } else {
                StepClass::Effect(GpuEffect::Lut { path: path.clone() })
            }
        },
        FilterStep::ChromaKey { color, similarity, blend } => chroma_key_step(
            color,
            *similarity,
            *blend,
        ),
        FilterStep::ChromaKeyAnimated { color, similarity, blend } => chroma_key_step(
            color,
            similarity.to_single(),
            blend.to_single(),
        ),
        FilterStep::LumaMask { invert } => StepClass::Effect(
            GpuEffect::LumaMask { invert: *invert },
        ),
        FilterStep::RectMask { x, y, width, height, invert } => shape_mask_step(
            *x,
            *y,
            *width,
            *height,
            *invert,
        ),
        FilterStep::RectMaskAnimated { x, y, width, height, invert } => shape_mask_step(
            round_u32(*x),
            round_u32(*y),
            round_u32(*width),
            round_u32(*height),
            *invert,
        ),
        FilterStep::MotionBlur { shutter_angle_degrees, sub_frames } => motion_blur_step(
            *shutter_angle_degrees,
            *sub_frames,
        ),
        FilterStep::MotionBlurAnimated { shutter_angle, sub_frames } => motion_blur_step(
            shutter_angle.to_single(),
            *sub_frames,
        ),
        _ => StepClass::Unsupported,
    }
}

/// The effects of a chain, in order.
pub open spec fn effects_of(steps: Seq<FilterStep<F64>>, t: Duration) -> Seq<GpuEffect>
    decreases steps.len(),
{
    if steps.len() == 0 {
        Seq::empty()
    } else {
        let rest = effects_of(steps.drop_last(), t);
        match class_of(steps.last(), t) {
            StepClass::Effect(effect) => rest.push(effect),
            _ => rest,
        }
    }
}

/// The rotation that a chain adds, in degrees.
pub open spec fn turn_of(steps: Seq<FilterStep<F64>>, t: Duration) -> F32
    decreases steps.len(),
{
    if steps.len() == 0 {
        F32 { bits: values::S_ZERO }
    } else {
        let rest = turn_of(steps.drop_last(), t);
        match class_of(steps.last(), t) {
            StepClass::Rotation(degrees) => single::sum(rest, degrees),
            _ => rest,
        }
    }
}

/// Whether every step of a chain maps.
pub open spec fn covered(steps: Seq<FilterStep<F64>>, t: Duration) -> bool {
    forall|i: int|
        0 <= i < steps.len() ==> class_of(#[trigger] steps[i], t) != StepClass::Unsupported
}

/// Why a layer does not map: its operator, then its blend mode where the operator is `Over`,
/// then its chain.
pub open spec fn refusal(layer: LayerAt, t: Duration) -> Option<GpuFallback> {
    match operator_of(layer.composite_op) {
        None => Some(GpuFallback::UnsupportedCompositeOp(layer.composite_op)),
        Some(op) => {
            if op == RenderCompositeOp::Over && blend_of(layer.blend_mode) is None {
                Some(GpuFallback::UnsupportedBlendMode(layer.blend_mode))
            } else if !covered(layer.effects, t) {
                Some(GpuFallback::UnsupportedEffect)
            } else {
                None
            }
        },
    }
}

/// The blend mode that a layer composites with: its own under `Over`, else the normal one.
pub open spec fn effective_blend(layer: LayerAt) -> RenderBlendMode {
    if layer.composite_op == CompositeOp::Over {
        match blend_of(layer.blend_mode) {
            Some(mode) => mode,
            None => RenderBlendMode::Normal,
        }
    } else {
        RenderBlendMode::Normal
    }
}

/// Whether `plan` is the plan of the layer at `index`.
pub open spec fn plans(layer: LayerAt, index: int, t: Duration, plan: GpuLayerPlan) -> bool {
    &&& plan.z_order == (if index <= i32::MAX {
        index
    } else {
        i32::MAX as int
    })
    &&& plan.x == double::narrowed(layer.x)
    &&& plan.y == double::narrowed(layer.y)
    &&& plan.scale_x == double::narrowed(layer.scale_x)
    &&& plan.scale_y == double::narrowed(layer.scale_y)
    &&& plan.rotation == single::sum(
        double::narrowed(layer.rotation),
        turn_of(layer.effects, t),
    )
    &&& plan.opacity == unit_part(double::narrowed(layer.opacity))
    &&& plan.blend_mode == effective_blend(layer)
    &&& Some(plan.composite_op) == operator_of(layer.composite_op)
    &&& plan.effects@ == effects_of(layer.effects, t)
}

/// The reason of the first layer that does not map, from the bottom up.
pub open spec fn first_refusal(layers: Seq<LayerAt>, t: Duration) -> Option<GpuFallback>
    decreases layers.len(),
{
    if layers.len() == 0 {
        None
    } else {
        match first_refusal(layers.drop_last(), t) {
            Some(reason) => Some(reason),
            None => refusal(layers.last(), t),
        }
    }
}

/// Whether `r` is what a frame maps to: the first reason to fall back, or a plan of every layer.
pub open spec fn maps_to(
    layers: Seq<LayerAt>,
    canvas: (u32, u32),
    t: Duration,
    r: GpuMapping,
) -> bool {
    match first_refusal(layers, t) {
        Some(reason) => r == GpuMapping::Fallback(reason),
        None => r matches GpuMapping::Gpu(plan) && plan.canvas == canvas && plans_all(
            layers,
            t,
            plan.layers@,
        ),
    }
}

/// Whether `all` are the plans of all layers, from the bottom up.
pub open spec fn plans_all(layers: Seq<LayerAt>, t: Duration, all: Seq<GpuLayerPlan>) -> bool {
    &&& all.len() == layers.len()
    &&& forall|i: int|
        #![trigger all[i]]
        0 <= i < layers.len() ==> plans(layers[i], i, t, all[i])
}

/// The layers as the mapping reads them.
pub open spec fn shown_all<L: GpuLayerSource>(layers: Seq<L>) -> Seq<LayerAt> {
    layers.map_values(|l: L| l.shown())
}

/// Maps the layer at `index` at time `t`, or gives the reason why it does not map.
pub fn map_layer<L: GpuLayerSource>(layer: &L, index: usize, t: Duration) -> (r: Result<
    GpuLayerPlan,
    GpuFallback,
>)
    ensures
        match refusal(layer.shown(), t) {
            Some(reason) => r == Err::<GpuLayerPlan, GpuFallback>(reason),
            None => r matches Ok(plan) && plans(layer.shown(), index as int, t, plan),
        },
{
    let composite_op = match map_composite_op(layer.composite_op()) {
        Some(op) => op,
        None => {
            return Err(GpuFallback::UnsupportedCompositeOp(layer.composite_op()));
        },
    };
    let blend_mode = match composite_op {
        RenderCompositeOp::Over => match map_blend_mode(layer.blend_mode()) {
            Some(mode) => mode,
            None => {
                return Err(GpuFallback::UnsupportedBlendMode(layer.blend_mode()));
            },
        },
        _ => RenderBlendMode::Normal,
    };
    let mut effects: Vec<GpuEffect> = Vec::new();
    let mut step_rotation = F32 { bits: values::S_ZERO };
    let steps = layer.effects();
    let ghost chain = layer.shown().effects;
    let mut i: usize = 0;
    while i < steps.len()
        invariant
            i <= steps@.len(),
            steps@ == chain,
            chain == layer.shown().effects,
            effects@ == effects_of(chain.take(i as int), t),
            step_rotation == turn_of(chain.take(i as int), t),
            forall|j: int|
                0 <= j < i ==> class_of(#[trigger] chain[j], t) != StepClass::Unsupported,
            refusal(layer.shown(), t) == (if !covered(chain, t) {
                Some(GpuFallback::UnsupportedEffect)
            } else {
                None
            }),
        decreases steps@.len() - i,
    {
        let ghost sofar = chain.take(i as int + 1);
        assert(sofar.drop_last() =~= chain.take(i as int));
        assert(sofar.last() == chain[i as int]);
        match classify_step(&steps[i], t) {
            StepClass::Skip => {},
            StepClass::Effect(effect) => {
                effects.push(effect);
            },
            StepClass::Rotation(degrees) => {
                step_rotation = step_rotation.plus(degrees);
            },
            StepClass::Unsupported => {
                assert(!covered(chain, t));
                return Err(GpuFallback::UnsupportedEffect);
            },
        }
        i = i + 1;
    }
    assert(chain.take(chain.len() as int) =~= chain);
    let z_order: i32 = if index <= 0x7FFF_FFFF {
        index as i32
    } else {
        i32::MAX
    };
    Ok(
        GpuLayerPlan {
            z_order,
            x: layer.x().to_single(),
            y: layer.y().to_single(),
            scale_x: layer.scale_x().to_single(),
            scale_y: layer.scale_y().to_single(),
            rotation: layer.rotation().to_single().plus(step_rotation),
            opacity: clamp_unit(layer.opacity().to_single()),
            blend_mode,
            composite_op,
            effects,
        },
    )
}

/// Maps a frame's layers, from the bottom up, at time `t`.
///
/// The frame maps only where every layer does; the first blend mode, operator or step that
/// does not makes the whole frame fall back.
pub fn map_scene<L: GpuLayerSource>(layers: &[L], canvas: (u32, u32), t: Duration) -> (r:
    GpuMapping)
    ensures
        maps_to(shown_all(layers@), canvas, t, r),
        r matches GpuMapping::Gpu(plan) ==> {
            &&& plan.canvas == canvas
            &&& plan.layers@.len() == layers@.len()
            &&& forall|i: int|
                #![trigger plan.layers@[i]]
                0 <= i < layers@.len() ==> {
                    let (at, p) = (layers@[i].shown(), plan.layers@[i]);
                    &&& i <= i32::MAX ==> p.z_order == i
                    &&& p.x == double::narrowed(at.x)
                    &&& p.y == double::narrowed(at.y)
                    &&& p.scale_x == double::narrowed(at.scale_x)
                    &&& p.scale_y == double::narrowed(at.scale_y)
                    &&& p.rotation == single::sum(
                        double::narrowed(at.rotation),
                        turn_of(at.effects, t),
                    )
                    &&& p.opacity == unit_part(double::narrowed(at.opacity))
                    &&& p.effects@ == effects_of(at.effects, t)
                }
        },
{
    let ghost all = shown_all(layers@);
    let mut plan: Vec<GpuLayerPlan> = Vec::new();
    let mut i: usize = 0;
    while i < layers.len()
        invariant
            i <= layers@.len(),
            all == shown_all(layers@),
            plan@.len() == i,
            first_refusal(all.take(i as int), t) is None,
            forall|j: int|
                #![trigger plan@[j]]
                0 <= j < i ==> plans(all[j], j, t, plan@[j]),
        decreases layers@.len() - i,
    {
        let ghost sofar = all.take(i as int + 1);
        assert(sofar.drop_last() =~= all.take(i as int));
        assert(sofar.last() == layers@[i as int].shown());
        match map_layer(&layers[i], i, t) {
            Ok(layer) => {
                plan.push(layer);
            },
            Err(reason) => {
                proof {
                    refusals_stand(all, i as int + 1, t);
                }
                return GpuMapping::Fallback(reason);
            },
        }
        i = i + 1;
    }
    assert(all.take(all.len() as int) =~= all);
    GpuMapping::Gpu(GpuScenePlan { canvas, layers: plan })
}

/// A reason to fall back stands whatever layers come on top.
proof fn refusals_stand(layers: Seq<LayerAt>, n: int, t: Duration)
    requires
        0 <= n <= layers.len(),
        first_refusal(layers.take(n), t) is Some,
    ensures
        first_refusal(layers, t) == first_refusal(layers.take(n), t),
    decreases layers.len() - n,
{
    if n == layers.len() {
        assert(layers.take(n) =~= layers);
    } else {
        assert(layers.take(n + 1).drop_last() =~= layers.take(n));
        refusals_stand(layers, n + 1, t);
    }
}

/// A frame falls back exactly where one of its layers does not map.
pub proof fn one_refusal_refuses_the_frame(layers: Seq<LayerAt>, t: Duration)
    ensures
        first_refusal(layers, t) is Some <==> exists|i: int|
            0 <= i < layers.len() && refusal(#[trigger] layers[i], t) is Some,
    decreases layers.len(),
{
    if layers.len() > 0 {
        let rest = layers.drop_last();
        one_refusal_refuses_the_frame(rest, t);
        if first_refusal(rest, t) is Some {
            let i = choose|i: int| 0 <= i < rest.len() && refusal(#[trigger] rest[i], t) is Some;
            assert(refusal(layers[i], t) is Some);
        } else if refusal(layers.last(), t) is Some {
            assert(refusal(layers[layers.len() - 1], t) is Some);
        } else {
            assert forall|i: int| 0 <= i < layers.len() implies refusal(#[trigger] layers[i], t)
                is None by {
                if i < rest.len() {
                    assert(rest[i] == layers[i]);
                }
            }
        }
    }
}

/// No step is dropped: each step of a chain that maps is skipped as having nothing to run,
/// adds to the rotation, or stands among the effects.
pub proof fn no_step_is_dropped(steps: Seq<FilterStep<F64>>, t: Duration, i: int)
    requires
        covered(steps, t),
        0 <= i < steps.len(),
    ensures
        match class_of(steps[i], t) {
            StepClass::Skip => true,
            StepClass::Rotation(_) => true,
            StepClass::Effect(effect) => effects_of(steps, t).contains(effect),
            StepClass::Unsupported => false,
        },
    decreases steps.len(),
{
    let rest = steps.drop_last();
    if i == steps.len() - 1 {
        if let StepClass::Effect(effect) = class_of(steps[i], t) {
            let all = effects_of(steps, t);
            assert(all[all.len() - 1] == effect);
        }
    } else {
        assert(rest[i] == steps[i]);
        assert forall|j: int| 0 <= j < rest.len() implies class_of(#[trigger] rest[j], t)
            != StepClass::Unsupported by {
            assert(rest[j] == steps[j]);
        }
        no_step_is_dropped(rest, t, i);
        if let StepClass::Effect(effect) = class_of(steps[i], t) {
            let few = effects_of(rest, t);
            let all = effects_of(steps, t);
            let k = choose|k: int| 0 <= k < few.len() && few[k] == effect;
            assert(all[k] == effect);
        }
    }
}

/// Every blend mode and every operator with a name has a GPU equivalent, and no two share one.
pub proof fn named_modes_map(a: BlendMode, b: BlendMode, p: CompositeOp, q: CompositeOp)
    ensures
        blend_of(a) is None <==> a is Other,
        operator_of(p) is None <==> p is Other,
        blend_of(a) is Some && blend_of(a) == blend_of(b) ==> a == b,
        operator_of(p) is Some && operator_of(p) == operator_of(q) ==> p == q,
{
}

/// A chain that skipped steps lead maps where the rest does.
#[verifier::spinoff_prover]
proof fn skips_are_covered(lead: Seq<FilterStep<F64>>, steps: Seq<FilterStep<F64>>, t: Duration)
    requires
        forall|i: int|
            0 <= i < lead.len() ==> class_of(#[trigger] lead[i], t) == StepClass::Skip,
    ensures
        covered(lead + steps, t) == covered(steps, t),
{
    let all = lead + steps;
    if covered(steps, t) {
        assert forall|i: int| 0 <= i < all.len() implies class_of(#[trigger] all[i], t)
            != StepClass::Unsupported by {
            if i < lead.len() {
                assert(all[i] == lead[i]);
            } else {
                assert(all[i] == steps[i - lead.len()]);
            }
        }
    }
    if covered(all, t) {
        assert forall|i: int| 0 <= i < steps.len() implies class_of(#[trigger] steps[i], t)
            != StepClass::Unsupported by {
            assert(all[lead.len() + i] == steps[i]);
        }
    }
}

/// The effects and the rotation of a chain that skipped steps lead are those of the rest.
#[verifier::spinoff_prover]
#[verifier::rlimit(40)]
proof fn skips_do_not_matter(
    lead: Seq<FilterStep<F64>>,
    steps: Seq<FilterStep<F64>>,
    t: Duration,
)
    requires
        forall|i: int|
            0 <= i < lead.len() ==> class_of(#[trigger] lead[i], t) == StepClass::Skip,
    ensures
        effects_of(lead + steps, t) == effects_of(steps, t),
        turn_of(lead + steps, t) == turn_of(steps, t),
    decreases lead.len() + steps.len(),
{
    let all = lead + steps;
    if steps.len() > 0 {
        let rest = steps.drop_last();
        assert(all.drop_last() =~= lead + rest);
        assert(all.last() == steps.last());
        skips_do_not_matter(lead, rest, t);
    } else if lead.len() > 0 {
        assert(all =~= lead);
        let fewer = lead.drop_last();
        assert(fewer + steps =~= fewer);
        assert(all.last() == lead[lead.len() - 1]);
        skips_do_not_matter(fewer, steps, t);
    } else {
        assert(all =~= steps);
    }
}

/// Whether a step only moves frames in time.
pub open spec fn temporal(step: FilterStep<F64>) -> bool {
    step is Trim || step is ResetPts || step is OffsetPts || step is Speed
}

/// Export and preview map alike: an export layer, which is a preview layer with temporal steps
/// before its chain, falls back where the preview layer does and plans the same effects and
/// rotation.
pub proof fn export_maps_as_preview(
    export: LayerAt,
    preview: LayerAt,
    lead: Seq<FilterStep<F64>>,
    t: Duration,
)
    requires
        forall|i: int| 0 <= i < lead.len() ==> temporal(#[trigger] lead[i]),
        export == (LayerAt { effects: lead + preview.effects, ..preview }),
    ensures
        refusal(export, t) == refusal(preview, t),
        forall|index: int, plan: GpuLayerPlan|
            plans(export, index, t, plan) == plans(preview, index, t, plan),
{
    assert forall|i: int| 0 <= i < lead.len() implies class_of(#[trigger] lead[i], t)
        == StepClass::Skip by {
        assert(temporal(lead[i]));
    }
    skips_do_not_matter(lead, preview.effects, t);
    skips_are_covered(lead, preview.effects, t);
}

/// Whether a parameter is a constant from `low` to `high`.
pub open spec fn constant_from(p: Param, low: u64, high: u64) -> bool {
    p matches Param::Const(v) && v.finite() && double::at_most(F64 { bits: low }, v)
        && double::at_most(v, F64 { bits: high })
}

/// Whether three parameters are constants from `low` to `high`.
pub open spec fn channels_from(c: Channels<Param>, low: u64, high: u64) -> bool {
    constant_from(c.r, low, high) && constant_from(c.g, low, high) && constant_from(c.b, low, high)
}

/// Whether one of three constants is off `neutral` by more than a thousandth.
pub open spec fn channels_off(c: Channels<Param>, neutral: u64) -> bool {
    ||| rounding::off_by_thousandth(c.r->Const_0, F64 { bits: neutral })
    ||| rounding::off_by_thousandth(c.g->Const_0, F64 { bits: neutral })
    ||| rounding::off_by_thousandth(c.b->Const_0, F64 { bits: neutral })
}

/// A constant off one by more than a thousandth is no neutral gamma or gain.
proof fn lemma_off_one(p: Param, high: u64)
    requires
        constant_from(p, values::ZERO, high),
        high <= values::SIXTEEN,
        rounding::off_by_thousandth(p->Const_0, F64 { bits: values::ONE }),
    ensures
        !near(effect::single_const(p), values::S_ONE),
{
    rounding::narrowed_stays_off_one(p->Const_0);
}

/// The lift that the correction makes of a constant gives the constant back.
proof fn lemma_lift_back(p: Param)
    requires
        constant_from(p, values::MINUS_ONE, values::ONE),
    ensures
        ({
            let lift = single::difference(
                double::narrowed(double::sum(p->Const_0, F64 { bits: values::ONE })),
                F32 { bits: values::S_ONE },
            );
            &&& rounding::within_millionth(lift, p->Const_0)
            &&& rounding::off_by_thousandth(p->Const_0, F64 { bits: values::ZERO }) ==> !near_zero(
                lift,
            )
        }),
{
    rounding::lift_comes_back(p->Const_0);
    let lift = single::difference(
        double::narrowed(double::sum(p->Const_0, F64 { bits: values::ONE })),
        F32 { bits: values::S_ONE },
    );
    if rounding::off_by_thousandth(p->Const_0, F64 { bits: values::ZERO }) {
        rounding::lift_stays_off_zero(p->Const_0, lift);
    }
}

/// Colour wheels come through the filter step and back: with constant wheels in their ranges,
/// one of them off neutral by more than a thousandth, the compiled step maps to a GPU effect
/// with the same gamma and gain in single precision, and each lift within a millionth.
pub proof fn wheels_come_through<F: Fn(&AnimatedValue) -> F64>(
    lift: Channels<Param>,
    gamma: Channels<Param>,
    gain: Channels<Param>,
    start: F64,
    step: FilterStep<AnimatedValue>,
    eval: F,
    at: FilterStep<F64>,
    t: Duration,
)
    requires
        channels_from(lift, values::MINUS_ONE, values::ONE),
        channels_from(gamma, values::TENTH, values::TEN),
        channels_from(gain, values::ZERO, values::FOUR),
        channels_off(lift, values::ZERO) || channels_off(gamma, values::ONE) || channels_off(
            gain,
            values::ONE,
        ),
        effect::compiles_to(
            EffectKind::ColorWheels {
                shadows_lift: lift,
                midtones_gamma: gamma,
                highlights_gain: gain,
            },
            start,
            Some(step),
        ),
        filter::step_sampled(step, eval, at),
    ensures
        class_of(at, t) matches StepClass::Effect(
            GpuEffect::ColorWheels { shadows_lift, midtones_gamma, highlights_gain },
        ) && {
            &&& rounding::within_millionth(shadows_lift.r, lift.r->Const_0)
            &&& rounding::within_millionth(shadows_lift.g, lift.g->Const_0)
            &&& rounding::within_millionth(shadows_lift.b, lift.b->Const_0)
            &&& midtones_gamma == effect::single_channels(gamma)
            &&& highlights_gain == effect::single_channels(gain)
        },
{
    lemma_lift_back(lift.r);
    lemma_lift_back(lift.g);
    lemma_lift_back(lift.b);
    let one = F64 { bits: values::ONE };
    if rounding::off_by_thousandth(gamma.r->Const_0, one) {
        lemma_off_one(gamma.r, values::TEN);
    }
    if rounding::off_by_thousandth(gamma.g->Const_0, one) {
        lemma_off_one(gamma.g, values::TEN);
    }
    if rounding::off_by_thousandth(gamma.b->Const_0, one) {
        lemma_off_one(gamma.b, values::TEN);
    }
    if rounding::off_by_thousandth(gain.r->Const_0, one) {
        lemma_off_one(gain.r, values::FOUR);
    }
    if rounding::off_by_thousandth(gain.g->Const_0, one) {
        lemma_off_one(gain.g, values::FOUR);
    }
    if rounding::off_by_thousandth(gain.b->Const_0, one) {
        lemma_off_one(gain.b, values::FOUR);
    }
}

/// Wheels off neutral by more than a thousandth compile to a step.
pub proof fn wheels_off_neutral_compile(
    lift: Channels<Param>,
    gamma: Channels<Param>,
    gain: Channels<Param>,
    start: F64,
)
    requires
        lift.all_const() && gamma.all_const() && gain.all_const(),
        channels_off(lift, values::ZERO) || channels_off(gamma, values::ONE) || channels_off(
            gain,
            values::ONE,
        ),
    ensures
        !effect::compiles_to(
            EffectKind::ColorWheels {
                shadows_lift: lift,
                midtones_gamma: gamma,
                highlights_gain: gain,
            },
            start,
            None,
        ),
{
    if lift.all_fixed_at(values::ZERO) && gamma.all_fixed_at(values::ONE) && gain.all_fixed_at(
        values::ONE,
    ) {
        lemma_fixed_is_not_off(lift.r, values::ZERO);
        lemma_fixed_is_not_off(lift.g, values::ZERO);
        lemma_fixed_is_not_off(lift.b, values::ZERO);
        lemma_fixed_is_not_off(gamma.r, values::ONE);
        lemma_fixed_is_not_off(gamma.g, values::ONE);
        lemma_fixed_is_not_off(gamma.b, values::ONE);
        lemma_fixed_is_not_off(gain.r, values::ONE);
        lemma_fixed_is_not_off(gain.g, values::ONE);
        lemma_fixed_is_not_off(gain.b, values::ONE);
    }
}

proof fn lemma_fixed_is_not_off(p: Param, bits: u64)
    requires
        p is Const,
        bits == values::ZERO || bits == values::ONE,
        p.fixed_at(bits),
    ensures
        !rounding::off_by_thousandth(p->Const_0, F64 { bits }),
{
    double::order_is_numeric(p->Const_0, F64 { bits });
    vstd::arithmetic::power2::lemma_pow2_pos(1074);
}

} // verus!

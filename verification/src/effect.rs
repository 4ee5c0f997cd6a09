//! Typed, re-editable clip effects.
//!
//! A clip carries an ordered list of effects, each of a typed kind whose parameters are a
//! constant or a keyframe track. A kind says which stream it applies to, describes its
//! parameters to a host, and compiles to the one filter step that renders it.

use vstd::prelude::*;

use crate::filter;
use crate::filter::{
    AnimatedValue, AnimationTrack, Channels, Color, Curve, FilterStep, Keyframe, NamedColor, Rgb,
};
use crate::float::double;
use crate::float::double::F64;
use crate::float::single;
use crate::float::single::F32;
use crate::float::values;
use crate::ids::EffectId;

verus! {

/// One parameter of an effect.
#[derive(Debug, PartialEq)]
pub enum Param {
    /// A fixed value.
    Const(F64),
    /// A keyframed value.
    Animated(AnimationTrack),
}

/// A parameter as an animated value.
pub open spec fn animated(p: Param) -> AnimatedValue {
    match p {
        Param::Const(v) => AnimatedValue::Static(v),
        Param::Animated(t) => AnimatedValue::Track(t),
    }
}

impl Param {
    /// The value of a constant parameter.
    pub open spec fn constant(self) -> Option<F64> {
        match self {
            Param::Const(v) => Some(v),
            Param::Animated(_) => None,
        }
    }

    /// Whether the parameter is the constant `bits`, numerically.
    pub open spec fn fixed_at(self, bits: u64) -> bool {
        self matches Param::Const(v) && double::equal(v, F64 { bits })
    }

    /// Whether this parameter is a constant.
    #[must_use]
    pub fn is_const(&self) -> (r: bool)
        ensures
            r == (self is Const),
    {
        match self {
            Param::Const(_) => true,
            Param::Animated(_) => false,
        }
    }

    /// The value of a constant, or `None` for an animated parameter.
    #[must_use]
    pub fn as_const(&self) -> (r: Option<F64>)
        ensures
            r == self.constant(),
    {
        match self {
            Param::Const(v) => Some(*v),
            Param::Animated(_) => None,
        }
    }

    /// This parameter as an animated value.
    pub fn to_animated(&self) -> (r: AnimatedValue)
        ensures
            r == animated(*self),
    {
        match self {
            Param::Const(v) => AnimatedValue::Static(*v),
            Param::Animated(track) => AnimatedValue::Track(track.clone()),
        }
    }

    fn is_fixed_at(&self, bits: u64) -> (r: bool)
        ensures
            r == self.fixed_at(bits),
    {
        match self {
            Param::Const(v) => v.same(F64 { bits }),
            Param::Animated(_) => false,
        }
    }
}

impl Clone for Param {
    fn clone(&self) -> (r: Self)
        ensures
            r == *self,
    {
        match self {
            Param::Const(v) => Param::Const(*v),
            Param::Animated(t) => Param::Animated(t.clone()),
        }
    }
}

impl Channels<Param> {
    /// Whether all three channels are constants.
    pub open spec fn all_const(self) -> bool {
        self.r is Const && self.g is Const && self.b is Const
    }

    /// Whether all three channels are the constant `bits`.
    pub open spec fn all_fixed_at(self, bits: u64) -> bool {
        self.r.fixed_at(bits) && self.g.fixed_at(bits) && self.b.fixed_at(bits)
    }

    fn are_const(&self) -> (r: bool)
        ensures
            r == self.all_const(),
    {
        self.r.is_const() && self.g.is_const() && self.b.is_const()
    }

    fn are_fixed_at(&self, bits: u64) -> (r: bool)
        ensures
            r == self.all_fixed_at(bits),
    {
        self.r.is_fixed_at(bits) && self.g.is_fixed_at(bits) && self.b.is_fixed_at(bits)
    }

    fn to_animated(&self) -> (r: Channels<AnimatedValue>)
        ensures
            r == channels_animated(*self),
    {
        Channels { r: self.r.to_animated(), g: self.g.to_animated(), b: self.b.to_animated() }
    }
}

/// Three parameters as animated values.
pub open spec fn channels_animated(c: Channels<Param>) -> Channels<AnimatedValue> {
    Channels { r: animated(c.r), g: animated(c.g), b: animated(c.b) }
}

impl Clone for Channels<Param> {
    fn clone(&self) -> (r: Self)
        ensures
            r == *self,
    {
        Channels { r: self.r.clone(), g: self.g.clone(), b: self.b.clone() }
    }
}

/// Which of a clip's streams an effect applies to.
#[derive(Clone, Copy, Debug, PartialEq, Eq, Structural)]
pub enum EffectDomain {
    /// The clip's video frames.
    Video,
    /// The clip's audio samples.
    Audio,
}

/// A kind and its editable parameters, described to a host.
#[derive(Debug, PartialEq)]
pub struct EffectDescriptor {
    /// Stable name of the kind.
    pub name: &'static str,
    /// The kind's parameters, in a stable order.
    pub params: Vec<ParamDescriptor>,
}

/// One parameter, described to a host.
#[derive(Debug, PartialEq)]
pub struct ParamDescriptor {
    /// Stable parameter name.
    pub name: &'static str,
    /// The parameter's type, range, default and current value.
    pub value: ParamValue,
}

/// The type, editable metadata and current value of a parameter.
#[allow(inconsistent_fields)]
#[derive(Debug, PartialEq)]
pub enum ParamValue {
    /// A keyframeable number between `low` and `high`; `current` is `None` while it is
    /// animated. An open range ends at infinity.
    Scalar { low: F64, high: F64, default: F64, current: Option<F64> },
    /// A toggle.
    Bool { default: bool, current: bool },
    /// A whole number between `low` and `high`.
    Int { low: i64, high: i64, default: i64, current: i64 },
    /// A colour.
    Color { current: Rgb },
    /// A file path; empty for none.
    Path { current: String },
    /// Control points of a curve.
    Points { current: Curve },
}

/// A number parameter described by its range, its default and its current value.
pub open spec fn scalar_value(low: u64, high: u64, default: u64, p: Param) -> ParamValue {
    ParamValue::Scalar {
        low: F64 { bits: low },
        high: F64 { bits: high },
        default: F64 { bits: default },
        current: p.constant(),
    }
}

fn scalar(low: u64, high: u64, default: u64, p: &Param) -> (r: ParamValue)
    ensures
        r == scalar_value(low, high, default, *p),
{
    ParamValue::Scalar {
        low: F64 { bits: low },
        high: F64 { bits: high },
        default: F64 { bits: default },
        current: p.as_const(),
    }
}

/// The default of every parameter whose neutral is zero.
pub fn param_zero() -> (r: Param)
    ensures
        r == Param::Const(F64 { bits: values::ZERO }),
{
    Param::Const(F64 { bits: values::ZERO })
}

/// The default of every parameter whose neutral is one.
pub fn param_one() -> (r: Param)
    ensures
        r == Param::Const(F64 { bits: values::ONE }),
{
    Param::Const(F64 { bits: values::ONE })
}

/// Three parameters at zero.
pub fn param3_zero() -> (r: Channels<Param>)
    ensures
        r == default_channels(values::ZERO),
{
    Channels { r: param_zero(), g: param_zero(), b: param_zero() }
}

/// Three parameters at one.
pub fn param3_one() -> (r: Channels<Param>)
    ensures
        r == default_channels(values::ONE),
{
    Channels { r: param_one(), g: param_one(), b: param_one() }
}

/// Three parameters at the same constant.
pub open spec fn default_channels(bits: u64) -> Channels<Param> {
    Channels {
        r: Param::Const(F64 { bits }),
        g: Param::Const(F64 { bits }),
        b: Param::Const(F64 { bits }),
    }
}

/// The default threshold of a glow.
pub fn glow_threshold_default() -> (r: Param)
    ensures
        r == Param::Const(F64 { bits: values::EIGHT_TENTHS }),
{
    Param::Const(F64 { bits: values::EIGHT_TENTHS })
}

/// The default radius of a glow.
pub fn glow_radius_default() -> (r: Param)
    ensures
        r == Param::Const(F64 { bits: values::FOUR }),
{
    Param::Const(F64 { bits: values::FOUR })
}

/// The default trail length of a motion blur.
pub fn sub_frames_default() -> (r: u8)
    ensures
        r == 8,
{
    8
}

/// The default key colour: green.
pub fn key_color_default() -> (r: Rgb)
    ensures
        r == default_key(),
{
    Rgb {
        r: F32 { bits: values::S_ZERO },
        g: F32 { bits: values::S_ONE },
        b: F32 { bits: values::S_ZERO },
    }
}

/// Green.
pub open spec fn default_key() -> Rgb {
    Rgb {
        r: F32 { bits: values::S_ZERO },
        g: F32 { bits: values::S_ONE },
        b: F32 { bits: values::S_ZERO },
    }
}

/// A typed effect that a clip can carry.
#[derive(Debug, PartialEq)]
pub enum EffectKind {
    /// Brightness, contrast, saturation, temperature and tint.
    ColorCorrect {
        brightness: Param,
        contrast: Param,
        saturation: Param,
        temperature: Param,
        tint: Param,
    },
    /// Gaussian blur.
    Blur { radius: Param },
    /// Unsharp-mask sharpen of the luma.
    Sharpen { amount: Param },
    /// Vignette, centred on the frame.
    Vignette { amount: Param },
    /// Temporal film grain.
    FilmGrain { luma_strength: Param, chroma_strength: Param },
    /// Bloom around highlights.
    Glow { threshold: Param, radius: Param, intensity: Param },
    /// Lift, gamma and gain wheels.
    ColorWheels {
        shadows_lift: Channels<Param>,
        midtones_gamma: Channels<Param>,
        highlights_gain: Channels<Param>,
    },
    /// Tone curves, the master one and one for each channel.
    Curves { master: Curve, red: Curve, green: Curve, blue: Curve },
    /// Hue, saturation and lightness.
    Hsl { hue_shift: Param, saturation: Param, lightness: Param },
    /// A colour table read from a file; an empty path is none.
    Lut { path: String },
    /// Chroma key.
    ChromaKey { key_color: Rgb, similarity: Param, softness: Param },
    /// Mask by the frame's own luma.
    LumaMask { invert: bool },
    /// Mask by a rectangle in pixels.
    ShapeMask { x: Param, y: Param, width: Param, height: Param, invert: bool },
    /// Exposure trail; the shutter is read at time zero.
    MotionBlur { shutter_angle: Param, sub_frames: u8 },
    /// A video step of the filter chain, verbatim.
    Raw { step: FilterStep<AnimatedValue> },
    /// Audio gain in decibels, read at time zero.
    Volume { gain_db: Param },
    /// An audio step of the filter chain, verbatim.
    AudioRaw { step: FilterStep<AnimatedValue> },
}

/// Which stream a kind applies to.
pub open spec fn domain_of(kind: EffectKind) -> EffectDomain {
    if kind is Volume || kind is AudioRaw {
        EffectDomain::Audio
    } else {
        EffectDomain::Video
    }
}

/// The stable name of a kind.
pub open spec fn kind_name(kind: EffectKind) -> &'static str {
    match kind {
        EffectKind::ColorCorrect { .. } => "color_correct",
        EffectKind::Blur { .. } => "blur",
        EffectKind::Sharpen { .. } => "sharpen",
        EffectKind::Vignette { .. } => "vignette",
        EffectKind::FilmGrain { .. } => "film_grain",
        EffectKind::Glow { .. } => "glow",
        EffectKind::ColorWheels { .. } => "color_wheels",
        EffectKind::Curves { .. } => "curves",
        EffectKind::Hsl { .. } => "hsl",
        EffectKind::Lut { .. } => "lut",
        EffectKind::ChromaKey { .. } => "chroma_key",
        EffectKind::LumaMask { .. } => "luma_mask",
        EffectKind::ShapeMask { .. } => "shape_mask",
        EffectKind::MotionBlur { .. } => "motion_blur",
        EffectKind::Raw { .. } => "raw",
        EffectKind::Volume { .. } => "volume",
        EffectKind::AudioRaw { .. } => "audio_raw",
    }
}

/// The parameters of a kind, in their stable order.
pub open spec fn kind_params(kind: EffectKind) -> Seq<ParamDescriptor> {
    match kind {
        EffectKind::ColorCorrect { brightness, contrast, saturation, temperature, tint } => seq![
            ParamDescriptor {
                name: "brightness",
                value: scalar_value(values::MINUS_ONE, values::ONE, values::ZERO, brightness),
            },
            ParamDescriptor {
                name: "contrast",
                value: scalar_value(values::ZERO, values::THREE, values::ONE, contrast),
            },
            ParamDescriptor {
                name: "saturation",
                value: scalar_value(values::ZERO, values::THREE, values::ONE, saturation),
            },
            ParamDescriptor {
                name: "temperature",
                value: scalar_value(values::MINUS_ONE, values::ONE, values::ZERO, temperature),
            },
            ParamDescriptor {
                name: "tint",
                value: scalar_value(values::MINUS_ONE, values::ONE, values::ZERO, tint),
            },
        ],
        EffectKind::Blur { radius } => seq![
            ParamDescriptor {
                name: "radius",
                value: scalar_value(values::ZERO, double::INFINITY, values::ZERO, radius),
            },
        ],
        EffectKind::Sharpen { amount } => seq![
            ParamDescriptor {
                name: "amount",
                value: scalar_value(
                    values::MINUS_ONE_AND_HALF,
                    values::ONE_AND_HALF,
                    values::ZERO,
                    amount,
                ),
            },
        ],
        EffectKind::Vignette { amount } => seq![
            ParamDescriptor {
                name: "amount",
                value: scalar_value(values::ZERO, values::ONE, values::ZERO, amount),
            },
        ],
        EffectKind::FilmGrain { luma_strength, chroma_strength } => seq![
            ParamDescriptor {
                name: "luma_strength",
                value: scalar_value(values::ZERO, values::HUNDRED, values::ZERO, luma_strength),
            },
            ParamDescriptor {
                name: "chroma_strength",
                value: scalar_value(values::ZERO, values::HUNDRED, values::ZERO, chroma_strength),
            },
        ],
        EffectKind::Glow { threshold, radius, intensity } => seq![
            ParamDescriptor {
                name: "threshold",
                value: scalar_value(values::ZERO, values::ONE, values::EIGHT_TENTHS, threshold),
            },
            ParamDescriptor {
                name: "radius",
                value: scalar_value(values::HALF, values::FIFTY, values::FOUR, radius),
            },
            ParamDescriptor {
                name: "intensity",
                value: scalar_value(values::ZERO, values::TWO, values::ZERO, intensity),
            },
        ],
        EffectKind::ColorWheels { shadows_lift, midtones_gamma, highlights_gain } => seq![
            ParamDescriptor {
                name: "shadows_lift.r",
                value: scalar_value(values::MINUS_ONE, values::ONE, values::ZERO, shadows_lift.r),
            },
            ParamDescriptor {
                name: "shadows_lift.g",
                value: scalar_value(values::MINUS_ONE, values::ONE, values::ZERO, shadows_lift.g),
            },
            ParamDescriptor {
                name: "shadows_lift.b",
                value: scalar_value(values::MINUS_ONE, values::ONE, values::ZERO, shadows_lift.b),
            },
            ParamDescriptor {
                name: "midtones_gamma.r",
                value: scalar_value(values::TENTH, values::TEN, values::ONE, midtones_gamma.r),
            },
            ParamDescriptor {
                name: "midtones_gamma.g",
                value: scalar_value(values::TENTH, values::TEN, values::ONE, midtones_gamma.g),
            },
            ParamDescriptor {
                name: "midtones_gamma.b",
                value: scalar_value(values::TENTH, values::TEN, values::ONE, midtones_gamma.b),
            },
            ParamDescriptor {
                name: "highlights_gain.r",
                value: scalar_value(values::ZERO, values::FOUR, values::ONE, highlights_gain.r),
            },
            ParamDescriptor {
                name: "highlights_gain.g",
                value: scalar_value(values::ZERO, values::FOUR, values::ONE, highlights_gain.g),
            },
            ParamDescriptor {
                name: "highlights_gain.b",
                value: scalar_value(values::ZERO, values::FOUR, values::ONE, highlights_gain.b),
            },
        ],
        EffectKind::Curves { master, red, green, blue } => seq![
            ParamDescriptor { name: "master", value: ParamValue::Points { current: master } },
            ParamDescriptor { name: "red", value: ParamValue::Points { current: red } },
            ParamDescriptor { name: "green", value: ParamValue::Points { current: green } },
            ParamDescriptor { name: "blue", value: ParamValue::Points { current: blue } },
        ],
        EffectKind::Hsl { hue_shift, saturation, lightness } => seq![
            ParamDescriptor {
                name: "hue_shift",
                value: scalar_value(
                    values::MINUS_HALF_TURN,
                    values::HALF_TURN,
                    values::ZERO,
                    hue_shift,
                ),
            },
            ParamDescriptor {
                name: "saturation",
                value: scalar_value(values::ZERO, values::TWO, values::ONE, saturation),
            },
            ParamDescriptor {
                name: "lightness",
                value: scalar_value(values::MINUS_ONE, values::ONE, values::ZERO, lightness),
            },
        ],
        EffectKind::Lut { path } => seq![
            ParamDescriptor { name: "path", value: ParamValue::Path { current: path } },
        ],
        EffectKind::ChromaKey { key_color, similarity, softness } => seq![
            ParamDescriptor { name: "key_color", value: ParamValue::Color { current: key_color } },
            ParamDescriptor {
                name: "similarity",
                value: scalar_value(values::ZERO, values::ONE, values::ZERO, similarity),
            },
            ParamDescriptor {
                name: "softness",
                value: scalar_value(values::ZERO, values::ONE, values::ZERO, softness),
            },
        ],
        EffectKind::LumaMask { invert } => seq![
            ParamDescriptor {
                name: "invert",
                value: ParamValue::Bool { default: false, current: invert },
            },
        ],
        EffectKind::ShapeMask { x, y, width, height, invert } => seq![
            ParamDescriptor {
                name: "x",
                value: scalar_value(values::ZERO, double::INFINITY, values::ZERO, x),
            },
            ParamDescriptor {
                name: "y",
                value: scalar_value(values::ZERO, double::INFINITY, values::ZERO, y),
            },
            ParamDescriptor {
                name: "width",
                value: scalar_value(values::ZERO, double::INFINITY, values::ZERO, width),
            },
            ParamDescriptor {
                name: "height",
                value: scalar_value(values::ZERO, double::INFINITY, values::ZERO, height),
            },
            ParamDescriptor {
                name: "invert",
                value: ParamValue::Bool { default: false, current: invert },
            },
        ],
        EffectKind::MotionBlur { shutter_angle, sub_frames } => seq![
            ParamDescriptor {
                name: "shutter_angle",
                value: scalar_value(values::ZERO, values::FULL_TURN, values::ZERO, shutter_angle),
            },
            ParamDescriptor {
                name: "sub_frames",
                value: ParamValue::Int { low: 2, high: 8, default: 8, current: sub_frames as i64 },
            },
        ],
        EffectKind::Raw { .. } => Seq::empty(),
        EffectKind::Volume { gain_db } => seq![
            ParamDescriptor {
                name: "gain_db",
                value: scalar_value(values::MINUS_SIXTY, values::THIRTY, values::ZERO, gain_db),
            },
        ],
        EffectKind::AudioRaw { .. } => Seq::empty(),
    }
}

/// Whether `v` is the parameter `p` moved up by one: the additive lift of the wheels, neutral
/// at zero, in the corrector's convention, neutral at one.
pub open spec fn lifted(p: Param, v: AnimatedValue) -> bool {
    match (p, v) {
        (Param::Const(c), AnimatedValue::Static(s)) => s == double::sum(
            c,
            F64 { bits: values::ONE },
        ),
        (Param::Animated(t), AnimatedValue::Track(u)) => {
            &&& u.keyframes@.len() == t.keyframes@.len()
            &&& forall|i: int|
                0 <= i < t.keyframes@.len() ==> {
                    &&& (#[trigger] u.keyframes@[i]).timestamp == t.keyframes@[i].timestamp
                    &&& u.keyframes@[i].value == double::sum(
                        t.keyframes@[i].value,
                        F64 { bits: values::ONE },
                    )
                    &&& u.keyframes@[i].easing == t.keyframes@[i].easing
                }
        },
        _ => false,
    }
}

fn lift_to_animated(p: &Param) -> (r: AnimatedValue)
    ensures
        lifted(*p, r),
{
    match p {
        Param::Const(v) => AnimatedValue::Static(v.plus(F64 { bits: values::ONE })),
        Param::Animated(track) => {
            let mut moved: Vec<Keyframe> = Vec::new();
            let mut i: usize = 0;
            while i < track.keyframes.len()
                invariant
                    i <= track.keyframes@.len(),
                    moved@.len() == i,
                    forall|j: int|
                        0 <= j < i ==> {
                            &&& (#[trigger] moved@[j]).timestamp == track.keyframes@[j].timestamp
                            &&& moved@[j].value == double::sum(
                                track.keyframes@[j].value,
                                F64 { bits: values::ONE },
                            )
                            &&& moved@[j].easing == track.keyframes@[j].easing
                        },
                decreases track.keyframes@.len() - i,
            {
                let k = &track.keyframes[i];
                moved.push(
                    Keyframe {
                        timestamp: k.timestamp,
                        value: k.value.plus(F64 { bits: values::ONE }),
                        easing: k.easing.clone(),
                    },
                );
                i = i + 1;
            }
            AnimatedValue::Track(AnimationTrack::new(moved))
        },
    }
}

/// A colour channel between zero and one as a byte, to the nearest.
pub open spec fn channel_byte(v: F32) -> nat {
    single::truncated(
        single::sum(
            single::product(
                single::held(v, F32 { bits: values::S_ZERO }, F32 { bits: values::S_ONE }),
                F32 { bits: values::S_BYTE_MAX },
            ),
            F32 { bits: values::S_HALF },
        ),
        255,
    )
}

/// An upper-case hexadecimal digit.
pub open spec fn hex_digit(n: nat) -> char {
    "0123456789ABCDEF"@[n as int]
}

/// Two upper-case hexadecimal digits.
pub open spec fn hex_byte(n: nat) -> Seq<char> {
    seq![hex_digit(n / 16), hex_digit(n % 16)]
}

/// The canonical spelling of a colour: six hexadecimal digits after `0x`.
pub open spec fn hex_color(rgb: Rgb) -> Seq<char> {
    seq!['0', 'x'] + hex_byte(channel_byte(rgb.r)) + hex_byte(channel_byte(rgb.g)) + hex_byte(
        channel_byte(rgb.b),
    )
}

/// Whether `named` spells the colour `rgb` canonically.
pub open spec fn spells(rgb: Rgb, named: NamedColor) -> bool {
    &&& named.text@ == hex_color(rgb)
    &&& named.color == Some(
        Color {
            r: channel_byte(rgb.r) as u8,
            g: channel_byte(rgb.g) as u8,
            b: channel_byte(rgb.b) as u8,
            a: 255,
        },
    )
}

fn byte_of(v: F32) -> (r: u8)
    ensures
        r == channel_byte(v),
{
    v.clamp(F32 { bits: values::S_ZERO }, F32 { bits: values::S_ONE }).times(
        F32 { bits: values::S_BYTE_MAX },
    ).plus(F32 { bits: values::S_HALF }).truncate_at_most(255) as u8
}

fn digit(n: u8) -> (r: &'static str)
    requires
        n < 16,
    ensures
        r@ == seq![hex_digit(n as nat)],
{
    proof {
        reveal_strlit("0123456789ABCDEF");
        reveal_strlit("0");
        reveal_strlit("1");
        reveal_strlit("2");
        reveal_strlit("3");
        reveal_strlit("4");
        reveal_strlit("5");
        reveal_strlit("6");
        reveal_strlit("7");
        reveal_strlit("8");
        reveal_strlit("9");
        reveal_strlit("A");
        reveal_strlit("B");
        reveal_strlit("C");
        reveal_strlit("D");
        reveal_strlit("E");
        reveal_strlit("F");
    }
    match n {
        0 => "0",
        1 => "1",
        2 => "2",
        3 => "3",
        4 => "4",
        5 => "5",
        6 => "6",
        7 => "7",
        8 => "8",
        9 => "9",
        10 => "A",
        11 => "B",
        12 => "C",
        13 => "D",
        14 => "E",
        _ => "F",
    }
}

fn append_byte(text: &mut String, n: u8)
    ensures
        final(text)@ == old(text)@ + hex_byte(n as nat),
{
    text.append(digit(n / 16));
    text.append(digit(n % 16));
    assert(text@ =~= old(text)@ + hex_byte(n as nat));
}

/// The canonical spelling of a colour whose channels run from zero to one.
pub fn rgb_to_ffmpeg_hex(rgb: Rgb) -> (r: NamedColor)
    ensures
        spells(rgb, r),
{
    let (r, g, b) = (byte_of(rgb.r), byte_of(rgb.g), byte_of(rgb.b));
    let mut text = String::new();
    text.append("0x");
    proof {
        reveal_strlit("0x");
        assert(text@ =~= seq!['0', 'x']);
    }
    append_byte(&mut text, r);
    append_byte(&mut text, g);
    append_byte(&mut text, b);
    NamedColor { text, color: Some(Color::rgb(r, g, b)) }
}

/// A constant parameter in single precision.
pub open spec fn single_const(p: Param) -> F32 {
    double::narrowed(p->Const_0)
}

/// Three constant parameters in single precision.
pub open spec fn single_channels(c: Channels<Param>) -> Rgb {
    Rgb { r: single_const(c.r), g: single_const(c.g), b: single_const(c.b) }
}

/// Three constant lifts in the corrector's convention, in single precision.
pub open spec fn single_lift(c: Channels<Param>) -> Rgb {
    let one = F64 { bits: values::ONE };
    Rgb {
        r: double::narrowed(double::sum(c.r->Const_0, one)),
        g: double::narrowed(double::sum(c.g->Const_0, one)),
        b: double::narrowed(double::sum(c.b->Const_0, one)),
    }
}

/// A constant parameter as a count of pixels.
pub open spec fn pixels(p: Param) -> u32 {
    double::rounded(p->Const_0, 0xFFFF_FFFF) as u32
}

/// The parameter's value at time zero, where `start` is what its track gives there.
pub open spec fn at_start(p: Param, start: F64) -> F64 {
    match p {
        Param::Const(v) => v,
        Param::Animated(_) => start,
    }
}

/// What a kind compiles to, where `start` is the value at time zero of the track that
/// [`EffectKind::start_track`] names.
pub open spec fn compiles_to(
    kind: EffectKind,
    start: F64,
    step: Option<FilterStep<AnimatedValue>>,
) -> bool {
    match kind {
        EffectKind::ColorCorrect { brightness, contrast, saturation, temperature, tint } => {
            if brightness is Const && contrast is Const && saturation is Const
                && temperature is Const && tint is Const {
                if brightness.fixed_at(values::ZERO) && contrast.fixed_at(values::ONE)
                    && saturation.fixed_at(values::ONE) && temperature.fixed_at(values::ZERO)
                    && tint.fixed_at(values::ZERO) {
                    step is None
                } else {
                    step == Some(
                        FilterStep::<AnimatedValue>::Eq {
                            brightness: single_const(brightness),
                            contrast: single_const(contrast),
                            saturation: single_const(saturation),
                            temperature: single_const(temperature),
                            tint: single_const(tint),
                        },
                    )
                }
            } else {
                step == Some(
                    FilterStep::EqAnimated {
                        brightness: animated(brightness),
                        contrast: animated(contrast),
                        saturation: animated(saturation),
                        gamma: AnimatedValue::Static(F64 { bits: values::ONE }),
                        temperature: animated(temperature),
                        tint: animated(tint),
                    },
                )
            }
        },
        EffectKind::Blur { radius } => {
            if radius is Const {
                step == Some(FilterStep::<AnimatedValue>::GBlur { sigma: single_const(radius) })
            } else {
                step == Some(FilterStep::GBlurAnimated { sigma: animated(radius) })
            }
        },
        EffectKind::Sharpen { amount } => {
            if amount is Const {
                step == Some(
                    FilterStep::<AnimatedValue>::Unsharp {
                        luma_strength: single_const(amount),
                        chroma_strength: F32 { bits: values::S_ZERO },
                    },
                )
            } else {
                step == Some(
                    FilterStep::UnsharpAnimated {
                        luma_strength: animated(amount),
                        chroma_strength: AnimatedValue::Static(F64 { bits: values::ZERO }),
                    },
                )
            }
        },
        EffectKind::Vignette { amount } => step == Some(
            FilterStep::VignetteAnimated {
                amount: animated(amount),
                x0: F32 { bits: values::S_ZERO },
                y0: F32 { bits: values::S_ZERO },
            },
        ),
        EffectKind::FilmGrain { luma_strength, chroma_strength } => {
            if luma_strength is Const && chroma_strength is Const {
                step == Some(
                    FilterStep::<AnimatedValue>::FilmGrain {
                        luma_strength: single_const(luma_strength),
                        chroma_strength: single_const(chroma_strength),
                    },
                )
            } else {
                step == Some(
                    FilterStep::FilmGrainAnimated {
                        luma_strength: animated(luma_strength),
                        chroma_strength: animated(chroma_strength),
                    },
                )
            }
        },
        EffectKind::Glow { threshold, radius, intensity } => {
            if threshold is Const && radius is Const && intensity is Const {
                step == Some(
                    FilterStep::<AnimatedValue>::Glow {
                        threshold: single_const(threshold),
                        radius: single_const(radius),
                        intensity: single_const(intensity),
                    },
                )
            } else {
                step == Some(
                    FilterStep::GlowAnimated {
                        threshold: animated(threshold),
                        radius: animated(radius),
                        intensity: animated(intensity),
                    },
                )
            }
        },
        EffectKind::ColorWheels { shadows_lift, midtones_gamma, highlights_gain } => {
            if shadows_lift.all_const() && midtones_gamma.all_const()
                && highlights_gain.all_const() {
                if shadows_lift.all_fixed_at(values::ZERO) && midtones_gamma.all_fixed_at(
                    values::ONE,
                ) && highlights_gain.all_fixed_at(values::ONE) {
                    step is None
                } else {
                    step == Some(
                        FilterStep::<AnimatedValue>::ThreeWayCC {
                            lift: single_lift(shadows_lift),
                            gamma: single_channels(midtones_gamma),
                            gain: single_channels(highlights_gain),
                        },
                    )
                }
            } else {
                step matches Some(FilterStep::ThreeWayCCAnimated { lift, gamma, gain }) && {
                    &&& lifted(shadows_lift.r, lift.r)
                    &&& lifted(shadows_lift.g, lift.g)
                    &&& lifted(shadows_lift.b, lift.b)
                    &&& gamma == channels_animated(midtones_gamma)
                    &&& gain == channels_animated(highlights_gain)
                }
            }
        },
        EffectKind::Curves { master, red, green, blue } => {
            if master.identity() && red.identity() && green.identity() && blue.identity() {
                step is None
            } else {
                step == Some(
                    FilterStep::<AnimatedValue>::Curves { master, r: red, g: green, b: blue },
                )
            }
        },
        EffectKind::Hsl { hue_shift, saturation, lightness } => {
            if hue_shift is Const && saturation is Const && lightness is Const {
                if hue_shift.fixed_at(values::ZERO) && saturation.fixed_at(values::ONE)
                    && lightness.fixed_at(values::ZERO) {
                    step is None
                } else {
                    step == Some(
                        FilterStep::<AnimatedValue>::Hsl {
                            hue: single_const(hue_shift),
                            saturation: single_const(saturation),
                            lightness: single_const(lightness),
                        },
                    )
                }
            } else {
                step == Some(
                    FilterStep::HslAnimated {
                        hue: animated(hue_shift),
                        saturation: animated(saturation),
                        lightness: animated(lightness),
                    },
                )
            }
        },
        EffectKind::Lut { path } => {
            if path@.len() == 0 {
                step is None
            } else {
                step == Some(FilterStep::<AnimatedValue>::Lut3d { path })
            }
        },
        EffectKind::ChromaKey { key_color, similarity, softness } => {
            if similarity.fixed_at(values::ZERO) {
                step is None
            } else if similarity is Const && softness is Const {
                step matches Some(
                    FilterStep::ChromaKey { color, similarity: s, blend: b },
                ) && spells(key_color, color) && s == single_const(similarity) && b
                    == single_const(softness)
            } else {
                step matches Some(
                    FilterStep::ChromaKeyAnimated { color, similarity: s, blend: b },
                ) && spells(key_color, color) && s == animated(similarity) && b == animated(
                    softness,
                )
            }
        },
        EffectKind::LumaMask { invert } => step == Some(
            FilterStep::<AnimatedValue>::LumaMask { invert },
        ),
        EffectKind::ShapeMask { x, y, width, height, invert } => {
            if x is Const && y is Const && width is Const && height is Const {
                if pixels(width) == 0 || pixels(height) == 0 {
                    step is None
                } else {
                    step == Some(
                        FilterStep::<AnimatedValue>::RectMask {
                            x: pixels(x),
                            y: pixels(y),
                            width: pixels(width),
                            height: pixels(height),
                            invert,
                        },
                    )
                }
            } else if width.fixed_at(values::ZERO) || height.fixed_at(values::ZERO) {
                step is None
            } else {
                step == Some(
                    FilterStep::RectMaskAnimated {
                        x: animated(x),
                        y: animated(y),
                        width: animated(width),
                        height: animated(height),
                        invert,
                    },
                )
            }
        },
        EffectKind::MotionBlur { shutter_angle, sub_frames } => {
            let angle = double::narrowed(at_start(shutter_angle, start));
            if single::at_most(angle, F32 { bits: values::S_ZERO }) {
                step is None
            } else {
                step == Some(
                    FilterStep::<AnimatedValue>::MotionBlur {
                        shutter_angle_degrees: angle,
                        sub_frames,
                    },
                )
            }
        },
        EffectKind::Raw { step: raw } => step == Some(raw),
        EffectKind::AudioRaw { step: raw } => step == Some(raw),
        EffectKind::Volume { gain_db } => {
            let gain = at_start(gain_db, start);
            if double::equal(gain, F64 { bits: values::ZERO }) {
                step is None
            } else {
                step == Some(FilterStep::<AnimatedValue>::Volume { gain_db: gain })
            }
        },
    }
}

/// What a lift moves up to is fixed.
proof fn lemma_lifted_alike(p: Param, v: AnimatedValue, w: AnimatedValue)
    requires
        lifted(p, v),
        lifted(p, w),
    ensures
        filter::values_alike(v, w),
{
    if let (AnimatedValue::Track(t), AnimatedValue::Track(u)) = (v, w) {
        assert forall|i: int| 0 <= i < t.keyframes@.len() implies #[trigger] t.keyframes@[i]
            == u.keyframes@[i] by {
            let k = u.keyframes@[i];
        }
        assert(t.keyframes@ =~= u.keyframes@);
    }
}

/// A kind compiles to one step only: any two that it compiles to do the same.
pub proof fn compiles_to_one_step(
    kind: EffectKind,
    start: F64,
    a: FilterStep<AnimatedValue>,
    b: FilterStep<AnimatedValue>,
)
    requires
        compiles_to(kind, start, Some(a)),
        compiles_to(kind, start, Some(b)),
    ensures
        filter::steps_alike(a, b),
{
    if let (
        EffectKind::ColorWheels { shadows_lift, .. },
        FilterStep::ThreeWayCCAnimated { lift: l, .. },
        FilterStep::ThreeWayCCAnimated { lift: m, .. },
    ) = (kind, a, b) {
        lemma_lifted_alike(shadows_lift.r, l.r, m.r);
        lemma_lifted_alike(shadows_lift.g, l.g, m.g);
        lemma_lifted_alike(shadows_lift.b, l.b, m.b);
    }
}

/// A kind that compiles to a step does not also compile to nothing.
pub proof fn compiles_one_way(kind: EffectKind, start: F64, step: FilterStep<AnimatedValue>)
    requires
        compiles_to(kind, start, Some(step)),
    ensures
        !compiles_to(kind, start, None),
{
}

/// The track whose value at time zero a kind needs, if it needs one.
pub open spec fn start_track_of(kind: EffectKind) -> Option<AnimationTrack> {
    match kind {
        EffectKind::MotionBlur { shutter_angle: Param::Animated(t), .. } => Some(t),
        EffectKind::Volume { gain_db: Param::Animated(t) } => Some(t),
        _ => None,
    }
}

fn narrow(p: &Param) -> (r: F32)
    requires
        p is Const,
    ensures
        r == single_const(*p),
{
    match p {
        Param::Const(v) => v.to_single(),
        Param::Animated(_) => F32 { bits: values::S_ZERO },
    }
}

fn narrow_channels(c: &Channels<Param>) -> (r: Rgb)
    requires
        c.all_const(),
    ensures
        r == single_channels(*c),
{
    Rgb { r: narrow(&c.r), g: narrow(&c.g), b: narrow(&c.b) }
}

fn narrow_lift(p: &Param) -> (r: F32)
    requires
        p is Const,
    ensures
        r == double::narrowed(double::sum(p->Const_0, F64 { bits: values::ONE })),
{
    match p {
        Param::Const(v) => v.plus(F64 { bits: values::ONE }).to_single(),
        Param::Animated(_) => F32 { bits: values::S_ZERO },
    }
}

/// A constant parameter as a count of pixels; an animated one counts as none.
pub fn param_to_u32(p: &Param) -> (r: u32)
    ensures
        p is Const ==> r == pixels(*p),
        p is Animated ==> r == 0,
{
    match p {
        Param::Const(v) => v.round_at_most(0xFFFF_FFFF) as u32,
        Param::Animated(_) => 0,
    }
}

fn value_at_start(p: &Param, start: F64) -> (r: F64)
    ensures
        r == at_start(*p, start),
{
    match p {
        Param::Const(v) => *v,
        Param::Animated(_) => start,
    }
}

impl EffectKind {
    /// Which stream this kind applies to.
    #[must_use]
    pub fn domain(&self) -> (r: EffectDomain)
        ensures
            r == domain_of(*self),
    {
        match self {
            EffectKind::ColorCorrect { .. }
            | EffectKind::Blur { .. }
            | EffectKind::Sharpen { .. }
            | EffectKind::Vignette { .. }
            | EffectKind::FilmGrain { .. }
            | EffectKind::Glow { .. }
            | EffectKind::ColorWheels { .. }
            | EffectKind::Curves { .. }
            | EffectKind::Hsl { .. }
            | EffectKind::Lut { .. }
            | EffectKind::ChromaKey { .. }
            | EffectKind::LumaMask { .. }
            | EffectKind::ShapeMask { .. }
            | EffectKind::MotionBlur { .. }
            | EffectKind::Raw { .. } => EffectDomain::Video,
            EffectKind::Volume { .. } | EffectKind::AudioRaw { .. } => EffectDomain::Audio,
        }
    }

    /// The kind's stable name and, for every parameter, its name, type, range, default and
    /// current value, so that a panel can be drawn without knowing the kinds.
    #[must_use]
    pub fn descriptor(&self) -> (r: EffectDescriptor)
        ensures
            r.name == kind_name(*self),
            r.params@ == kind_params(*self),
    {
        match self {
            EffectKind::ColorCorrect {
                brightness,
                contrast,
                saturation,
                temperature,
                tint,
            } => EffectDescriptor {
                name: "color_correct",
                params: vec![
                    ParamDescriptor {
                        name: "brightness",
                        value: scalar(values::MINUS_ONE, values::ONE, values::ZERO, brightness),
                    },
                    ParamDescriptor {
                        name: "contrast",
                        value: scalar(values::ZERO, values::THREE, values::ONE, contrast),
                    },
                    ParamDescriptor {
                        name: "saturation",
                        value: scalar(values::ZERO, values::THREE, values::ONE, saturation),
                    },
                    ParamDescriptor {
                        name: "temperature",
                        value: scalar(values::MINUS_ONE, values::ONE, values::ZERO, temperature),
                    },
                    ParamDescriptor {
                        name: "tint",
                        value: scalar(values::MINUS_ONE, values::ONE, values::ZERO, tint),
                    },
                ],
            },
            EffectKind::Blur { radius } => EffectDescriptor {
                name: "blur",
                params: vec![
                    ParamDescriptor {
                        name: "radius",
                        value: scalar(values::ZERO, double::INFINITY, values::ZERO, radius),
                    },
                ],
            },
            EffectKind::Sharpen { amount } => EffectDescriptor {
                name: "sharpen",
                params: vec![
                    ParamDescriptor {
                        name: "amount",
                        value: scalar(
                            values::MINUS_ONE_AND_HALF,
                            values::ONE_AND_HALF,
                            values::ZERO,
                            amount,
                        ),
                    },
                ],
            },
            EffectKind::Vignette { amount } => EffectDescriptor {
                name: "vignette",
                params: vec![
                    ParamDescriptor {
                        name: "amount",
                        value: scalar(values::ZERO, values::ONE, values::ZERO, amount),
                    },
                ],
            },
            EffectKind::FilmGrain { luma_strength, chroma_strength } => EffectDescriptor {
                name: "film_grain",
                params: vec![
                    ParamDescriptor {
                        name: "luma_strength",
                        value: scalar(values::ZERO, values::HUNDRED, values::ZERO, luma_strength),
                    },
                    ParamDescriptor {
                        name: "chroma_strength",
                        value: scalar(values::ZERO, values::HUNDRED, values::ZERO, chroma_strength),
                    },
                ],
            },
            EffectKind::Glow { threshold, radius, intensity } => EffectDescriptor {
                name: "glow",
                params: vec![
                    ParamDescriptor {
                        name: "threshold",
                        value: scalar(values::ZERO, values::ONE, values::EIGHT_TENTHS, threshold),
                    },
                    ParamDescriptor {
                        name: "radius",
                        value: scalar(values::HALF, values::FIFTY, values::FOUR, radius),
                    },
                    ParamDescriptor {
                        name: "intensity",
                        value: scalar(values::ZERO, values::TWO, values::ZERO, intensity),
                    },
                ],
            },
            EffectKind::ColorWheels {
                shadows_lift,
                midtones_gamma,
                highlights_gain,
            } => EffectDescriptor {
                name: "color_wheels",
                params: vec![
                    ParamDescriptor {
                        name: "shadows_lift.r",
                        value: scalar(
                            values::MINUS_ONE,
                            values::ONE,
                            values::ZERO,
                            &shadows_lift.r,
                        ),
                    },
                    ParamDescriptor {
                        name: "shadows_lift.g",
                        value: scalar(
                            values::MINUS_ONE,
                            values::ONE,
                            values::ZERO,
                            &shadows_lift.g,
                        ),
                    },
                    ParamDescriptor {
                        name: "shadows_lift.b",
                        value: scalar(
                            values::MINUS_ONE,
                            values::ONE,
                            values::ZERO,
                            &shadows_lift.b,
                        ),
                    },
                    ParamDescriptor {
                        name: "midtones_gamma.r",
                        value: scalar(values::TENTH, values::TEN, values::ONE, &midtones_gamma.r),
                    },
                    ParamDescriptor {
                        name: "midtones_gamma.g",
                        value: scalar(values::TENTH, values::TEN, values::ONE, &midtones_gamma.g),
                    },
                    ParamDescriptor {
                        name: "midtones_gamma.b",
                        value: scalar(values::TENTH, values::TEN, values::ONE, &midtones_gamma.b),
                    },
                    ParamDescriptor {
                        name: "highlights_gain.r",
                        value: scalar(values::ZERO, values::FOUR, values::ONE, &highlights_gain.r),
                    },
                    ParamDescriptor {
                        name: "highlights_gain.g",
                        value: scalar(values::ZERO, values::FOUR, values::ONE, &highlights_gain.g),
                    },
                    ParamDescriptor {
                        name: "highlights_gain.b",
                        value: scalar(values::ZERO, values::FOUR, values::ONE, &highlights_gain.b),
                    },
                ],
            },
            EffectKind::Curves { master, red, green, blue } => EffectDescriptor {
                name: "curves",
                params: vec![
                    ParamDescriptor {
                        name: "master",
                        value: ParamValue::Points { current: master.clone() },
                    },
                    ParamDescriptor {
                        name: "red",
                        value: ParamValue::Points { current: red.clone() },
                    },
                    ParamDescriptor {
                        name: "green",
                        value: ParamValue::Points { current: green.clone() },
                    },
                    ParamDescriptor {
                        name: "blue",
                        value: ParamValue::Points { current: blue.clone() },
                    },
                ],
            },
            EffectKind::Hsl { hue_shift, saturation, lightness } => EffectDescriptor {
                name: "hsl",
                params: vec![
                    ParamDescriptor {
                        name: "hue_shift",
                        value: scalar(
                            values::MINUS_HALF_TURN,
                            values::HALF_TURN,
                            values::ZERO,
                            hue_shift,
                        ),
                    },
                    ParamDescriptor {
                        name: "saturation",
                        value: scalar(values::ZERO, values::TWO, values::ONE, saturation),
                    },
                    ParamDescriptor {
                        name: "lightness",
                        value: scalar(values::MINUS_ONE, values::ONE, values::ZERO, lightness),
                    },
                ],
            },
            EffectKind::Lut { path } => EffectDescriptor {
                name: "lut",
                params: vec![
                    ParamDescriptor {
                        name: "path",
                        value: ParamValue::Path { current: path.clone() },
                    },
                ],
            },
            EffectKind::ChromaKey { key_color, similarity, softness } => EffectDescriptor {
                name: "chroma_key",
                params: vec![
                    ParamDescriptor {
                        name: "key_color",
                        value: ParamValue::Color { current: *key_color },
                    },
                    ParamDescriptor {
                        name: "similarity",
                        value: scalar(values::ZERO, values::ONE, values::ZERO, similarity),
                    },
                    ParamDescriptor {
                        name: "softness",
                        value: scalar(values::ZERO, values::ONE, values::ZERO, softness),
                    },
                ],
            },
            EffectKind::LumaMask { invert } => EffectDescriptor {
                name: "luma_mask",
                params: vec![
                    ParamDescriptor {
                        name: "invert",
                        value: ParamValue::Bool { default: false, current: *invert },
                    },
                ],
            },
            EffectKind::ShapeMask { x, y, width, height, invert } => EffectDescriptor {
                name: "shape_mask",
                params: vec![
                    ParamDescriptor {
                        name: "x",
                        value: scalar(values::ZERO, double::INFINITY, values::ZERO, x),
                    },
                    ParamDescriptor {
                        name: "y",
                        value: scalar(values::ZERO, double::INFINITY, values::ZERO, y),
                    },
                    ParamDescriptor {
                        name: "width",
                        value: scalar(values::ZERO, double::INFINITY, values::ZERO, width),
                    },
                    ParamDescriptor {
                        name: "height",
                        value: scalar(values::ZERO, double::INFINITY, values::ZERO, height),
                    },
                    ParamDescriptor {
                        name: "invert",
                        value: ParamValue::Bool { default: false, current: *invert },
                    },
                ],
            },
            EffectKind::MotionBlur { shutter_angle, sub_frames } => EffectDescriptor {
                name: "motion_blur",
                params: vec![
                    ParamDescriptor {
                        name: "shutter_angle",
                        value: scalar(values::ZERO, values::FULL_TURN, values::ZERO, shutter_angle),
                    },
                    ParamDescriptor {
                        name: "sub_frames",
                        value: ParamValue::Int {
                            low: 2,
                            high: 8,
                            default: 8,
                            current: *sub_frames as i64,
                        },
                    },
                ],
            },
            EffectKind::Raw { .. } => EffectDescriptor {
                name: "raw",
                params: Vec::new(),
            },
            EffectKind::Volume { gain_db } => EffectDescriptor {
                name: "volume",
                params: vec![
                    ParamDescriptor {
                        name: "gain_db",
                        value: scalar(values::MINUS_SIXTY, values::THIRTY, values::ZERO, gain_db),
                    },
                ],
            },
            EffectKind::AudioRaw { .. } => EffectDescriptor {
                name: "audio_raw",
                params: Vec::new(),
            },
        }
    }

    /// The track whose value at time zero [`to_filter_step`](Self::to_filter_step) needs.
    pub fn start_track(&self) -> (r: Option<AnimationTrack>)
        ensures
            r == start_track_of(*self),
    {
        match self {
            EffectKind::MotionBlur { shutter_angle: Param::Animated(t), .. } => Some(t.clone()),
            EffectKind::Volume { gain_db: Param::Animated(t) } => Some(t.clone()),
            _ => None,
        }
    }

    /// Compiles this kind to the step that renders it, or `None` where it changes nothing.
    ///
    /// `start` is the value at time zero of [`start_track`](Self::start_track); a kind that
    /// names no such track does not read it.
    #[must_use]
    pub fn to_filter_step(&self, start: F64) -> (r: Option<FilterStep<AnimatedValue>>)
        ensures
            compiles_to(*self, start, r),
    {
        match self {
            EffectKind::ColorCorrect { brightness, contrast, saturation, temperature, tint } => {
                if brightness.is_const() && contrast.is_const() && saturation.is_const()
                    && temperature.is_const() && tint.is_const() {
                    if brightness.is_fixed_at(values::ZERO) && contrast.is_fixed_at(values::ONE)
                        && saturation.is_fixed_at(values::ONE) && temperature.is_fixed_at(
                        values::ZERO,
                    ) && tint.is_fixed_at(values::ZERO) {
                        return None;
                    }
                    Some(
                        FilterStep::Eq {
                            brightness: narrow(brightness),
                            contrast: narrow(contrast),
                            saturation: narrow(saturation),
                            temperature: narrow(temperature),
                            tint: narrow(tint),
                        },
                    )
                } else {
                    Some(
                        FilterStep::EqAnimated {
                            brightness: brightness.to_animated(),
                            contrast: contrast.to_animated(),
                            saturation: saturation.to_animated(),
                            gamma: AnimatedValue::Static(F64 { bits: values::ONE }),
                            temperature: temperature.to_animated(),
                            tint: tint.to_animated(),
                        },
                    )
                }
            },
            EffectKind::Blur { radius } => {
                if radius.is_const() {
                    Some(FilterStep::GBlur { sigma: narrow(radius) })
                } else {
                    Some(FilterStep::GBlurAnimated { sigma: radius.to_animated() })
                }
            },
            EffectKind::Sharpen { amount } => {
                if amount.is_const() {
                    Some(
                        FilterStep::Unsharp {
                            luma_strength: narrow(amount),
                            chroma_strength: F32 { bits: values::S_ZERO },
                        },
                    )
                } else {
                    Some(
                        FilterStep::UnsharpAnimated {
                            luma_strength: amount.to_animated(),
                            chroma_strength: AnimatedValue::Static(F64 { bits: values::ZERO }),
                        },
                    )
                }
            },
            EffectKind::Vignette { amount } => Some(
                FilterStep::VignetteAnimated {
                    amount: amount.to_animated(),
                    x0: F32 { bits: values::S_ZERO },
                    y0: F32 { bits: values::S_ZERO },
                },
            ),
            EffectKind::FilmGrain { luma_strength, chroma_strength } => {
                if luma_strength.is_const() && chroma_strength.is_const() {
                    Some(
                        FilterStep::FilmGrain {
                            luma_strength: narrow(luma_strength),
                            chroma_strength: narrow(chroma_strength),
                        },
                    )
                } else {
                    Some(
                        FilterStep::FilmGrainAnimated {
                            luma_strength: luma_strength.to_animated(),
                            chroma_strength: chroma_strength.to_animated(),
                        },
                    )
                }
            },
            EffectKind::Glow { threshold, radius, intensity } => {
                if threshold.is_const() && radius.is_const() && intensity.is_const() {
                    Some(
                        FilterStep::Glow {
                            threshold: narrow(threshold),
                            radius: narrow(radius),
                            intensity: narrow(intensity),
                        },
                    )
                } else {
                    Some(
                        FilterStep::GlowAnimated {
                            threshold: threshold.to_animated(),
                            radius: radius.to_animated(),
                            intensity: intensity.to_animated(),
                        },
                    )
                }
            },
            EffectKind::ColorWheels { shadows_lift, midtones_gamma, highlights_gain } => {
                if shadows_lift.are_const() && midtones_gamma.are_const()
                    && highlights_gain.are_const() {
                    if shadows_lift.are_fixed_at(values::ZERO) && midtones_gamma.are_fixed_at(
                        values::ONE,
                    ) && highlights_gain.are_fixed_at(values::ONE) {
                        return None;
                    }
                    Some(
                        FilterStep::ThreeWayCC {
                            lift: Rgb {
                                r: narrow_lift(&shadows_lift.r),
                                g: narrow_lift(&shadows_lift.g),
                                b: narrow_lift(&shadows_lift.b),
                            },
                            gamma: narrow_channels(midtones_gamma),
                            gain: narrow_channels(highlights_gain),
                        },
                    )
                } else {
                    Some(
                        FilterStep::ThreeWayCCAnimated {
                            lift: Channels {
                                r: lift_to_animated(&shadows_lift.r),
                                g: lift_to_animated(&shadows_lift.g),
                                b: lift_to_animated(&shadows_lift.b),
                            },
                            gamma: midtones_gamma.to_animated(),
                            gain: highlights_gain.to_animated(),
                        },
                    )
                }
            },
            EffectKind::Curves { master, red, green, blue } => {
                if master.is_empty() && red.is_empty() && green.is_empty() && blue.is_empty() {
                    return None;
                }
                Some(
                    FilterStep::Curves {
                        master: master.clone(),
                        r: red.clone(),
                        g: green.clone(),
                        b: blue.clone(),
                    },
                )
            },
            EffectKind::Hsl { hue_shift, saturation, lightness } => {
                if hue_shift.is_const() && saturation.is_const() && lightness.is_const() {
                    if hue_shift.is_fixed_at(values::ZERO) && saturation.is_fixed_at(values::ONE)
                        && lightness.is_fixed_at(values::ZERO) {
                        return None;
                    }
                    Some(
                        FilterStep::Hsl {
                            hue: narrow(hue_shift),
                            saturation: narrow(saturation),
                            lightness: narrow(lightness),
                        },
                    )
                } else {
                    Some(
                        FilterStep::HslAnimated {
                            hue: hue_shift.to_animated(),
                            saturation: saturation.to_animated(),
                            lightness: lightness.to_animated(),
                        },
                    )
                }
            },
            EffectKind::Lut { path } => {
                if path.as_str().unicode_len() == 0 {
                    return None;
                }
                Some(FilterStep::Lut3d { path: path.clone() })
            },
            EffectKind::ChromaKey { key_color, similarity, softness } => {
                if similarity.is_fixed_at(values::ZERO) {
                    return None;
                }
                if similarity.is_const() && softness.is_const() {
                    Some(
                        FilterStep::ChromaKey {
                            color: rgb_to_ffmpeg_hex(*key_color),
                            similarity: narrow(similarity),
                            blend: narrow(softness),
                        },
                    )
                } else {
                    Some(
                        FilterStep::ChromaKeyAnimated {
                            color: rgb_to_ffmpeg_hex(*key_color),
                            similarity: similarity.to_animated(),
                            blend: softness.to_animated(),
                        },
                    )
                }
            },
            EffectKind::LumaMask { invert } => Some(FilterStep::LumaMask { invert: *invert }),
            EffectKind::ShapeMask { x, y, width, height, invert } => {
                if x.is_const() && y.is_const() && width.is_const() && height.is_const() {
                    let (w, h): (u32, u32) = (param_to_u32(width), param_to_u32(height));
                    if w == 0 || h == 0 {
                        return None;
                    }
                    Some(
                        FilterStep::RectMask {
                            x: param_to_u32(x),
                            y: param_to_u32(y),
                            width: w,
                            height: h,
                            invert: *invert,
                        },
                    )
                } else if width.is_fixed_at(values::ZERO) || height.is_fixed_at(
                    values::ZERO,
                ) {
                    None
                } else {
                    Some(
                        FilterStep::RectMaskAnimated {
                            x: x.to_animated(),
                            y: y.to_animated(),
                            width: width.to_animated(),
                            height: height.to_animated(),
                            invert: *invert,
                        },
                    )
                }
            },
            EffectKind::MotionBlur { shutter_angle, sub_frames } => {
                let angle = value_at_start(shutter_angle, start).to_single();
                if angle.at_most(F32 { bits: values::S_ZERO }) {
                    return None;
                }
                Some(
                    FilterStep::MotionBlur {
                        shutter_angle_degrees: angle,
                        sub_frames: *sub_frames,
                    },
                )
            },
            EffectKind::Raw { step } => Some(step.clone()),
            EffectKind::AudioRaw { step } => Some(step.clone()),
            EffectKind::Volume { gain_db } => {
                let gain = value_at_start(gain_db, start);
                if gain.same(F64 { bits: values::ZERO }) {
                    return None;
                }
                Some(FilterStep::Volume { gain_db: gain })
            },
        }
    }
}

/// One effect in a clip's ordered list.
#[derive(Debug, PartialEq)]
pub struct ClipEffect {
    /// Identity within the document; unset until added.
    pub id: EffectId,
    /// Whether the effect takes part in rendering; one that does not keeps its place.
    pub enabled: bool,
    /// The effect and its parameters.
    pub kind: EffectKind,
}

impl ClipEffect {
    /// A new enabled effect with an unset id.
    #[must_use]
    pub fn new(kind: EffectKind) -> (r: ClipEffect)
        ensures
            r == (ClipEffect { id: EffectId(0), enabled: true, kind }),
    {
        ClipEffect { id: EffectId::unset(), enabled: true, kind }
    }
}

/// Whether every parameter of a kind is a constant.
pub open spec fn is_constant(kind: EffectKind) -> bool {
    match kind {
        EffectKind::ColorCorrect { brightness, contrast, saturation, temperature, tint } => {
            brightness is Const && contrast is Const && saturation is Const && temperature is Const
                && tint is Const
        },
        EffectKind::Blur { radius } => radius is Const,
        EffectKind::Sharpen { amount } => amount is Const,
        EffectKind::Vignette { amount } => amount is Const,
        EffectKind::FilmGrain { luma_strength, chroma_strength } => luma_strength is Const
            && chroma_strength is Const,
        EffectKind::Glow { threshold, radius, intensity } => threshold is Const && radius is Const
            && intensity is Const,
        EffectKind::ColorWheels { shadows_lift, midtones_gamma, highlights_gain } => {
            shadows_lift.all_const() && midtones_gamma.all_const() && highlights_gain.all_const()
        },
        EffectKind::Hsl { hue_shift, saturation, lightness } => hue_shift is Const && saturation
            is Const && lightness is Const,
        EffectKind::ChromaKey { similarity, softness, .. } => similarity is Const && softness
            is Const,
        EffectKind::ShapeMask { x, y, width, height, .. } => x is Const && y is Const && width
            is Const && height is Const,
        EffectKind::MotionBlur { shutter_angle, .. } => shutter_angle is Const,
        EffectKind::Volume { gain_db } => gain_db is Const,
        EffectKind::Curves { .. } => true,
        EffectKind::Lut { .. } => true,
        EffectKind::LumaMask { .. } => true,
        EffectKind::Raw { .. } => false,
        EffectKind::AudioRaw { .. } => false,
    }
}

/// Whether a step of a typed effect changes over time.
pub open spec fn changes_over_time(step: FilterStep<AnimatedValue>) -> bool {
    match step {
        FilterStep::EqAnimated { .. } => true,
        FilterStep::GBlurAnimated { .. } => true,
        FilterStep::UnsharpAnimated { .. } => true,
        FilterStep::VignetteAnimated { amount, .. } => amount is Track,
        FilterStep::FilmGrainAnimated { .. } => true,
        FilterStep::GlowAnimated { .. } => true,
        FilterStep::ThreeWayCCAnimated { .. } => true,
        FilterStep::HslAnimated { .. } => true,
        FilterStep::ChromaKeyAnimated { .. } => true,
        FilterStep::RectMaskAnimated { .. } => true,
        _ => false,
    }
}

/// A typed effect compiles to a step that changes over time just where one of its parameters is
/// animated; a motion blur and a gain, which are read at time zero, never do.
pub proof fn animation_follows_the_parameters(
    kind: EffectKind,
    start: F64,
    step: FilterStep<AnimatedValue>,
)
    requires
        compiles_to(kind, start, Some(step)),
        !(kind is Raw) && !(kind is AudioRaw),
    ensures
        changes_over_time(step) == (!is_constant(kind) && !(kind is MotionBlur) && !(
        kind is Volume)),
{
}

/// Whether a constant alone makes an effect do nothing, whatever its other parameters: a key
/// that matches no colour, or a mask without a width or a height.
pub open spec fn does_nothing(kind: EffectKind) -> bool {
    match kind {
        EffectKind::ChromaKey { similarity, .. } => similarity.fixed_at(values::ZERO),
        EffectKind::ShapeMask { width, height, .. } => width.fixed_at(values::ZERO)
            || height.fixed_at(values::ZERO),
        _ => false,
    }
}

/// An animated typed effect compiles to nothing only where a constant makes it do nothing, or
/// where it is a motion blur or a gain that is neutral at time zero: no keyframe is lost because
/// an effect happens to look neutral.
pub proof fn animated_effects_are_kept(kind: EffectKind, start: F64)
    requires
        !is_constant(kind),
        !(kind is MotionBlur) && !(kind is Volume),
    ensures
        compiles_to(kind, start, None) == does_nothing(kind),
{
}

/// Only an effect that names a track reads the value at time zero.
pub proof fn start_is_read_where_named(
    kind: EffectKind,
    a: F64,
    b: F64,
    step: Option<FilterStep<AnimatedValue>>,
)
    requires
        start_track_of(kind) is None,
    ensures
        compiles_to(kind, a, step) == compiles_to(kind, b, step),
{
}

/// Whether every parameter of a kind is at the default that is read where none is stored. A
/// verbatim step has no default.
pub open spec fn at_defaults(kind: EffectKind) -> bool {
    let zero = Param::Const(F64 { bits: values::ZERO });
    let one = Param::Const(F64 { bits: values::ONE });
    match kind {
        EffectKind::ColorCorrect { brightness, contrast, saturation, temperature, tint } => {
            brightness == zero && contrast == one && saturation == one && temperature == zero
                && tint == zero
        },
        EffectKind::Blur { radius } => radius == zero,
        EffectKind::Sharpen { amount } => amount == zero,
        EffectKind::Vignette { amount } => amount == zero,
        EffectKind::FilmGrain { luma_strength, chroma_strength } => {
            luma_strength == zero && chroma_strength == zero
        },
        EffectKind::Glow { threshold, radius, intensity } => {
            &&& threshold == Param::Const(F64 { bits: values::EIGHT_TENTHS })
            &&& radius == Param::Const(F64 { bits: values::FOUR })
            &&& intensity == zero
        },
        EffectKind::ColorWheels { shadows_lift, midtones_gamma, highlights_gain } => {
            &&& shadows_lift == default_channels(values::ZERO)
            &&& midtones_gamma == default_channels(values::ONE)
            &&& highlights_gain == default_channels(values::ONE)
        },
        EffectKind::Curves { master, red, green, blue } => {
            master.identity() && red.identity() && green.identity() && blue.identity()
        },
        EffectKind::Hsl { hue_shift, saturation, lightness } => {
            hue_shift == zero && saturation == one && lightness == zero
        },
        EffectKind::Lut { path } => path@.len() == 0,
        EffectKind::ChromaKey { key_color, similarity, softness } => {
            key_color == default_key() && similarity == zero && softness == zero
        },
        EffectKind::LumaMask { invert } => !invert,
        EffectKind::ShapeMask { x, y, width, height, invert } => {
            x == zero && y == zero && width == zero && height == zero && !invert
        },
        EffectKind::MotionBlur { shutter_angle, sub_frames } => {
            shutter_angle == zero && sub_frames == 8
        },
        EffectKind::Volume { gain_db } => gain_db == zero,
        EffectKind::Raw { .. } => false,
        EffectKind::AudioRaw { .. } => false,
    }
}

/// Whether a described parameter is at its own default; a path and a curve have the empty one,
/// a colour the key's.
pub open spec fn shows_default(value: ParamValue) -> bool {
    match value {
        ParamValue::Scalar { low, high, default, current } => current == Some(default),
        ParamValue::Bool { default, current } => current == default,
        ParamValue::Int { low, high, default, current } => current == default,
        ParamValue::Color { current } => current == default_key(),
        ParamValue::Path { current } => current@.len() == 0,
        ParamValue::Points { current } => current.identity(),
    }
}

/// What is read for a parameter that is not stored is what the kind describes as its default,
/// so that a host's reset and a document without the field agree.
pub proof fn stored_defaults_are_described(kind: EffectKind, i: int)
    requires
        at_defaults(kind),
        0 <= i < kind_params(kind).len(),
    ensures
        shows_default(kind_params(kind)[i].value),
{
}

/// A kind that leaves frames and samples alone at its defaults compiles to nothing there, so
/// that its output is that of no effect at all, bit for bit.
pub proof fn neutral_effects_cost_nothing(kind: EffectKind, start: F64)
    requires
        at_defaults(kind),
        !(kind is Blur) && !(kind is Sharpen) && !(kind is Vignette) && !(kind is FilmGrain),
        !(kind is Glow) && !(kind is LumaMask),
    ensures
        compiles_to(kind, start, None),
{
    double::zero_is_kept(0xFFFF_FFFF);
}

} // verus!

//! What a host is told of an effect.
//!
//! An effect's parameters are described in a stable order, each under its own name, with its own
//! range and default and its own current value.

use vstd::prelude::*;

use crate::effect;
use crate::effect::{EffectKind, Param, ParamDescriptor, ParamValue};
use crate::filter::{Channels, Curve, Rgb};
use crate::float::accuracy;
use crate::float::double::F64;

verus! {

/// The value of a parameter that is not keyframed.
pub open spec fn at_rest(p: Param) -> Option<F64> {
    match p {
        Param::Const(v) => Some(v),
        Param::Animated(_) => None,
    }
}

/// Whether `x` is the number `n / d`, to one part in `2^52`.
pub open spec fn is_number(x: F64, n: int, d: int) -> bool {
    let exact = n * accuracy::unit();
    x.finite() && accuracy::P52 * accuracy::gap(d * x.units(), exact) <= (if exact < 0 {
        -exact
    } else {
        exact
    })
}

/// Whether a parameter is described as a number under a name, from `low` to `high` tenths, with
/// `default` tenths as its default, and with its own value; a range without an end has no `high`.
pub open spec fn describes(
    d: ParamDescriptor,
    name: Seq<char>,
    low: int,
    high: Option<int>,
    default: int,
    p: Param,
) -> bool {
    &&& d.name@ == name
    &&& d.value matches ParamValue::Scalar { low: l, high: h, default: e, current } && {
        &&& is_number(l, low, 10)
        &&& high matches Some(most) ==> is_number(h, most, 10)
        &&& high is None ==> h.infinite() && !h.negative()
        &&& is_number(e, default, 10)
        &&& current == at_rest(p)
    }
}

/// A colour correction is described by its five numbers.
pub proof fn corrections_are_described(
    brightness: Param,
    contrast: Param,
    saturation: Param,
    temperature: Param,
    tint: Param,
)
    ensures
        ({
            let d = effect::kind_params(
                EffectKind::ColorCorrect { brightness, contrast, saturation, temperature, tint },
            );
            &&& d.len() == 5
            &&& describes(d[0], "brightness"@, -10, Some(10), 0, brightness)
            &&& describes(d[1], "contrast"@, 0, Some(30), 10, contrast)
            &&& describes(d[2], "saturation"@, 0, Some(30), 10, saturation)
            &&& describes(d[3], "temperature"@, -10, Some(10), 0, temperature)
            &&& describes(d[4], "tint"@, -10, Some(10), 0, tint)
        }),
{
    accuracy::doubles_are_their_numbers();
    accuracy::lemma_powers();
}

/// A blur is described by its radius.
pub proof fn blurs_are_described(radius: Param)
    ensures
        ({
            let d = effect::kind_params(EffectKind::Blur { radius });
            &&& d.len() == 1
            &&& describes(d[0], "radius"@, 0, None, 0, radius)
        }),
{
    accuracy::doubles_are_their_numbers();
    accuracy::lemma_powers();
}

/// A sharpening is described by its amount.
pub proof fn sharpenings_are_described(amount: Param)
    ensures
        ({
            let d = effect::kind_params(EffectKind::Sharpen { amount });
            &&& d.len() == 1
            &&& describes(d[0], "amount"@, -15, Some(15), 0, amount)
        }),
{
    accuracy::doubles_are_their_numbers();
    accuracy::lemma_powers();
}

/// A vignette is described by its amount.
pub proof fn vignettes_are_described(amount: Param)
    ensures
        ({
            let d = effect::kind_params(EffectKind::Vignette { amount });
            &&& d.len() == 1
            &&& describes(d[0], "amount"@, 0, Some(10), 0, amount)
        }),
{
    accuracy::doubles_are_their_numbers();
    accuracy::lemma_powers();
}

/// Film grain is described by its two strengths.
pub proof fn grain_is_described(luma_strength: Param, chroma_strength: Param)
    ensures
        ({
            let d = effect::kind_params(EffectKind::FilmGrain { luma_strength, chroma_strength });
            &&& d.len() == 2
            &&& describes(d[0], "luma_strength"@, 0, Some(1000), 0, luma_strength)
            &&& describes(d[1], "chroma_strength"@, 0, Some(1000), 0, chroma_strength)
        }),
{
    accuracy::doubles_are_their_numbers();
    accuracy::lemma_powers();
}

/// A glow is described by its threshold, its radius and its intensity.
pub proof fn glows_are_described(threshold: Param, radius: Param, intensity: Param)
    ensures
        ({
            let d = effect::kind_params(EffectKind::Glow { threshold, radius, intensity });
            &&& d.len() == 3
            &&& describes(d[0], "threshold"@, 0, Some(10), 8, threshold)
            &&& describes(d[1], "radius"@, 5, Some(500), 40, radius)
            &&& describes(d[2], "intensity"@, 0, Some(20), 0, intensity)
        }),
{
    accuracy::doubles_are_their_numbers();
    accuracy::lemma_powers();
}

/// Colour wheels are described by the three channels of each, lift, gamma and gain.
pub proof fn wheels_are_described(
    shadows_lift: Channels<Param>,
    midtones_gamma: Channels<Param>,
    highlights_gain: Channels<Param>,
)
    ensures
        ({
            let d = effect::kind_params(
                EffectKind::ColorWheels { shadows_lift, midtones_gamma, highlights_gain },
            );
            &&& d.len() == 9
            &&& describes(d[0], "shadows_lift.r"@, -10, Some(10), 0, shadows_lift.r)
            &&& describes(d[1], "shadows_lift.g"@, -10, Some(10), 0, shadows_lift.g)
            &&& describes(d[2], "shadows_lift.b"@, -10, Some(10), 0, shadows_lift.b)
            &&& describes(d[3], "midtones_gamma.r"@, 1, Some(100), 10, midtones_gamma.r)
            &&& describes(d[4], "midtones_gamma.g"@, 1, Some(100), 10, midtones_gamma.g)
            &&& describes(d[5], "midtones_gamma.b"@, 1, Some(100), 10, midtones_gamma.b)
            &&& describes(d[6], "highlights_gain.r"@, 0, Some(40), 10, highlights_gain.r)
            &&& describes(d[7], "highlights_gain.g"@, 0, Some(40), 10, highlights_gain.g)
            &&& describes(d[8], "highlights_gain.b"@, 0, Some(40), 10, highlights_gain.b)
        }),
{
    accuracy::doubles_are_their_numbers();
    accuracy::lemma_powers();
}

/// Curves are described by their points, the master one first.
pub proof fn curves_are_described(
    master: Curve,
    red: Curve,
    green: Curve,
    blue: Curve,
)
    ensures
        ({
            let d = effect::kind_params(EffectKind::Curves { master, red, green, blue });
            &&& d.len() == 4
            &&& d[0].name@ == "master"@ && d[0].value == (ParamValue::Points { current: master })
            &&& d[1].name@ == "red"@ && d[1].value == (ParamValue::Points { current: red })
            &&& d[2].name@ == "green"@ && d[2].value == (ParamValue::Points { current: green })
            &&& d[3].name@ == "blue"@ && d[3].value == (ParamValue::Points { current: blue })
        }),
{
}

/// Hue, saturation and lightness are described each by its number.
pub proof fn tones_are_described(hue_shift: Param, saturation: Param, lightness: Param)
    ensures
        ({
            let d = effect::kind_params(EffectKind::Hsl { hue_shift, saturation, lightness });
            &&& d.len() == 3
            &&& describes(d[0], "hue_shift"@, -1800, Some(1800), 0, hue_shift)
            &&& describes(d[1], "saturation"@, 0, Some(20), 10, saturation)
            &&& describes(d[2], "lightness"@, -10, Some(10), 0, lightness)
        }),
{
    accuracy::doubles_are_their_numbers();
    accuracy::lemma_powers();
}

/// A colour table is described by its path.
pub proof fn tables_are_described(path: String)
    ensures
        ({
            let d = effect::kind_params(EffectKind::Lut { path });
            &&& d.len() == 1
            &&& d[0].name@ == "path"@ && d[0].value == (ParamValue::Path { current: path })
        }),
{
}

/// A chroma key is described by its colour, its similarity and its softness.
pub proof fn keys_are_described(key_color: Rgb, similarity: Param, softness: Param)
    ensures
        ({
            let d = effect::kind_params(EffectKind::ChromaKey { key_color, similarity, softness });
            &&& d.len() == 3
            &&& d[0].name@ == "key_color"@ && d[0].value == (ParamValue::Color {
                current: key_color,
            })
            &&& describes(d[1], "similarity"@, 0, Some(10), 0, similarity)
            &&& describes(d[2], "softness"@, 0, Some(10), 0, softness)
        }),
{
    accuracy::doubles_are_their_numbers();
    accuracy::lemma_powers();
}

/// A luma mask is described by its side.
pub proof fn luma_masks_are_described(invert: bool)
    ensures
        ({
            let d = effect::kind_params(EffectKind::LumaMask { invert });
            &&& d.len() == 1
            &&& d[0].name@ == "invert"@ && d[0].value == (ParamValue::Bool {
                default: false,
                current: invert,
            })
        }),
{
}

/// A rectangular mask is described by its left and top edge, its width and height, and its side.
pub proof fn shape_masks_are_described(
    x: Param,
    y: Param,
    width: Param,
    height: Param,
    invert: bool,
)
    ensures
        ({
            let d = effect::kind_params(EffectKind::ShapeMask { x, y, width, height, invert });
            &&& d.len() == 5
            &&& describes(d[0], "x"@, 0, None, 0, x)
            &&& describes(d[1], "y"@, 0, None, 0, y)
            &&& describes(d[2], "width"@, 0, None, 0, width)
            &&& describes(d[3], "height"@, 0, None, 0, height)
            &&& d[4].name@ == "invert"@ && d[4].value == (ParamValue::Bool {
                default: false,
                current: invert,
            })
        }),
{
    accuracy::doubles_are_their_numbers();
    accuracy::lemma_powers();
}

/// A motion blur is described by its shutter and its trail.
pub proof fn motion_blurs_are_described(shutter_angle: Param, sub_frames: u8)
    ensures
        ({
            let d = effect::kind_params(EffectKind::MotionBlur { shutter_angle, sub_frames });
            &&& d.len() == 2
            &&& describes(d[0], "shutter_angle"@, 0, Some(3600), 0, shutter_angle)
            &&& d[1].name@ == "sub_frames"@ && d[1].value == (ParamValue::Int {
                low: 2,
                high: 8,
                default: 8,
                current: sub_frames as i64,
            })
        }),
{
    accuracy::doubles_are_their_numbers();
    accuracy::lemma_powers();
}

/// A volume is described by its gain.
pub proof fn volumes_are_described(gain_db: Param)
    ensures
        ({
            let d = effect::kind_params(EffectKind::Volume { gain_db });
            &&& d.len() == 1
            &&& describes(d[0], "gain_db"@, -600, Some(300), 0, gain_db)
        }),
{
    accuracy::doubles_are_their_numbers();
    accuracy::lemma_powers();
}

} // verus!

use avio::effect::{
    glow_radius_default, glow_threshold_default, key_color_default, param3_one, param3_zero,
    param_one, param_to_u32, param_zero, rgb_to_ffmpeg_hex, sub_frames_default, ClipEffect,
    EffectDomain, EffectKind, Param, ParamValue,
};
use avio::filter::{
    AnimatedValue, AnimationTrack, Channels, Curve, CurvePoint, Easing, FilterStep, Keyframe, Rgb,
};
use avio::float::double::F64;
use avio::float::single::F32;
use avio::ids::EffectId;
use avio::time::Duration;

fn double(v: f64) -> F64 {
    F64::from_bits(v.to_bits())
}

fn single(v: f32) -> F32 {
    F32::from_bits(v.to_bits())
}

trait Number {
    fn num(&self) -> f64;
}

impl Number for F64 {
    fn num(&self) -> f64 {
        f64::from_bits(self.to_bits())
    }
}

impl Number for F32 {
    fn num(&self) -> f64 {
        f64::from(f32::from_bits(self.to_bits()))
    }
}

fn konst(v: f64) -> Param {
    Param::Const(double(v))
}

fn key(at: Duration, value: f64) -> Keyframe {
    Keyframe { timestamp: at, value: double(value), easing: Easing::Linear }
}

fn wheel(r: Param, g: Param, b: Param) -> Channels<Param> {
    Channels { r, g, b }
}

fn green() -> Rgb {
    Rgb { r: single(0.0), g: single(1.0), b: single(0.0) }
}

fn curve(points: &[(f32, f32)]) -> Curve {
    Curve::new(
        points.iter().map(|p| CurvePoint { input: single(p.0), output: single(p.1) }).collect(),
    )
}

fn hflip() -> FilterStep<AnimatedValue> {
    FilterStep::Other { spelling: "hflip".to_string() }
}

/// The first keyframe's value.
fn at_zero(v: &AnimatedValue) -> F64 {
    match v {
        AnimatedValue::Static(x) => *x,
        AnimatedValue::Track(t) => t.keyframes[0].value,
    }
}

/// The value at time zero of the track that an effect reads there.
fn start_of(kind: &EffectKind) -> F64 {
    match kind.start_track() {
        Some(t) => at_zero(&AnimatedValue::Track(t)),
        None => double(0.0),
    }
}

fn animated_track() -> AnimationTrack {
    AnimationTrack::new(vec![key(Duration::zero(), 0.5)])
}

#[test]
fn domain_should_classify_video_and_audio_kinds() {
    let video = EffectKind::Blur {
        radius: konst(2.0),
    };
    assert_eq!(video.domain(), EffectDomain::Video);
    assert_eq!(
        EffectKind::Raw {
            step: hflip()
        }
        .domain(),
        EffectDomain::Video
    );
    let audio = EffectKind::Volume {
        gain_db: konst(-6.0),
    };
    assert_eq!(audio.domain(), EffectDomain::Audio);
    assert_eq!(
        EffectKind::AudioRaw {
            step: FilterStep::Volume { gain_db: double(-3.0) }
        }
        .domain(),
        EffectDomain::Audio
    );
}

#[test]
fn volume_should_compile_to_volume_step() {
    let kind = EffectKind::Volume {
        gain_db: konst(-6.0),
    };
    match kind.to_filter_step(double(0.0)).unwrap() {
        FilterStep::Volume { gain_db: db } => assert!((db.num() - (-6.0)).abs() < 1e-6),
        other => panic!("expected Volume, got {other:?}"),
    }
}

#[test]
fn volume_neutral_should_compile_to_nothing() {
    let kind = EffectKind::Volume {
        gain_db: konst(0.0),
    };
    assert!(
        kind.to_filter_step(double(0.0)).is_none(),
        "0 dB is no change, so it is a no-op"
    );
}

#[test]
fn audio_raw_should_compile_to_its_filter_step() {
    let kind = EffectKind::AudioRaw {
        step: FilterStep::Volume { gain_db: double(-3.0) },
    };
    assert!(matches!(
        kind.to_filter_step(double(0.0)).unwrap(),
        FilterStep::Volume { .. }
    ));
}

#[test]
fn descriptor_should_list_volume_param() {
    let kind = EffectKind::Volume {
        gain_db: konst(-6.0),
    };
    let d = kind.descriptor();
    assert_eq!(d.name, "volume");
    assert_eq!(d.params.len(), 1);
    assert_eq!(d.params[0].name, "gain_db");
    assert_eq!(
        d.params[0].value,
        ParamValue::Scalar {
            low: double(-60.0),
            high: double(30.0),
            default: double(0.0),
            current: Some(double(-6.0)),
        }
    );
    let raw = EffectKind::AudioRaw {
        step: FilterStep::Volume { gain_db: double(-3.0) },
    };
    assert_eq!(raw.descriptor().name, "audio_raw");
    assert!(raw.descriptor().params.is_empty());
}

#[test]
fn raw_should_compile_to_its_filter_step() {
    let kind = EffectKind::Raw {
        step: FilterStep::Hue { degrees: single(30.0) },
    };
    match kind.to_filter_step(double(0.0)).unwrap() {
        FilterStep::Hue { degrees } => assert!((degrees.num() - 30.0).abs() < 1e-6),
        other => panic!("expected Hue, got {other:?}"),
    }
}

#[test]
fn descriptor_should_describe_raw_as_opaque() {
    let kind = EffectKind::Raw {
        step: hflip(),
    };
    let d = kind.descriptor();
    assert_eq!(d.name, "raw");
    assert!(
        d.params.is_empty(),
        "a raw step exposes no typed parameters"
    );
}

#[test]
fn descriptor_should_list_color_correct_params() {
    let kind = EffectKind::ColorCorrect {
        brightness: konst(0.2),
        contrast: konst(1.1),
        saturation: konst(0.9),
        temperature: konst(-0.3),
        tint: konst(0.4),
    };
    let d = kind.descriptor();
    assert_eq!(d.name, "color_correct");
    let names: Vec<&str> = d.params.iter().map(|p| p.name).collect();
    assert_eq!(
        names,
        [
            "brightness",
            "contrast",
            "saturation",
            "temperature",
            "tint"
        ]
    );
    assert_eq!(
        d.params[0].value,
        ParamValue::Scalar {
            low: double(-1.0),
            high: double(1.0),
            default: double(0.0),
            current: Some(double(0.2)),
        }
    );
    assert_eq!(
        d.params[1].value,
        ParamValue::Scalar {
            low: double(0.0),
            high: double(3.0),
            default: double(1.0),
            current: Some(double(1.1)),
        }
    );
    assert_eq!(
        d.params[3].value,
        ParamValue::Scalar {
            low: double(-1.0),
            high: double(1.0),
            default: double(0.0),
            current: Some(double(-0.3)),
        }
    );
}

#[test]
fn descriptor_should_report_animated_scalar_as_none() {
    let kind = EffectKind::ColorCorrect {
        brightness: Param::Animated(animated_track()),
        contrast: konst(1.0),
        saturation: konst(1.0),
        temperature: konst(0.0),
        tint: konst(0.0),
    };
    let d = kind.descriptor();
    match &d.params[0].value {
        ParamValue::Scalar { current, .. } => assert_eq!(*current, None),
        other => panic!("expected a Scalar, got {other:?}"),
    }
}

#[test]
fn descriptor_should_cover_structural_param_kinds() {
    let mb = EffectKind::MotionBlur {
        shutter_angle: konst(180.0),
        sub_frames: 6,
    };
    assert_eq!(
        mb.descriptor().params[1].value,
        ParamValue::Int {
            low: 2,
            high: 8,
            default: 8,
            current: 6,
        }
    );
    let lm = EffectKind::LumaMask { invert: true };
    assert_eq!(
        lm.descriptor().params[0].value,
        ParamValue::Bool {
            default: false,
            current: true,
        }
    );
    let ck = EffectKind::ChromaKey {
        key_color: green(),
        similarity: konst(0.1),
        softness: konst(0.0),
    };
    assert_eq!(
        ck.descriptor().params[0].value,
        ParamValue::Color {
            current: green(),
        }
    );
    let lut = EffectKind::Lut {
        path: "look.cube".to_string(),
    };
    assert_eq!(
        lut.descriptor().params[0].value,
        ParamValue::Path {
            current: "look.cube".to_string(),
        }
    );
    let curves = EffectKind::Curves {
        master: curve(&[(0.0, 0.0), (1.0, 1.0)]),
        red: curve(&[]),
        green: curve(&[]),
        blue: curve(&[]),
    };
    assert_eq!(
        curves.descriptor().params[0].value,
        ParamValue::Points {
            current: curve(&[(0.0, 0.0), (1.0, 1.0)]),
        }
    );
}

#[test]
fn descriptor_should_flatten_color_wheels_channels() {
    let kind = EffectKind::ColorWheels {
        shadows_lift: wheel(konst(0.1), konst(0.2), konst(0.3)),
        midtones_gamma: wheel(konst(1.0), konst(1.0), konst(1.0)),
        highlights_gain: wheel(konst(1.0), konst(1.0), konst(1.0)),
    };
    let d = kind.descriptor();
    assert_eq!(d.name, "color_wheels");
    let names: Vec<&str> = d.params.iter().map(|p| p.name).collect();
    assert_eq!(
        names,
        [
            "shadows_lift.r",
            "shadows_lift.g",
            "shadows_lift.b",
            "midtones_gamma.r",
            "midtones_gamma.g",
            "midtones_gamma.b",
            "highlights_gain.r",
            "highlights_gain.g",
            "highlights_gain.b",
        ]
    );
    assert_eq!(
        d.params[2].value,
        ParamValue::Scalar {
            low: double(-1.0),
            high: double(1.0),
            default: double(0.0),
            current: Some(double(0.3)),
        }
    );
}

#[test]
fn color_correct_neutral_const_should_compile_to_nothing() {
    let kind = EffectKind::ColorCorrect {
        brightness: konst(0.0),
        contrast: konst(1.0),
        saturation: konst(1.0),
        temperature: konst(0.0),
        tint: konst(0.0),
    };
    assert!(
        kind.to_filter_step(double(0.0)).is_none(),
        "a neutral, all-constant ColorCorrect is a no-op (bit-identical to no eq)"
    );
}

#[test]
fn color_correct_non_neutral_const_should_compile_to_eq() {
    let kind = EffectKind::ColorCorrect {
        brightness: konst(0.5),
        contrast: konst(1.2),
        saturation: konst(0.8),
        temperature: konst(0.3),
        tint: konst(-0.4),
    };
    let step = kind.to_filter_step(double(0.0)).unwrap();
    match step {
        FilterStep::Eq {
            brightness,
            contrast,
            saturation,
            temperature,
            tint,
        } => {
            assert!((brightness.num() - 0.5).abs() < 1e-6);
            assert!((contrast.num() - 1.2).abs() < 1e-6);
            assert!((saturation.num() - 0.8).abs() < 1e-6);
            assert!((temperature.num() - 0.3).abs() < 1e-6);
            assert!((tint.num() - (-0.4)).abs() < 1e-6);
        }
        other => panic!("expected Eq, got {other:?}"),
    }
}

#[test]
fn color_correct_temperature_only_should_compile_to_eq() {
    let kind = EffectKind::ColorCorrect {
        brightness: konst(0.0),
        contrast: konst(1.0),
        saturation: konst(1.0),
        temperature: konst(0.6),
        tint: konst(0.0),
    };
    match kind.to_filter_step(double(0.0)).unwrap() {
        FilterStep::Eq {
            temperature, tint, ..
        } => {
            assert!((temperature.num() - 0.6).abs() < 1e-6);
            assert!(tint.num().abs() < 1e-6);
        }
        other => panic!("expected Eq, got {other:?}"),
    }
}

#[test]
fn color_correct_animated_should_compile_to_eq_animated() {
    let kind = EffectKind::ColorCorrect {
        brightness: Param::Animated(animated_track()),
        contrast: konst(1.0),
        saturation: konst(1.0),
        temperature: konst(0.0),
        tint: konst(0.0),
    };
    assert!(matches!(
        kind.to_filter_step(double(0.0)),
        Some(FilterStep::EqAnimated { .. })
    ));
}

#[test]
fn color_correct_animated_temperature_should_compile_to_eq_animated() {
    let kind = EffectKind::ColorCorrect {
        brightness: konst(0.0),
        contrast: konst(1.0),
        saturation: konst(1.0),
        temperature: Param::Animated(animated_track()),
        tint: konst(0.0),
    };
    assert!(matches!(
        kind.to_filter_step(double(0.0)),
        Some(FilterStep::EqAnimated { .. })
    ));
}

#[test]
fn blur_const_should_compile_to_gblur() {
    let kind = EffectKind::Blur {
        radius: konst(4.0),
    };
    match kind.to_filter_step(double(0.0)).unwrap() {
        FilterStep::GBlur { sigma } => assert!((sigma.num() - 4.0).abs() < 1e-6),
        other => panic!("expected GBlur, got {other:?}"),
    }
}

#[test]
fn blur_animated_should_compile_to_gblur_animated() {
    let kind = EffectKind::Blur {
        radius: Param::Animated(animated_track()),
    };
    assert!(matches!(
        kind.to_filter_step(double(0.0)),
        Some(FilterStep::GBlurAnimated { .. })
    ));
}

#[test]
fn sharpen_const_should_compile_to_unsharp_with_neutral_chroma() {
    let kind = EffectKind::Sharpen {
        amount: konst(1.0),
    };
    match kind.to_filter_step(double(0.0)).unwrap() {
        FilterStep::Unsharp {
            luma_strength,
            chroma_strength,
        } => {
            assert!((luma_strength.num() - 1.0).abs() < 1e-6);
            assert!((chroma_strength.num() - 0.0).abs() < 1e-6, "chroma stays neutral");
        }
        other => panic!("expected Unsharp, got {other:?}"),
    }
}

#[test]
fn sharpen_animated_should_compile_to_unsharp_animated() {
    let kind = EffectKind::Sharpen {
        amount: Param::Animated(animated_track()),
    };
    assert!(matches!(
        kind.to_filter_step(double(0.0)),
        Some(FilterStep::UnsharpAnimated { .. })
    ));
}

#[test]
fn vignette_const_should_compile_to_centred_vignette_animated() {
    let kind = EffectKind::Vignette {
        amount: konst(0.6),
    };
    match kind.to_filter_step(double(0.0)).unwrap() {
        FilterStep::VignetteAnimated { amount, x0, y0 } => {
            assert!((at_zero(&amount).num() - 0.6).abs() < 1e-6);
            assert!(
                (x0.num() - 0.0).abs() < 1e-6 && (y0.num() - 0.0).abs() < 1e-6,
                "centred"
            );
        }
        other => panic!("expected VignetteAnimated, got {other:?}"),
    }
}

#[test]
fn vignette_animated_should_compile_to_vignette_animated() {
    let kind = EffectKind::Vignette {
        amount: Param::Animated(animated_track()),
    };
    assert!(matches!(
        kind.to_filter_step(double(0.0)),
        Some(FilterStep::VignetteAnimated { .. })
    ));
}

#[test]
fn film_grain_const_should_compile_to_film_grain() {
    let kind = EffectKind::FilmGrain {
        luma_strength: konst(20.0),
        chroma_strength: konst(5.0),
    };
    match kind.to_filter_step(double(0.0)).unwrap() {
        FilterStep::FilmGrain {
            luma_strength,
            chroma_strength,
        } => {
            assert!((luma_strength.num() - 20.0).abs() < 1e-6);
            assert!((chroma_strength.num() - 5.0).abs() < 1e-6);
        }
        other => panic!("expected FilmGrain, got {other:?}"),
    }
}

#[test]
fn film_grain_any_animated_strength_should_compile_to_film_grain_animated() {
    let kind = EffectKind::FilmGrain {
        luma_strength: Param::Animated(animated_track()),
        chroma_strength: konst(5.0),
    };
    assert!(matches!(
        kind.to_filter_step(double(0.0)),
        Some(FilterStep::FilmGrainAnimated { .. })
    ));
}

#[test]
fn glow_const_should_compile_to_glow() {
    let kind = EffectKind::Glow {
        threshold: konst(0.8),
        radius: konst(10.0),
        intensity: konst(0.8),
    };
    match kind.to_filter_step(double(0.0)).unwrap() {
        FilterStep::Glow {
            threshold,
            radius,
            intensity,
        } => {
            assert!((threshold.num() - 0.8).abs() < 1e-6);
            assert!((radius.num() - 10.0).abs() < 1e-6);
            assert!((intensity.num() - 0.8).abs() < 1e-6);
        }
        other => panic!("expected Glow, got {other:?}"),
    }
}

#[test]
fn glow_any_animated_param_should_compile_to_glow_animated() {
    let kind = EffectKind::Glow {
        threshold: konst(0.8),
        radius: Param::Animated(animated_track()),
        intensity: konst(0.8),
    };
    assert!(matches!(
        kind.to_filter_step(double(0.0)),
        Some(FilterStep::GlowAnimated { .. })
    ));
}

fn cw(lift: f64, gamma: f64, gain: f64) -> EffectKind {
    EffectKind::ColorWheels {
        shadows_lift: wheel(konst(lift), konst(lift), konst(lift)),
        midtones_gamma: wheel(konst(gamma), konst(gamma), konst(gamma)),
        highlights_gain: wheel(konst(gain), konst(gain), konst(gain)),
    }
}

#[test]
fn color_wheels_neutral_should_compile_to_nothing() {
    assert!(
        cw(0.0, 1.0, 1.0).to_filter_step(double(0.0)).is_none(),
        "a neutral ColorWheels is a no-op"
    );
}

#[test]
fn color_wheels_const_should_offset_lift_by_one() {
    match cw(0.1, 1.0, 1.0).to_filter_step(double(0.0)).unwrap() {
        FilterStep::ThreeWayCC { lift, gamma, gain } => {
            assert!((lift.r.num() - 1.1).abs() < 1e-5, "lift = 1 + shadows_lift");
            assert!((gamma.r.num() - 1.0).abs() < 1e-6 && (gain.r.num() - 1.0).abs() < 1e-6);
        }
        other => panic!("expected ThreeWayCC, got {other:?}"),
    }
}

#[test]
fn color_wheels_any_animated_should_compile_to_three_way_cc_animated() {
    let kind = EffectKind::ColorWheels {
        shadows_lift: wheel(Param::Animated(animated_track()), konst(0.0), konst(0.0)),
        midtones_gamma: wheel(konst(1.0), konst(1.0), konst(1.0)),
        highlights_gain: wheel(konst(1.0), konst(1.0), konst(1.0)),
    };
    match kind.to_filter_step(double(0.0)).unwrap() {
        FilterStep::ThreeWayCCAnimated { lift, .. } => {
            assert!(
                at_zero(&lift.r).num() > 1.0,
                "the animated lift track is offset to the neutral-1.0 convention"
            );
        }
        other => panic!("expected ThreeWayCCAnimated, got {other:?}"),
    }
}

#[test]
fn curves_empty_should_compile_to_nothing() {
    let kind = EffectKind::Curves {
        master: curve(&[]),
        red: curve(&[]),
        green: curve(&[]),
        blue: curve(&[]),
    };
    assert!(
        kind.to_filter_step(double(0.0)).is_none(),
        "an all-empty Curves is the identity (no-op)"
    );
}

#[test]
fn curves_should_compile_to_curves_with_tuple_points() {
    let kind = EffectKind::Curves {
        master: curve(&[(0.0, 0.0), (0.5, 0.7), (1.0, 1.0)]),
        red: curve(&[]),
        green: curve(&[]),
        blue: curve(&[]),
    };
    match kind.to_filter_step(double(0.0)).unwrap() {
        FilterStep::Curves { master, r, .. } => {
            assert_eq!(master, curve(&[(0.0, 0.0), (0.5, 0.7), (1.0, 1.0)]));
            assert!(r.is_empty(), "an empty per-channel curve stays empty");
        }
        other => panic!("expected Curves, got {other:?}"),
    }
}

#[test]
fn hsl_neutral_should_compile_to_nothing() {
    let kind = EffectKind::Hsl {
        hue_shift: konst(0.0),
        saturation: konst(1.0),
        lightness: konst(0.0),
    };
    assert!(
        kind.to_filter_step(double(0.0)).is_none(),
        "a neutral HSL adjustment is a no-op"
    );
}

#[test]
fn hsl_const_should_compile_to_hsl() {
    let kind = EffectKind::Hsl {
        hue_shift: konst(20.0),
        saturation: konst(1.2),
        lightness: konst(0.05),
    };
    match kind.to_filter_step(double(0.0)).unwrap() {
        FilterStep::Hsl {
            hue,
            saturation,
            lightness,
        } => {
            assert!((hue.num() - 20.0).abs() < 1e-5);
            assert!((saturation.num() - 1.2).abs() < 1e-5);
            assert!((lightness.num() - 0.05).abs() < 1e-5);
        }
        other => panic!("expected Hsl, got {other:?}"),
    }
}

#[test]
fn hsl_any_animated_should_compile_to_hsl_animated() {
    let kind = EffectKind::Hsl {
        hue_shift: Param::Animated(animated_track()),
        saturation: konst(1.0),
        lightness: konst(0.0),
    };
    assert!(
        matches!(
            kind.to_filter_step(double(0.0)).unwrap(),
            FilterStep::HslAnimated { .. }
        ),
        "any animated parameter routes through HslAnimated"
    );
}

#[test]
fn lut_empty_path_should_compile_to_nothing() {
    let kind = EffectKind::Lut {
        path: String::new(),
    };
    assert!(
        kind.to_filter_step(double(0.0)).is_none(),
        "an empty LUT path is the identity (no-op)"
    );
}

#[test]
fn lut_should_compile_to_lut3d() {
    let kind = EffectKind::Lut {
        path: "grade.cube".to_string(),
    };
    match kind.to_filter_step(double(0.0)).unwrap() {
        FilterStep::Lut3d { path } => assert_eq!(path, "grade.cube"),
        other => panic!("expected Lut3d, got {other:?}"),
    }
}

#[test]
fn chroma_key_zero_similarity_should_compile_to_nothing() {
    let kind = EffectKind::ChromaKey {
        key_color: green(),
        similarity: konst(0.0),
        softness: konst(0.1),
    };
    assert!(
        kind.to_filter_step(double(0.0)).is_none(),
        "similarity 0 removes nothing, so it is a no-op"
    );
}

#[test]
fn chroma_key_const_should_compile_to_chroma_key_with_hex_colour() {
    let kind = EffectKind::ChromaKey {
        key_color: green(),
        similarity: konst(0.3),
        softness: konst(0.1),
    };
    match kind.to_filter_step(double(0.0)).unwrap() {
        FilterStep::ChromaKey {
            color,
            similarity,
            blend,
        } => {
            assert_eq!(color.text, "0x00FF00");
            assert!((similarity.num() - 0.3).abs() < 1e-5);
            assert!((blend.num() - 0.1).abs() < 1e-5);
        }
        other => panic!("expected ChromaKey, got {other:?}"),
    }
}

#[test]
fn chroma_key_any_animated_should_compile_to_chroma_key_animated() {
    let kind = EffectKind::ChromaKey {
        key_color: green(),
        similarity: Param::Animated(animated_track()),
        softness: konst(0.1),
    };
    assert!(
        matches!(
            kind.to_filter_step(double(0.0)).unwrap(),
            FilterStep::ChromaKeyAnimated { .. }
        ),
        "any animated parameter routes through ChromaKeyAnimated"
    );
}

#[test]
fn luma_mask_should_compile_to_luma_mask_filter_step() {
    for invert in [false, true] {
        let kind = EffectKind::LumaMask { invert };
        match kind.to_filter_step(double(0.0)) {
            Some(FilterStep::LumaMask { invert: got }) => assert_eq!(got, invert),
            other => panic!("expected LumaMask {{ invert: {invert} }}, got {other:?}"),
        }
    }
}

#[test]
fn shape_mask_const_should_compile_to_rect_mask_with_rounded_bounds() {
    let kind = EffectKind::ShapeMask {
        x: konst(10.4),
        y: konst(20.6),
        width: konst(30.0),
        height: konst(40.0),
        invert: true,
    };
    match kind.to_filter_step(double(0.0)).unwrap() {
        FilterStep::RectMask {
            x,
            y,
            width,
            height,
            invert,
        } => {
            assert_eq!((x, y, width, height), (10, 21, 30, 40));
            assert!(invert);
        }
        other => panic!("expected RectMask, got {other:?}"),
    }
}

#[test]
fn shape_mask_zero_size_should_compile_to_nothing() {
    let kind = EffectKind::ShapeMask {
        x: konst(0.0),
        y: konst(0.0),
        width: konst(0.0),
        height: konst(10.0),
        invert: false,
    };
    assert!(
        kind.to_filter_step(double(0.0)).is_none(),
        "a zero-width rectangle masks nothing, so it is a no-op"
    );
}

#[test]
fn shape_mask_any_animated_should_compile_to_rect_mask_animated() {
    let kind = EffectKind::ShapeMask {
        x: Param::Animated(animated_track()),
        y: konst(0.0),
        width: konst(30.0),
        height: konst(40.0),
        invert: false,
    };
    assert!(
        matches!(
            kind.to_filter_step(double(0.0)).unwrap(),
            FilterStep::RectMaskAnimated { .. }
        ),
        "any animated bound routes through RectMaskAnimated"
    );
}

#[test]
fn motion_blur_const_should_map_to_motion_blur_step() {
    let kind = EffectKind::MotionBlur {
        shutter_angle: konst(180.0),
        sub_frames: 4,
    };
    match kind.to_filter_step(double(0.0)).unwrap() {
        FilterStep::MotionBlur {
            shutter_angle_degrees,
            sub_frames,
        } => {
            assert!((shutter_angle_degrees.num() - 180.0).abs() < 1e-4);
            assert_eq!(sub_frames, 4);
        }
        other => panic!("expected MotionBlur, got {other:?}"),
    }
}

#[test]
fn motion_blur_non_positive_shutter_should_map_to_none() {
    for angle in [0.0, -10.0] {
        let kind = EffectKind::MotionBlur {
            shutter_angle: konst(angle),
            sub_frames: 4,
        };
        assert!(
            kind.to_filter_step(double(0.0)).is_none(),
            "a non-positive shutter angle ({angle}) is no blur, so it is a no-op"
        );
    }
}

#[test]
fn motion_blur_animated_shutter_should_render_t0_value() {
    let track = AnimationTrack::new(vec![
        key(Duration::zero(), 180.0),
        key(Duration::from_secs(1), 90.0),
    ]);
    let kind = EffectKind::MotionBlur {
        shutter_angle: Param::Animated(track),
        sub_frames: 6,
    };
    match kind.to_filter_step(start_of(&kind)).unwrap() {
        FilterStep::MotionBlur {
            shutter_angle_degrees,
            sub_frames,
        } => {
            assert!(
                (shutter_angle_degrees.num() - 180.0).abs() < 1e-4,
                "must use the t=0 shutter value (180), got {shutter_angle_degrees:?}"
            );
            assert_eq!(sub_frames, 6);
        }
        other => panic!("expected MotionBlur, got {other:?}"),
    }
}

#[test]
fn omitted_fields_should_take_the_described_default() {
    let kinds = vec![
        EffectKind::ColorCorrect {
            brightness: param_zero(),
            contrast: param_one(),
            saturation: param_one(),
            temperature: param_zero(),
            tint: param_zero(),
        },
        EffectKind::Blur { radius: param_zero() },
        EffectKind::Sharpen { amount: param_zero() },
        EffectKind::Vignette { amount: param_zero() },
        EffectKind::FilmGrain { luma_strength: param_zero(), chroma_strength: param_zero() },
        EffectKind::Glow {
            threshold: glow_threshold_default(),
            radius: glow_radius_default(),
            intensity: param_zero(),
        },
        EffectKind::ColorWheels {
            shadows_lift: param3_zero(),
            midtones_gamma: param3_one(),
            highlights_gain: param3_one(),
        },
        EffectKind::Hsl {
            hue_shift: param_zero(),
            saturation: param_one(),
            lightness: param_zero(),
        },
        EffectKind::ChromaKey {
            key_color: key_color_default(),
            similarity: param_zero(),
            softness: param_zero(),
        },
        EffectKind::LumaMask { invert: false },
        EffectKind::ShapeMask {
            x: param_zero(),
            y: param_zero(),
            width: param_zero(),
            height: param_zero(),
            invert: false,
        },
        EffectKind::MotionBlur {
            shutter_angle: param_zero(),
            sub_frames: sub_frames_default(),
        },
        EffectKind::Volume { gain_db: param_zero() },
    ];
    for kind in &kinds {
        for p in kind.descriptor().params {
            match p.value {
                ParamValue::Scalar { default, current, .. } => {
                    assert_eq!(current, Some(default), "{}", p.name);
                }
                ParamValue::Bool { default, current } => assert_eq!(current, default),
                ParamValue::Int { default, current, .. } => assert_eq!(current, default),
                ParamValue::Color { current } => assert_eq!(current, green()),
                ParamValue::Path { current } => assert!(current.is_empty()),
                ParamValue::Points { current } => assert!(current.is_empty()),
            }
        }
    }
}

#[test]
fn an_open_range_should_end_at_infinity() {
    let d = EffectKind::Blur { radius: konst(1.0) }.descriptor();
    match &d.params[0].value {
        ParamValue::Scalar { low, high, .. } => {
            assert_eq!(low.num(), 0.0);
            assert_eq!(high.num(), f64::INFINITY);
        }
        other => panic!("expected a Scalar, got {other:?}"),
    }
}

#[test]
fn param_should_know_its_constant() {
    let c = konst(2.5);
    assert!(c.is_const());
    assert_eq!(c.as_const(), Some(double(2.5)));
    assert_eq!(c.to_animated(), AnimatedValue::Static(double(2.5)));
    let a = Param::Animated(animated_track());
    assert!(!a.is_const());
    assert_eq!(a.as_const(), None);
    assert_eq!(a.to_animated(), AnimatedValue::Track(animated_track()));
}

#[test]
fn a_pixel_bound_should_round_to_the_nearest_and_stay_in_range() {
    let expected = [
        (10.4, 10),
        (10.5, 11),
        (-3.0, 0),
        (f64::NAN, 0),
        (f64::INFINITY, u32::MAX),
        (4_294_967_295.4, u32::MAX),
    ];
    for (v, want) in expected {
        assert_eq!(param_to_u32(&konst(v)), want, "{v}");
    }
    assert_eq!(param_to_u32(&Param::Animated(animated_track())), 0);
}

#[test]
fn a_key_colour_should_be_spelled_in_hex() {
    let spell = |r: f32, g: f32, b: f32| {
        rgb_to_ffmpeg_hex(Rgb { r: single(r), g: single(g), b: single(b) })
    };
    assert_eq!(spell(0.0, 1.0, 0.0).text, "0x00FF00");
    assert_eq!(spell(1.0, 0.5, 2.0).text, "0xFF80FF");
    assert_eq!(spell(-1.0, f32::NAN, 0.1).text, "0x00001A");
}

#[test]
fn an_animated_gain_and_shutter_should_read_time_zero() {
    let gain = EffectKind::Volume { gain_db: Param::Animated(animated_track()) };
    assert_eq!(
        gain.to_filter_step(start_of(&gain)),
        Some(FilterStep::Volume { gain_db: double(0.5) })
    );
    assert!(gain.to_filter_step(double(0.0)).is_none(), "neutral at time zero");
    let blur = EffectKind::Blur { radius: Param::Animated(animated_track()) };
    assert!(blur.start_track().is_none());
    assert!(blur.to_filter_step(double(0.0)).is_some());
}

#[test]
fn a_new_effect_should_be_enabled_and_unnumbered() {
    let e = ClipEffect::new(EffectKind::LumaMask { invert: true });
    assert!(e.enabled);
    assert_eq!(e.id, EffectId::unset());
    assert_eq!(e.kind, EffectKind::LumaMask { invert: true });
}

#[test]
fn neutral_kinds_should_compile_to_nothing() {
    let kinds = vec![
        EffectKind::ColorCorrect {
            brightness: param_zero(),
            contrast: param_one(),
            saturation: param_one(),
            temperature: param_zero(),
            tint: param_zero(),
        },
        EffectKind::ColorWheels {
            shadows_lift: param3_zero(),
            midtones_gamma: param3_one(),
            highlights_gain: param3_one(),
        },
        EffectKind::Hsl {
            hue_shift: param_zero(),
            saturation: param_one(),
            lightness: param_zero(),
        },
        EffectKind::ChromaKey {
            key_color: key_color_default(),
            similarity: param_zero(),
            softness: param_zero(),
        },
        EffectKind::ShapeMask {
            x: param_zero(),
            y: param_zero(),
            width: param_zero(),
            height: param_zero(),
            invert: false,
        },
        EffectKind::MotionBlur {
            shutter_angle: param_zero(),
            sub_frames: sub_frames_default(),
        },
        EffectKind::Volume { gain_db: param_zero() },
    ];
    for kind in &kinds {
        assert!(kind.to_filter_step(double(7.0)).is_none(), "{kind:?}");
    }
    let kept = EffectKind::Blur { radius: param_zero() };
    assert!(kept.to_filter_step(double(0.0)).is_some(), "a blur is always a step");
}

#[test]
fn chroma_key_zero_similarity_should_compile_to_nothing_with_an_animated_softness() {
    let kind = EffectKind::ChromaKey {
        key_color: green(),
        similarity: konst(0.0),
        softness: Param::Animated(animated_track()),
    };
    assert!(kind.to_filter_step(double(0.0)).is_none());
}

#[test]
fn shape_mask_constant_zero_side_should_compile_to_nothing_with_an_animated_bound() {
    let moving = |width: f64, height: f64| EffectKind::ShapeMask {
        x: Param::Animated(animated_track()),
        y: konst(0.0),
        width: konst(width),
        height: konst(height),
        invert: false,
    };
    for (width, height) in [(0.0, 10.0), (10.0, 0.0), (-0.0, 10.0)] {
        let step = moving(width, height).to_filter_step(double(0.0));
        assert!(step.is_none(), "{width} by {height}");
    }
    for width in [0.3, -3.0, f64::NAN] {
        assert!(
            matches!(
                moving(width, 10.0).to_filter_step(double(0.0)),
                Some(FilterStep::RectMaskAnimated { .. })
            ),
            "{width} is not the number zero"
        );
    }
    let grown = EffectKind::ShapeMask {
        x: konst(0.0),
        y: konst(0.0),
        width: Param::Animated(animated_track()),
        height: konst(10.0),
        invert: false,
    };
    assert!(grown.to_filter_step(double(0.0)).is_some(), "an animated side may grow");
}

#[test]
fn shape_mask_constant_side_that_rounds_to_no_pixel_should_compile_to_nothing() {
    for width in [0.3, -3.0, f64::NAN] {
        let kind = EffectKind::ShapeMask {
            x: konst(0.0),
            y: konst(0.0),
            width: konst(width),
            height: konst(10.0),
            invert: false,
        };
        assert!(kind.to_filter_step(double(0.0)).is_none(), "{width}");
    }
}

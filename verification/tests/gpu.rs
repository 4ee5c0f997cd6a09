use avio::clip::Clip;
use avio::derive::{
    effect_starts, realtime_descriptor, video_layer, RealtimeLayerDescriptor,
};
use avio::effect::{EffectKind, Param};
use avio::filter::{
    AnimatedValue, AnimationTrack, BlendMode, Channels, Color, CompositeOp, Curve, CurvePoint,
    Easing, FilterStep, Keyframe, NamedColor, Rgb, ScaleAlgorithm, XfadeTransition,
};
use avio::float::double::F64;
use avio::float::single::F32;
use avio::gpu::{
    classify_step, map_scene, parse_key_color, GpuEffect, GpuFallback, GpuMapping, GpuScenePlan,
    RenderBlendMode, RenderCompositeOp, RenderScaleAlgorithm, StepClass,
};
use avio::time::Duration;
use avio::track::TrackAutomation;

fn double(v: f64) -> F64 {
    F64::from_bits(v.to_bits())
}

fn single(v: f32) -> F32 {
    F32::from_bits(v.to_bits())
}

trait Number {
    fn num(&self) -> f64;
}

impl Number for F64 {
    fn num(&self) -> f64 {
        f64::from_bits(self.to_bits())
    }
}

impl Number for F32 {
    fn num(&self) -> f64 {
        f64::from(f32::from_bits(self.to_bits()))
    }
}

fn file(path: &str) -> Clip {
    Clip::new(path.to_string())
}

fn key(at: Duration, value: f64) -> Keyframe {
    Keyframe { timestamp: at, value: double(value), easing: Easing::Linear }
}

/// Keyframes in the making.
struct Keys(Vec<Keyframe>);

impl Keys {
    fn push(mut self, k: Keyframe) -> Keys {
        self.0.push(k);
        self
    }

    fn done(self) -> AnimationTrack {
        AnimationTrack::new(self.0)
    }
}

fn keys() -> Keys {
    Keys(Vec::new())
}

/// A value at a time, by straight lines between keyframes.
fn value_at(v: &AnimatedValue, at: Duration) -> f64 {
    let track = match v {
        AnimatedValue::Static(x) => return x.num(),
        AnimatedValue::Track(t) => t,
    };
    let frames = &track.keyframes;
    let mut before = &frames[0];
    for k in frames.iter() {
        if k.timestamp.nanos > at.nanos {
            let whole = (k.timestamp.nanos - before.timestamp.nanos) as f64;
            let part = (at.nanos.saturating_sub(before.timestamp.nanos)) as f64;
            if whole == 0.0 {
                return k.value.num();
            }
            return before.value.num() + (k.value.num() - before.value.num()) * part / whole;
        }
        before = k;
    }
    before.value.num()
}

type TestLayer = RealtimeLayerDescriptor<AnimatedValue>;

/// A layer that changes nothing: identity placement, normal blend, no effects.
fn identity() -> TestLayer {
    RealtimeLayerDescriptor {
        opacity: AnimatedValue::Static(double(1.0)),
        x: AnimatedValue::Static(double(0.0)),
        y: AnimatedValue::Static(double(0.0)),
        scale_x: AnimatedValue::Static(double(1.0)),
        scale_y: AnimatedValue::Static(double(1.0)),
        rotation: AnimatedValue::Static(double(0.0)),
        blend_mode: BlendMode::Normal,
        composite_op: CompositeOp::Over,
        effects: Vec::new(),
    }
}

fn sample(layer: &TestLayer, t: Duration) -> RealtimeLayerDescriptor<F64> {
    layer.at(&|v: &AnimatedValue| double(value_at(v, t)))
}

fn map(layer: &TestLayer, canvas: (u32, u32), t: Duration) -> GpuMapping {
    map_scene(&[sample(layer, t)], canvas, t)
}

fn classify(step: &FilterStep<AnimatedValue>, t: Duration) -> StepClass {
    classify_step(&step.at(&|v: &AnimatedValue| double(value_at(v, t))), t)
}

/// A colour by a spelling that filters know.
fn named(text: &str) -> NamedColor {
    let color = match text {
        "0x00FF00" | "lime" => Some(Color::rgb(0, 255, 0)),
        "#0000FF" => Some(Color::rgb(0, 0, 255)),
        "green" => Some(Color::rgb(0, 128, 0)),
        "0x00FF0080" => Some(Color { r: 0, g: 255, b: 0, a: 128 }),
        _ => None,
    };
    NamedColor { text: text.to_string(), color }
}

fn curve(points: &[(f32, f32)]) -> Curve {
    Curve::new(
        points
            .iter()
            .map(|p| CurvePoint { input: single(p.0), output: single(p.1) })
            .collect(),
    )
}

fn grey(v: f32) -> Rgb {
    Rgb { r: single(v), g: single(v), b: single(v) }
}

/// The comparison with the CPU that covers each node.
fn parity_coverage(effect: &GpuEffect) -> &'static str {
    match effect {
        GpuEffect::ColorGrade { .. } => "color_grade_gpu_should_match_cpu_within_tolerance",
        GpuEffect::Scale { .. } => "scale_gpu_should_match_cpu_within_tolerance",
        GpuEffect::Blur { .. } => "blur_gpu_should_match_cpu_within_tolerance",
        GpuEffect::Sharpen { .. } => "sharpen_gpu_should_match_cpu_within_tolerance",
        GpuEffect::Vignette { .. } => "vignette_gpu_should_match_cpu_within_tolerance",
        GpuEffect::FilmGrain { .. } => "film_grain_gpu_should_match_cpu_grain_strength",
        GpuEffect::Glow { .. } => "glow_gpu_should_match_cpu_within_tolerance",
        GpuEffect::ColorWheels { .. } => "color_wheels_gpu_should_match_cpu_within_tolerance",
        GpuEffect::Curves { .. } => "curves_gpu_should_match_cpu_within_tolerance",
        GpuEffect::Hsl { .. } => "hsl_gpu_should_match_cpu_within_tolerance",
        GpuEffect::Lut { .. } => "lut_gpu_should_match_cpu_within_tolerance",
        GpuEffect::ChromaKey { .. } => "chroma_key_gpu_should_match_cpu_within_tolerance",
        GpuEffect::LumaMask { .. } => "luma_mask_gpu_should_match_cpu_within_tolerance",
        GpuEffect::ShapeMask { .. } => "shape_mask_gpu_should_match_cpu_within_tolerance",
        GpuEffect::MotionBlur { .. } => "motion_blur_gpu_should_match_cpu_within_tolerance",
    }
}

#[test]
fn every_gpu_effect_variant_is_registered_for_parity() {
    let scale = GpuEffect::Scale {
        width: 2,
        height: 2,
        algorithm: RenderScaleAlgorithm::Bilinear,
    };
    assert_eq!(
        parity_coverage(&scale),
        "scale_gpu_should_match_cpu_within_tolerance"
    );
}

fn gpu(mapping: GpuMapping) -> GpuScenePlan {
    match mapping {
        GpuMapping::Gpu(plan) => plan,
        GpuMapping::Fallback(reason) => panic!("expected Gpu, got Fallback({reason:?})"),
    }
}

#[test]
fn map_scene_should_map_identity_layer_to_a_single_gpu_plan_layer() {
    let plan = gpu(map(&identity(), (1920, 1080), Duration::zero()));
    assert_eq!(plan.canvas, (1920, 1080));
    let [layer] = plan.layers.as_slice() else {
        panic!("expected one layer");
    };
    assert_eq!(layer.z_order, 0);
    assert_eq!(layer.x.num(), 0.0);
    assert_eq!(layer.scale_x.num(), 1.0);
    assert_eq!(layer.rotation.num(), 0.0);
    assert_eq!(layer.opacity.num(), 1.0);
    assert_eq!(layer.blend_mode, RenderBlendMode::Normal);
    assert!(layer.effects.is_empty());
}

#[test]
fn map_scene_should_evaluate_animated_transform_at_t() {
    let track = keys()
        .push(key(Duration::zero(), 0.0))
        .push(key(Duration::from_secs(2), 100.0)).done();
    let mut layer = identity();
    layer.x = AnimatedValue::Track(track);
    let plan = gpu(map(&layer, (100, 100), Duration::from_secs(1)));
    assert!((plan.layers[0].x.num() - 50.0).abs() < 1e-3);
}

#[test]
fn map_scene_should_map_eq_to_color_grade() {
    let mut layer = identity();
    layer.effects = vec![FilterStep::Eq {
        brightness: single(0.5),
        contrast: single(1.2),
        saturation: single(0.8),
        temperature: single(0.4),
        tint: single(-0.3),
    }];
    let plan = gpu(map(&layer, (16, 16), Duration::zero()));
    assert_eq!(
        plan.layers[0].effects.as_slice(),
        [GpuEffect::ColorGrade {
            brightness: single(0.5),
            contrast: single(1.2),
            saturation: single(0.8),
            temperature: single(0.4),
            tint: single(-0.3),
        }]
    );
}

#[test]
fn map_scene_should_map_eq_animated_to_color_grade_when_gamma_is_neutral() {
    let mut layer = identity();
    layer.effects = vec![FilterStep::EqAnimated {
        brightness: AnimatedValue::Static(double(0.3)),
        contrast: AnimatedValue::Static(double(1.1)),
        saturation: AnimatedValue::Static(double(0.9)),
        gamma: AnimatedValue::Static(double(1.0)),
        temperature: AnimatedValue::Static(double(0.5)),
        tint: AnimatedValue::Static(double(-0.2)),
    }];
    let plan = gpu(map(&layer, (16, 16), Duration::zero()));
    assert_eq!(
        plan.layers[0].effects.as_slice(),
        [GpuEffect::ColorGrade {
            brightness: single(0.3),
            contrast: single(1.1),
            saturation: single(0.9),
            temperature: single(0.5),
            tint: single(-0.2),
        }]
    );
}

#[test]
fn map_scene_should_fall_back_when_eq_animated_gamma_is_not_neutral() {
    let mut layer = identity();
    layer.effects = vec![FilterStep::EqAnimated {
        brightness: AnimatedValue::Static(double(0.0)),
        contrast: AnimatedValue::Static(double(1.0)),
        saturation: AnimatedValue::Static(double(1.0)),
        gamma: AnimatedValue::Static(double(1.5)),
        temperature: AnimatedValue::Static(double(0.0)),
        tint: AnimatedValue::Static(double(0.0)),
    }];
    assert_eq!(
        map(&layer, (16, 16), Duration::zero()),
        GpuMapping::Fallback(GpuFallback::UnsupportedEffect)
    );
}

#[test]
fn map_scene_should_clamp_out_of_range_opacity() {
    let mut layer = identity();
    layer.opacity = AnimatedValue::Static(double(1.5));
    let plan = gpu(map(&layer, (16, 16), Duration::zero()));
    assert_eq!(plan.layers[0].opacity.num(), 1.0);
}

#[test]
fn map_scene_should_map_scale_step() {
    let mut layer = identity();
    layer.effects = vec![FilterStep::Scale {
        width: 320,
        height: 240,
        algorithm: ScaleAlgorithm::Bicubic,
    }];
    let plan = gpu(map(&layer, (16, 16), Duration::zero()));
    assert_eq!(
        plan.layers[0].effects.as_slice(),
        [GpuEffect::Scale {
            width: 320,
            height: 240,
            algorithm: RenderScaleAlgorithm::Bicubic,
        }]
    );
}

#[test]
fn map_scene_should_map_scale_animated_to_the_scale_node_at_the_frame_time() {
    let track = |a: f64, b: f64| {
        AnimatedValue::Track(
            keys()
                .push(key(Duration::zero(), a))
                .push(key(Duration::from_secs(2), b)).done(),
        )
    };
    let step = FilterStep::ScaleAnimated {
        width: track(320.0, 640.0),
        height: track(240.0, 480.0),
        algorithm: ScaleAlgorithm::Bicubic,
    };
    let at = |t: Duration| {
        let mut layer = identity();
        layer.effects = vec![step.clone()];
        gpu(map(&layer, (16, 16), t)).layers[0]
            .effects
            .clone()
    };
    assert_eq!(
        at(Duration::zero()).as_slice(),
        [GpuEffect::Scale {
            width: 320,
            height: 240,
            algorithm: RenderScaleAlgorithm::Bicubic,
        }]
    );
    assert_eq!(
        at(Duration::from_secs(1)).as_slice(),
        [GpuEffect::Scale {
            width: 480,
            height: 360,
            algorithm: RenderScaleAlgorithm::Bicubic,
        }]
    );
}

#[test]
fn map_scene_should_fold_rotate_animated_into_the_layer_rotation() {
    let step = FilterStep::RotateAnimated {
        angle: AnimatedValue::Track(
            keys()
                .push(key(Duration::zero(), 0.0))
                .push(key(Duration::from_secs(2), 90.0)).done(),
        ),
        fill_color: "black".to_string(),
    };
    let at = |t: Duration| {
        let mut layer = identity();
        layer.effects = vec![step.clone()];
        let plan = gpu(map(&layer, (16, 16), t));
        assert!(
            plan.layers[0].effects.is_empty(),
            "a rotation must not become an effect node"
        );
        plan.layers[0].rotation.num()
    };
    assert!((at(Duration::zero()) - 0.0).abs() < 1e-3);
    assert!((at(Duration::from_secs(1)) - 45.0).abs() < 1e-3);
}

#[test]
fn map_scene_should_add_a_rotate_animated_step_to_the_layer_rotation() {
    let mut layer = identity();
    layer.rotation = AnimatedValue::Static(double(30.0));
    layer.effects = vec![FilterStep::RotateAnimated {
        angle: AnimatedValue::Static(double(15.0)),
        fill_color: "black".to_string(),
    }];
    let plan = gpu(map(&layer, (16, 16), Duration::zero()));
    assert!(
        (plan.layers[0].rotation.num() - 45.0).abs() < 1e-3,
        "layer 30deg + step 15deg must be 45deg, got {}",
        plan.layers[0].rotation.num()
    );
}

#[test]
fn map_scene_should_fall_back_for_a_rotate_animated_with_an_unmappable_fill() {
    for fill in ["black", "none", "BLACK", "None"] {
        let mut layer = identity();
        layer.effects = vec![FilterStep::RotateAnimated {
            angle: AnimatedValue::Static(double(10.0)),
            fill_color: fill.to_string(),
        }];
        assert!(
            matches!(
                map(&layer, (16, 16), Duration::zero()),
                GpuMapping::Gpu(_)
            ),
            "{fill} must fold onto the transform"
        );
    }
    let mut layer = identity();
    layer.effects = vec![FilterStep::RotateAnimated {
        angle: AnimatedValue::Static(double(10.0)),
        fill_color: "red".to_string(),
    }];
    assert_eq!(
        map(&layer, (16, 16), Duration::zero()),
        GpuMapping::Fallback(GpuFallback::UnsupportedEffect)
    );
}

#[test]
fn map_scene_should_map_hue_to_the_hsl_node() {
    let mut layer = identity();
    layer.effects = vec![FilterStep::Hue { degrees: single(42.0) }];
    let plan = gpu(map(&layer, (16, 16), Duration::zero()));
    assert_eq!(
        plan.layers[0].effects.as_slice(),
        [GpuEffect::Hsl {
            hue_shift: single(42.0),
            saturation: single(1.0),
            lightness: single(0.0),
        }]
    );

    let mut neutral = identity();
    neutral.effects = vec![FilterStep::Hue { degrees: single(0.0) }];
    let plan = gpu(map(&neutral, (16, 16), Duration::zero()));
    assert!(plan.layers[0].effects.is_empty());
}

#[test]
fn map_scene_should_map_a_chroma_key_with_a_named_colour() {
    let mut layer = identity();
    layer.effects = vec![FilterStep::ChromaKey {
        color: named("green"),
        similarity: single(0.3),
        blend: single(0.1),
    }];
    let plan = gpu(map(&layer, (16, 16), Duration::zero()));
    let [GpuEffect::ChromaKey { key_color, .. }] = plan.layers[0].effects.as_slice() else {
        panic!("a named chroma-key colour must map to the GPU node");
    };
    assert!((key_color.r.num() - 0.0).abs() < 1e-6);
    assert!((key_color.g.num() - 128.0 / 255.0).abs() < 1e-6);
    assert!((key_color.b.num() - 0.0).abs() < 1e-6);
}

#[test]
fn map_scene_should_still_fall_back_for_a_color_key() {
    let mut layer = identity();
    layer.effects = vec![FilterStep::Other {
        spelling: "colorkey=green:0.3:0.1".to_string(),
    }];
    assert_eq!(
        map(&layer, (16, 16), Duration::zero()),
        GpuMapping::Fallback(GpuFallback::UnsupportedEffect)
    );
}

#[test]
fn map_scene_should_map_gblur_to_blur() {
    let mut layer = identity();
    layer.effects = vec![FilterStep::GBlur { sigma: single(3.5) }];
    let plan = gpu(map(&layer, (16, 16), Duration::zero()));
    assert_eq!(
        plan.layers[0].effects.as_slice(),
        [GpuEffect::Blur { sigma: single(3.5) }]
    );
}

#[test]
fn map_scene_should_evaluate_animated_gblur_sigma_at_t() {
    let track = keys()
        .push(key(Duration::zero(), 2.0))
        .push(key(Duration::from_secs(2), 6.0)).done();
    let mut layer = identity();
    layer.effects = vec![FilterStep::GBlurAnimated {
        sigma: AnimatedValue::Track(track),
    }];
    let plan = gpu(map(&layer, (16, 16), Duration::from_secs(1)));
    let [GpuEffect::Blur { sigma }] = plan.layers[0].effects.as_slice() else {
        panic!("animated gblur must map to a single Blur effect");
    };
    assert!(
        (sigma.num() - 4.0).abs() < 1e-3,
        "animated sigma at t=1s should be ~4; got {sigma:?}"
    );
}

#[test]
fn map_scene_should_map_unsharp_to_sharpen() {
    let mut layer = identity();
    layer.effects = vec![FilterStep::Unsharp {
        luma_strength: single(0.8),
        chroma_strength: single(0.0),
    }];
    let plan = gpu(map(&layer, (16, 16), Duration::zero()));
    assert_eq!(
        plan.layers[0].effects.as_slice(),
        [GpuEffect::Sharpen {
            radius: single(1.0),
            strength: single(0.8),
        }]
    );
}

#[test]
fn map_scene_should_evaluate_animated_unsharp_amount_at_t() {
    let track = keys()
        .push(key(Duration::zero(), 0.2))
        .push(key(Duration::from_secs(2), 0.6)).done();
    let mut layer = identity();
    layer.effects = vec![FilterStep::UnsharpAnimated {
        luma_strength: AnimatedValue::Track(track),
        chroma_strength: AnimatedValue::Static(double(0.0)),
    }];
    let plan = gpu(map(&layer, (16, 16), Duration::from_secs(1)));
    let [GpuEffect::Sharpen { strength, .. }] = plan.layers[0].effects.as_slice() else {
        panic!("animated unsharp must map to a single Sharpen effect");
    };
    assert!(
        (strength.num() - 0.4).abs() < 1e-3,
        "animated amount at t=1s should be ~0.4; got {strength:?}"
    );
}

#[test]
fn map_scene_should_fall_back_on_unsharp_with_chroma() {
    let mut layer = identity();
    layer.effects = vec![FilterStep::Unsharp {
        luma_strength: single(0.5),
        chroma_strength: single(0.5),
    }];
    assert_eq!(
        map(&layer, (16, 16), Duration::zero()),
        GpuMapping::Fallback(GpuFallback::UnsupportedEffect)
    );
}

#[test]
fn map_scene_should_map_vignette_animated_to_vignette() {
    let mut layer = identity();
    layer.effects = vec![FilterStep::VignetteAnimated {
        amount: AnimatedValue::Static(double(0.6)),
        x0: single(0.0),
        y0: single(0.0),
    }];
    let plan = gpu(map(&layer, (16, 16), Duration::zero()));
    let [
        GpuEffect::Vignette {
            radius,
            strength,
            feather,
        },
    ] = plan.layers[0].effects.as_slice()
    else {
        panic!("vignette must map to a single Vignette effect");
    };
    assert!(
        (strength.num() - 0.6).abs() < 1e-6,
        "amount maps to strength; got {strength:?}"
    );
    assert!(
        radius.num() > 0.0 && feather.num() > 0.0,
        "radius/feather use the defaults"
    );
}

#[test]
fn map_scene_should_map_static_vignette_normalising_angle() {
    let mut layer = identity();
    layer.effects = vec![FilterStep::Vignette {
        angle: single(std::f32::consts::FRAC_PI_2),
        x0: single(0.0),
        y0: single(0.0),
    }];
    let plan = gpu(map(&layer, (16, 16), Duration::zero()));
    let [GpuEffect::Vignette { strength, .. }] = plan.layers[0].effects.as_slice() else {
        panic!("vignette must map to a single Vignette effect");
    };
    assert!(
        (strength.num() - 1.0).abs() < 1e-6,
        "angle PI/2 -> strength 1.0; got {strength:?}"
    );
}

#[test]
fn map_scene_should_fall_back_on_off_centre_vignette() {
    let mut layer = identity();
    layer.effects = vec![FilterStep::VignetteAnimated {
        amount: AnimatedValue::Static(double(0.5)),
        x0: single(320.0),
        y0: single(0.0),
    }];
    assert_eq!(
        map(&layer, (16, 16), Duration::zero()),
        GpuMapping::Fallback(GpuFallback::UnsupportedEffect)
    );
}

#[test]
fn map_scene_should_map_film_grain_with_per_frame_seed() {
    let mut layer = identity();
    layer.effects = vec![FilterStep::FilmGrain {
        luma_strength: single(20.0),
        chroma_strength: single(5.0),
    }];
    let plan_a = gpu(map(&TestLayer {
            effects: layer.effects.clone(),
            ..identity()
        }, (16, 16), Duration::from_millis(0)));
    let plan_b = gpu(map(&layer, (16, 16), Duration::from_millis(100)));
    let [
        GpuEffect::FilmGrain {
            luma_strength,
            frame_index: fa,
            ..
        },
    ] = plan_a.layers[0].effects.as_slice()
    else {
        panic!("film grain must map to a single FilmGrain effect");
    };
    let [
        GpuEffect::FilmGrain {
            frame_index: fb, ..
        },
    ] = plan_b.layers[0].effects.as_slice()
    else {
        panic!("film grain must map to a single FilmGrain effect");
    };
    assert!(
        luma_strength.num() > 0.0,
        "the noise strength maps to a node amplitude"
    );
    assert_ne!(
        fa, fb,
        "distinct frame times must give distinct grain seeds"
    );
}

#[test]
fn map_scene_should_skip_zero_strength_film_grain() {
    let mut layer = identity();
    layer.effects = vec![FilterStep::FilmGrain {
        luma_strength: single(0.0),
        chroma_strength: single(0.0),
    }];
    let plan = gpu(map(&layer, (16, 16), Duration::zero()));
    assert!(
        plan.layers[0].effects.is_empty(),
        "zero-strength grain is a no-op and is skipped"
    );
}

#[test]
fn map_scene_should_evaluate_animated_film_grain_at_t() {
    let track = keys()
        .push(key(Duration::zero(), 10.0))
        .push(key(Duration::from_secs(2), 30.0)).done();
    let mut layer = identity();
    layer.effects = vec![FilterStep::FilmGrainAnimated {
        luma_strength: AnimatedValue::Track(track),
        chroma_strength: AnimatedValue::Static(double(0.0)),
    }];
    let plan = gpu(map(&layer, (16, 16), Duration::from_secs(1)));
    let [GpuEffect::FilmGrain { luma_strength, .. }] = plan.layers[0].effects.as_slice() else {
        panic!("animated film grain must map to a single FilmGrain effect");
    };
    assert!(
        (luma_strength.num() - 20.0 * 0.0042).abs() < 1e-4,
        "animated strength at t=1s should be ~20*scale; got {luma_strength:?}"
    );
}

#[test]
fn map_scene_should_map_glow_directly() {
    let mut layer = identity();
    layer.effects = vec![FilterStep::Glow {
        threshold: single(0.8),
        radius: single(10.0),
        intensity: single(0.8),
    }];
    let plan = gpu(map(&layer, (16, 16), Duration::zero()));
    assert_eq!(
        plan.layers[0].effects.as_slice(),
        [GpuEffect::Glow {
            threshold: single(0.8),
            radius: single(10.0),
            intensity: single(0.8),
        }]
    );
}

#[test]
fn map_scene_should_evaluate_animated_glow_at_t() {
    let track = keys()
        .push(key(Duration::zero(), 0.4))
        .push(key(Duration::from_secs(2), 1.2)).done();
    let mut layer = identity();
    layer.effects = vec![FilterStep::GlowAnimated {
        threshold: AnimatedValue::Static(double(0.8)),
        radius: AnimatedValue::Static(double(10.0)),
        intensity: AnimatedValue::Track(track),
    }];
    let plan = gpu(map(&layer, (16, 16), Duration::from_secs(1)));
    let [GpuEffect::Glow { intensity, .. }] = plan.layers[0].effects.as_slice() else {
        panic!("animated glow must map to a single Glow effect");
    };
    assert!(
        (intensity.num() - 0.8).abs() < 1e-3,
        "animated intensity at t=1s should be ~0.8; got {intensity:?}"
    );
}

#[test]
fn map_scene_should_skip_zero_intensity_glow() {
    let mut layer = identity();
    layer.effects = vec![FilterStep::Glow {
        threshold: single(0.8),
        radius: single(10.0),
        intensity: single(0.0),
    }];
    let plan = gpu(map(&layer, (16, 16), Duration::zero()));
    assert!(
        plan.layers[0].effects.is_empty(),
        "zero-intensity glow is a no-op and is skipped"
    );
}

#[test]
fn map_scene_should_map_three_way_cc_to_color_wheels() {
    let mut layer = identity();
    layer.effects = vec![FilterStep::ThreeWayCC {
        lift: Rgb {
            r: single(1.1),
            g: single(1.1),
            b: single(1.1),
        },
        gamma: Rgb {
            r: single(1.2),
            g: single(1.2),
            b: single(1.2),
        },
        gain: grey(1.0),
    }];
    let plan = gpu(map(&layer, (16, 16), Duration::zero()));
    let [
        GpuEffect::ColorWheels {
            shadows_lift,
            midtones_gamma,
            ..
        },
    ] = plan.layers[0].effects.as_slice()
    else {
        panic!("three-way cc must map to a single ColorWheels effect");
    };
    assert!(
        (shadows_lift.r.num() - 0.1).abs() < 1e-5,
        "lift 1.1 -> shadows_lift 0.1"
    );
    assert!(
        (midtones_gamma.r.num() - 1.2).abs() < 1e-6,
        "gamma maps directly"
    );
}

#[test]
fn map_scene_should_skip_neutral_three_way_cc() {
    let mut layer = identity();
    layer.effects = vec![FilterStep::ThreeWayCC {
        lift: grey(1.0),
        gamma: grey(1.0),
        gain: grey(1.0),
    }];
    let plan = gpu(map(&layer, (16, 16), Duration::zero()));
    assert!(
        plan.layers[0].effects.is_empty(),
        "a neutral three-way corrector is a no-op and is skipped"
    );
}

#[test]
fn map_scene_should_map_curves_with_array_points() {
    let mut layer = identity();
    layer.effects = vec![FilterStep::Curves {
        master: curve(&[(0.0, 0.0), (0.5, 0.7), (1.0, 1.0)]),
        r: curve(&[]),
        g: curve(&[]),
        b: curve(&[]),
    }];
    let plan = gpu(map(&layer, (16, 16), Duration::zero()));
    let [GpuEffect::Curves { master, red, .. }] = plan.layers[0].effects.as_slice() else {
        panic!("curves must map to a single Curves effect");
    };
    assert_eq!(*master, curve(&[(0.0, 0.0), (0.5, 0.7), (1.0, 1.0)]));
    assert!(red.is_empty(), "an empty per-channel curve stays empty");
}

#[test]
fn map_scene_should_skip_empty_curves() {
    let mut layer = identity();
    layer.effects = vec![FilterStep::Curves {
        master: curve(&[]),
        r: curve(&[]),
        g: curve(&[]),
        b: curve(&[]),
    }];
    let plan = gpu(map(&layer, (16, 16), Duration::zero()));
    assert!(
        plan.layers[0].effects.is_empty(),
        "an all-empty Curves is a no-op and is skipped"
    );
}

#[test]
fn map_scene_should_skip_temporal_steps() {
    let mut layer = identity();
    layer.effects = vec![
        FilterStep::Trim {
            start: Some(double(1.0)),
            end: Some(double(4.0)),
        },
        FilterStep::ResetPts,
        FilterStep::OffsetPts { seconds: double(2.0) },
        FilterStep::Speed { factor: double(2.0) },
        FilterStep::Eq {
            brightness: single(0.1),
            contrast: single(1.0),
            saturation: single(1.0),
            temperature: single(0.0),
            tint: single(0.0),
        },
    ];
    let plan = gpu(map(&layer, (16, 16), Duration::zero()));
    assert_eq!(
        plan.layers[0].effects.len(),
        1,
        "temporal steps skipped; only the colour grade remains"
    );
    assert!(matches!(
        plan.layers[0].effects[0],
        GpuEffect::ColorGrade { .. }
    ));
}

#[test]
fn map_scene_should_fall_back_on_unsupported_effect() {
    let mut layer = identity();
    layer.effects = vec![FilterStep::XFade {
        transition: XfadeTransition::Fade,
        duration: double(1.0),
        offset: double(0.0),
    }];
    assert_eq!(
        map(&layer, (16, 16), Duration::zero()),
        GpuMapping::Fallback(GpuFallback::UnsupportedEffect)
    );
}

#[test]
fn map_scene_should_map_every_blend_mode() {
    let modes = [
        BlendMode::Normal,
        BlendMode::Multiply,
        BlendMode::Screen,
        BlendMode::Overlay,
        BlendMode::SoftLight,
        BlendMode::HardLight,
        BlendMode::ColorDodge,
        BlendMode::ColorBurn,
        BlendMode::Darken,
        BlendMode::Lighten,
        BlendMode::Difference,
        BlendMode::Exclusion,
        BlendMode::Add,
        BlendMode::Subtract,
        BlendMode::And,
        BlendMode::Average,
        BlendMode::Bleach,
        BlendMode::Divide,
        BlendMode::Extremity,
        BlendMode::Freeze,
        BlendMode::Geometric,
        BlendMode::Glow,
        BlendMode::GrainExtract,
        BlendMode::GrainMerge,
        BlendMode::HardMix,
        BlendMode::HardOverlay,
        BlendMode::Harmonic,
        BlendMode::Heat,
        BlendMode::Interpolate,
        BlendMode::LinearLight,
        BlendMode::Multiply128,
        BlendMode::Negation,
        BlendMode::Or,
        BlendMode::Phoenix,
        BlendMode::PinLight,
        BlendMode::Reflect,
        BlendMode::SoftDifference,
        BlendMode::Stain,
        BlendMode::VividLight,
        BlendMode::Xor,
    ];
    assert_eq!(modes.len(), 40, "every named blend mode");
    for mode in modes {
        let mut layer = identity();
        layer.blend_mode = mode;
        let mapping = map(&layer, (16, 16), Duration::zero());
        assert!(
            !matches!(
                mapping,
                GpuMapping::Fallback(GpuFallback::UnsupportedBlendMode(_))
            ),
            "{mode:?} must map to a GPU node; got {mapping:?}"
        );
    }
}

#[test]
fn map_scene_should_map_every_composite_op() {
    let ops = [
        CompositeOp::Over,
        CompositeOp::Under,
        CompositeOp::In,
        CompositeOp::Out,
        CompositeOp::Atop,
        CompositeOp::Xor,
    ];
    assert_eq!(ops.len(), 6, "every named operator");
    for op in ops {
        let mut layer = identity();
        layer.composite_op = op;
        let mapping = map(&layer, (16, 16), Duration::zero());
        assert!(
            !matches!(
                mapping,
                GpuMapping::Fallback(GpuFallback::UnsupportedCompositeOp(_))
            ),
            "{op:?} must map to the GPU; got {mapping:?}"
        );
    }
}

#[test]
fn map_scene_should_drop_the_blend_mode_for_a_non_over_composite() {
    let mut layer = identity();
    layer.composite_op = CompositeOp::In;
    layer.blend_mode = BlendMode::Multiply;
    let GpuMapping::Gpu(plan) = map(&layer, (16, 16), Duration::zero()) else {
        panic!("a non-Over composite must map to the GPU");
    };
    assert_eq!(plan.layers[0].composite_op, RenderCompositeOp::In);
    assert_eq!(
        plan.layers[0].blend_mode,
        RenderBlendMode::Normal,
        "the blend mode must be dropped, matching the CPU path"
    );
}

#[test]
fn map_scene_should_accept_realtime_layer_and_references() {
    let desc = RealtimeLayerDescriptor {
        effects: vec![FilterStep::Eq {
            brightness: single(0.5),
            contrast: single(1.0),
            saturation: single(1.0),
            temperature: single(0.0),
            tint: single(0.0),
        }],
        opacity: AnimatedValue::Static(double(1.0)),
        x: AnimatedValue::Static(double(0.0)),
        y: AnimatedValue::Static(double(0.0)),
        scale_x: AnimatedValue::Static(double(1.0)),
        scale_y: AnimatedValue::Static(double(1.0)),
        rotation: AnimatedValue::Static(double(0.0)),
        blend_mode: BlendMode::Normal,
        composite_op: CompositeOp::Over,
    };
    let layer = sample(&desc, Duration::zero());
    let owned = map_scene(std::slice::from_ref(&layer), (8, 8), Duration::zero());
    let by_ref = map_scene(&[&layer], (8, 8), Duration::zero());
    assert_eq!(owned, by_ref, "a &RealtimeLayer maps like a RealtimeLayer");
    assert!(matches!(owned, GpuMapping::Gpu(_)));
}

#[test]
fn map_scene_should_map_the_blend_mode_intersection() {
    let mut layer = identity();
    layer.blend_mode = BlendMode::Multiply;
    let plan = gpu(map(&layer, (16, 16), Duration::zero()));
    assert_eq!(plan.layers[0].blend_mode, RenderBlendMode::Multiply);
}

#[test]
fn map_scene_should_be_shared_by_video_layer_and_realtime_descriptor() {
    let clip = file("v.mp4")
        .trim(Duration::from_secs(1), Duration::from_secs(4))
        .with_speed(double(2.0))
        .with_color_correction(single(0.5), single(1.2), single(0.8));
    let auto = TrackAutomation::default();
    let starts = effect_starts(&clip, &|v: &AnimatedValue| double(value_at(v, Duration::zero())));
    let export = video_layer(&clip, &auto, 1920, 1080, None, None, &starts)
        .at(&|v: &AnimatedValue| double(value_at(v, Duration::zero())));
    let descriptor = sample(
        &realtime_descriptor(&clip, &auto, 1920, 1080, &starts),
        Duration::zero(),
    );

    let from_export = map_scene(std::slice::from_ref(&export), (1920, 1080), Duration::zero());
    let from_preview =
        map_scene(std::slice::from_ref(&descriptor), (1920, 1080), Duration::zero());
    assert_eq!(
        from_export, from_preview,
        "the mapping must agree for the export and preview derived layers"
    );
    let plan = gpu(from_export);
    assert!(matches!(
        plan.layers[0].effects.as_slice(),
        [GpuEffect::ColorGrade { .. }]
    ));
}

#[test]
fn parse_key_color_should_read_hex_and_named_forms_and_reject_others() {
    let rgb = |r: f32, g: f32, b: f32| Some(Rgb { r: single(r), g: single(g), b: single(b) });
    assert_eq!(parse_key_color(&named("0x00FF00")), rgb(0.0, 1.0, 0.0));
    assert_eq!(parse_key_color(&named("#0000FF")), rgb(0.0, 0.0, 1.0));
    assert_eq!(parse_key_color(&named("green")), rgb(0.0, 128.0 / 255.0, 0.0));
    assert_eq!(parse_key_color(&named("lime")), rgb(0.0, 1.0, 0.0));
    assert_eq!(parse_key_color(&named("0x00FF0080")), rgb(0.0, 1.0, 0.0));
    assert_eq!(parse_key_color(&named("no_such_colour")), None);
    assert_eq!(parse_key_color(&named("0x00FF")), None);
}

#[test]
fn classify_chroma_key_should_map_to_node_with_parsed_colour() {
    let step = FilterStep::ChromaKey {
        color: named("0x00FF00"),
        similarity: single(0.3),
        blend: single(0.1),
    };
    match classify(&step, Duration::zero()) {
        StepClass::Effect(GpuEffect::ChromaKey {
            key_color,
            tolerance,
            softness,
        }) => {
            assert_eq!(key_color, Rgb { r: single(0.0), g: single(1.0), b: single(0.0) });
            assert!((tolerance.num() - 0.3).abs() < 1e-5);
            assert!((softness.num() - 0.1).abs() < 1e-5);
        }
        _ => panic!("expected a ChromaKey GPU effect"),
    }
}

#[test]
fn classify_chroma_key_zero_tolerance_should_skip() {
    let step = FilterStep::ChromaKey {
        color: named("0x00FF00"),
        similarity: single(0.0),
        blend: single(0.1),
    };
    assert!(matches!(
        classify(&step, Duration::zero()),
        StepClass::Skip
    ));
}

#[test]
fn classify_chroma_key_unparseable_colour_should_fall_back_to_cpu() {
    let step = FilterStep::ChromaKey {
        color: named("not_a_colour"),
        similarity: single(0.3),
        blend: single(0.1),
    };
    assert!(matches!(
        classify(&step, Duration::zero()),
        StepClass::Unsupported
    ));
}

#[test]
fn classify_luma_mask_should_map_to_node_with_invert_flag() {
    for invert in [false, true] {
        let step = FilterStep::LumaMask { invert };
        match classify(&step, Duration::zero()) {
            StepClass::Effect(GpuEffect::LumaMask { invert: got }) => assert_eq!(got, invert),
            _ => panic!("expected a LumaMask GPU effect for invert={invert}"),
        }
    }
}

#[test]
fn classify_rect_mask_should_map_to_shape_mask_with_bounds() {
    let step = FilterStep::RectMask {
        x: 10,
        y: 20,
        width: 30,
        height: 40,
        invert: true,
    };
    match classify(&step, Duration::zero()) {
        StepClass::Effect(GpuEffect::ShapeMask {
            x,
            y,
            width,
            height,
            invert,
        }) => {
            assert_eq!((x, y, width, height), (10, 20, 30, 40));
            assert!(invert);
        }
        _ => panic!("expected a ShapeMask GPU effect"),
    }
}

#[test]
fn classify_rect_mask_animated_should_evaluate_bounds_at_t() {
    let step = FilterStep::RectMaskAnimated {
        x: AnimatedValue::Static(double(5.0)),
        y: AnimatedValue::Static(double(6.0)),
        width: AnimatedValue::Static(double(7.0)),
        height: AnimatedValue::Static(double(8.0)),
        invert: false,
    };
    match classify(&step, Duration::from_secs(1)) {
        StepClass::Effect(GpuEffect::ShapeMask {
            x,
            y,
            width,
            height,
            ..
        }) => assert_eq!((x, y, width, height), (5, 6, 7, 8)),
        _ => panic!("expected a ShapeMask GPU effect"),
    }
}

#[test]
fn classify_rect_mask_zero_size_should_skip() {
    let step = FilterStep::RectMask {
        x: 0,
        y: 0,
        width: 0,
        height: 10,
        invert: false,
    };
    assert!(matches!(
        classify(&step, Duration::zero()),
        StepClass::Skip
    ));
}

#[test]
fn classify_motion_blur_should_map_to_gpu_effect() {
    let step = FilterStep::MotionBlur {
        shutter_angle_degrees: single(180.0),
        sub_frames: 6,
    };
    match classify(&step, Duration::zero()) {
        StepClass::Effect(GpuEffect::MotionBlur {
            shutter_angle,
            sub_frames,
        }) => {
            assert!((shutter_angle.num() - 180.0).abs() < 1e-4);
            assert_eq!(sub_frames, 6);
        }
        _ => panic!("expected a MotionBlur GPU effect"),
    }
}

#[test]
fn classify_animated_motion_blur_should_evaluate_the_shutter_at_the_frame_time() {
    let track = keys()
        .push(key(Duration::zero(), 0.0))
        .push(key(Duration::from_secs(1), 360.0)).done();
    let step = FilterStep::MotionBlurAnimated {
        shutter_angle: AnimatedValue::Track(track),
        sub_frames: 6,
    };
    let at = |t: Duration| match classify(&step, t) {
        StepClass::Effect(GpuEffect::MotionBlur { shutter_angle, .. }) => shutter_angle.num(),
        _ => panic!("expected a MotionBlur GPU effect"),
    };
    let quarter = at(Duration::from_millis(250));
    let three_quarters = at(Duration::from_millis(750));
    assert!(
        (quarter - 90.0).abs() < 1.0,
        "a linear 0->360 ramp is 90 at a quarter in, got {quarter}"
    );
    assert!(
        (three_quarters - 270.0).abs() < 1.0,
        "and 270 at three quarters, got {three_quarters}"
    );
}

#[test]
fn classify_animated_motion_blur_zero_shutter_should_skip() {
    let step = FilterStep::MotionBlurAnimated {
        shutter_angle: AnimatedValue::Static(double(0.0)),
        sub_frames: 4,
    };
    assert!(matches!(
        classify(&step, Duration::zero()),
        StepClass::Skip
    ));
}

#[test]
fn classify_motion_blur_zero_shutter_should_skip() {
    let step = FilterStep::MotionBlur {
        shutter_angle_degrees: single(0.0),
        sub_frames: 4,
    };
    assert!(matches!(
        classify(&step, Duration::zero()),
        StepClass::Skip
    ));
}

#[test]
fn colour_wheels_should_come_through_the_filter_step() {
    let channels = |r: f64, g: f64, b: f64| Channels {
        r: Param::Const(double(r)),
        g: Param::Const(double(g)),
        b: Param::Const(double(b)),
    };
    let lifts = [0.1, -0.9999, 0.333_333_333];
    let kind = EffectKind::ColorWheels {
        shadows_lift: channels(lifts[0], lifts[1], lifts[2]),
        midtones_gamma: channels(0.1, 1.0, 10.0),
        highlights_gain: channels(0.0, 4.0, 0.3),
    };
    let step = kind.to_filter_step(double(0.0)).unwrap();
    match classify_step(&step.at(&|v: &AnimatedValue| double(value_at(v, Duration::zero()))),
        Duration::zero())
    {
        StepClass::Effect(GpuEffect::ColorWheels {
            shadows_lift,
            midtones_gamma,
            highlights_gain,
        }) => {
            for (got, want) in
                [shadows_lift.r, shadows_lift.g, shadows_lift.b].iter().zip(lifts.iter())
            {
                assert!((got.num() - want).abs() <= 1e-6, "{want}");
            }
            assert_eq!(
                midtones_gamma,
                Rgb { r: single(0.1), g: single(1.0), b: single(10.0) }
            );
            assert_eq!(
                highlights_gain,
                Rgb { r: single(0.0), g: single(4.0), b: single(0.3) }
            );
        }
        other => panic!("expected colour wheels, got {other:?}"),
    }
}

use avio::filter::{Curve, CurvePoint, Rgb};
use avio::float::single::F32;
use avio::gpu::{
    GpuEffect, GpuLayerPlan, RenderBlendMode, RenderCompositeOp, RenderScaleAlgorithm,
};
use avio::gpu_compositor::{
    assemble, fit_size, layer_transform, letterbox_transform, lut_format, needs_compositor,
    output_size, param_update, EffectCache, LayerTransform, LutFormat, NodeParam, Preparation,
    Reuse,
};

fn single(v: f32) -> F32 {
    F32::from_bits(v.to_bits())
}

fn number(v: F32) -> f32 {
    f32::from_bits(v.to_bits())
}

/// A plan layer with the given placement and nothing else.
fn plan_layer(x: f32, y: f32, scale: (f32, f32), rotation: f32) -> GpuLayerPlan {
    GpuLayerPlan {
        z_order: 0,
        x: single(x),
        y: single(y),
        scale_x: single(scale.0),
        scale_y: single(scale.1),
        rotation: single(rotation),
        opacity: single(1.0),
        blend_mode: RenderBlendMode::Normal,
        composite_op: RenderCompositeOp::Over,
        effects: Vec::new(),
    }
}

/// The canvas pixel box that a placement draws into: `(x0, y0, x1, y1)`.
fn canvas_box(t: &LayerTransform, canvas: (u32, u32)) -> (f32, f32, f32, f32) {
    let (cw, ch) = (canvas.0 as f32, canvas.1 as f32);
    let (sx, sy) = (number(t.scale_x), number(t.scale_y));
    let cx = 0.5 + sx * number(t.x);
    let cy = 0.5 + sy * number(t.y);
    (
        (cx - sx / 2.0) * cw,
        (cy - sy / 2.0) * ch,
        (cx + sx / 2.0) * cw,
        (cy + sy / 2.0) * ch,
    )
}

fn assert_box(got: (f32, f32, f32, f32), want: (f32, f32, f32, f32), what: &str) {
    for (g, w) in [
        (got.0, want.0),
        (got.1, want.1),
        (got.2, want.2),
        (got.3, want.3),
    ] {
        assert!((g - w).abs() < 0.01, "{what}: got {got:?}, want {want:?}");
    }
}

#[test]
fn layer_transform_should_ignore_the_base_layers_own_transform() {
    let fit = letterbox_transform(64, 32, (64, 64)).expect("a 2:1 fit has a band");
    let moved = plan_layer(10.0, 4.0, (0.5, 0.25), 30.0);
    let got = layer_transform(0, &moved, &fit, (64, 32)).expect("the base always places");
    assert_box(
        canvas_box(&got, (64, 64)),
        canvas_box(&fit, (64, 64)),
        "a base layer's own transform must not move it",
    );
}

#[test]
fn layer_transform_should_place_an_overlay_at_the_measured_box() {
    let fit = letterbox_transform(64, 64, (64, 64)).expect("a square fit is the identity");
    let over = plan_layer(10.0, 4.0, (0.5, 0.5), 0.0);
    let got = layer_transform(1, &over, &fit, (64, 64)).expect("an overlay places");
    assert_box(
        canvas_box(&got, (64, 64)),
        (10.0, 4.0, 42.0, 36.0),
        "overlay placement",
    );
}

#[test]
fn layer_transform_should_scale_against_the_base_not_the_canvas() {
    let fit = letterbox_transform(64, 32, (64, 64)).expect("a 2:1 fit has a band");
    let over = plan_layer(0.0, 0.0, (0.5, 0.5), 0.0);
    let got = layer_transform(1, &over, &fit, (64, 32)).expect("an overlay places");
    assert_box(
        canvas_box(&got, (64, 64)),
        (0.0, 16.0, 32.0, 32.0),
        "the multiplier is against the base size",
    );
}

#[test]
fn layer_transform_should_offset_against_the_base_not_the_canvas() {
    let fit = letterbox_transform(64, 32, (64, 64)).expect("a 2:1 fit has a band");
    let over = plan_layer(10.0, 4.0, (0.5, 0.5), 0.0);
    let got = layer_transform(1, &over, &fit, (64, 32)).expect("an overlay places");
    assert_box(
        canvas_box(&got, (64, 64)),
        (10.0, 20.0, 42.0, 36.0),
        "the offset is against the base size",
    );
}

#[test]
fn layer_transform_should_reject_a_rotated_overlay() {
    let fit = letterbox_transform(64, 64, (64, 64)).expect("a square fit is the identity");
    let spun = plan_layer(0.0, 0.0, (1.0, 1.0), 30.0);
    assert!(layer_transform(1, &spun, &fit, (64, 64)).is_none());
    assert!(layer_transform(0, &spun, &fit, (64, 64)).is_some());
}

#[test]
fn layer_transform_should_carry_a_base_fit_offset_through_to_its_overlays() {
    let mut centred = LayerTransform::identity();
    centred.scale_x = single(0.5);
    centred.scale_y = single(0.5);
    let mut shifted = centred;
    shifted.x = single(0.25);
    let over = plan_layer(0.0, 0.0, (1.0, 1.0), 0.0);
    let a = layer_transform(1, &over, &centred, (64, 64)).expect("places");
    let b = layer_transform(1, &over, &shifted, (64, 64)).expect("places");
    let (ax, _, _, _) = canvas_box(&a, (64, 64));
    let (bx, _, _, _) = canvas_box(&b, (64, 64));
    assert!(
        (bx - ax - 8.0).abs() < 0.01,
        "an overlay must follow the base's fit offset: {ax} -> {bx}"
    );
}

#[test]
fn layer_transform_should_reject_an_overlay_that_spills_outside_the_base() {
    let fit = letterbox_transform(64, 64, (64, 64)).expect("a square fit is the identity");
    let inside = plan_layer(10.0, 4.0, (0.5, 0.5), 0.0);
    assert!(layer_transform(1, &inside, &fit, (64, 64)).is_some());
    let over_right = plan_layer(10.0, 0.0, (0.9, 0.5), 0.0);
    assert!(layer_transform(1, &over_right, &fit, (64, 64)).is_none());
    assert!(layer_transform(1, &plan_layer(0.0, 40.0, (0.5, 0.5), 0.0), &fit, (64, 64)).is_none());
    assert!(layer_transform(1, &plan_layer(-1.0, 0.0, (0.5, 0.5), 0.0), &fit, (64, 64)).is_none());
    assert!(layer_transform(1, &plan_layer(32.0, 32.0, (0.5, 0.5), 0.0), &fit, (64, 64)).is_some());
}

#[test]
fn layer_transform_should_reject_a_degenerate_overlay() {
    let fit = letterbox_transform(64, 64, (64, 64)).expect("a square fit is the identity");
    assert!(layer_transform(1, &plan_layer(0.0, 0.0, (0.0, 1.0), 0.0), &fit, (64, 64)).is_none());
    assert!(layer_transform(1, &plan_layer(0.0, 0.0, (1.0, -1.0), 0.0), &fit, (64, 64)).is_none());
    assert!(layer_transform(1, &plan_layer(0.0, 0.0, (1.0, 1.0), 0.0), &fit, (0, 64)).is_none());
}

#[test]
fn fit_size_should_letterbox_a_wide_frame() {
    assert_eq!(fit_size(64, 36, (64, 64)), (64, 36));
}

#[test]
fn fit_size_should_pillarbox_a_tall_frame() {
    assert_eq!(fit_size(36, 64, (64, 64)), (36, 64));
}

#[test]
fn fit_size_should_round_down_to_an_even_size() {
    assert_eq!(fit_size(30, 20, (100, 100)), (100, 66));
}

#[test]
fn fit_size_should_give_the_canvas_for_a_frame_without_area() {
    assert_eq!(fit_size(0, 20, (33, 17)), (33, 17));
    assert_eq!(fit_size(20, 0, (33, 17)), (33, 17));
}

#[test]
fn fit_size_should_hold_the_largest_sizes() {
    assert_eq!(
        fit_size(u32::MAX, u32::MAX, (u32::MAX, u32::MAX)),
        (u32::MAX - 1, u32::MAX - 1)
    );
}

#[test]
fn letterbox_transform_should_scale_only_the_fitted_axis() {
    let t = letterbox_transform(64, 36, (64, 64)).expect("a 16:9 fit has a band");
    let (sx, sy) = (number(t.scale_x), number(t.scale_y));
    assert!((sx - 1.0).abs() < 1e-6, "full width: {sx}");
    assert!((sy - 0.5625).abs() < 1e-6, "36/64: {sy}");
    assert!(
        number(t.x).abs() < 1e-6 && number(t.y).abs() < 1e-6 && number(t.rotation).abs() < 1e-6
    );
}

#[test]
fn letterbox_transform_should_be_identity_for_a_canvas_aspect_frame() {
    let same = letterbox_transform(64, 48, (64, 48)).expect("a matching aspect fits");
    assert_eq!(same, LayerTransform::identity());
    let larger = letterbox_transform(1920, 1080, (64, 36)).expect("a matching aspect fits");
    assert_eq!(larger, LayerTransform::identity());
}

#[test]
fn letterbox_transform_should_reject_a_fit_that_rounds_away_to_nothing() {
    assert_eq!(fit_size(4096, 64, (64, 64)), (64, 0));
    assert!(letterbox_transform(4096, 64, (64, 64)).is_none());
    assert_eq!(fit_size(64, 4096, (64, 64)), (0, 64));
    assert!(letterbox_transform(64, 4096, (64, 64)).is_none());
}

fn rect(x: u32, y: u32, invert: bool) -> GpuEffect {
    GpuEffect::ShapeMask { x, y, width: 10, height: 10, invert }
}

#[test]
fn a_moved_rectangle_should_reuse_the_graph_with_a_parameter() {
    let was = vec![rect(0, 0, false)];
    let now = vec![rect(5, 2, true)];
    let Some(Reuse::WithParams(params)) = param_update(&was, &now) else {
        panic!("a moved rectangle must reuse the cached graph");
    };
    assert!(
        matches!(
            params.as_slice(),
            [NodeParam::ShapeMaskRect { x: 5, y: 2, width: 10, height: 10, invert: true }]
        ),
        "the whole rectangle must travel to the live node, got {params:?}"
    );
}

#[test]
fn an_unchanged_rectangle_should_reuse_the_graph_as_is() {
    let effects = vec![rect(5, 2, false)];
    assert!(
        matches!(param_update(&effects, &effects), Some(Reuse::AsIs)),
        "an unchanged rectangle must run the graph as it stands"
    );
}

#[test]
fn a_luma_mask_should_be_cacheable() {
    let effects = vec![GpuEffect::LumaMask { invert: false }];
    assert!(
        matches!(param_update(&effects, &effects), Some(Reuse::AsIs)),
        "a luma mask must reuse its cached graph"
    );
}

fn trail(shutter: f32, sub_frames: u8) -> GpuEffect {
    GpuEffect::MotionBlur { shutter_angle: single(shutter), sub_frames }
}

fn blur(sigma: f32) -> GpuEffect {
    GpuEffect::Blur { sigma: single(sigma) }
}

#[test]
fn a_changed_shutter_should_travel_to_the_live_node() {
    assert_eq!(
        param_update(&vec![blur(2.0), trail(90.0, 4)], &vec![blur(2.0), trail(180.0, 4)]),
        Some(Reuse::WithParams(vec![NodeParam::MotionBlurShutter(single(180.0))]))
    );
    assert_eq!(
        param_update(&vec![trail(0.0, 4)], &vec![trail(-0.0, 4)]),
        Some(Reuse::WithParams(vec![NodeParam::MotionBlurShutter(single(-0.0))])),
        "the shutter is compared bit by bit"
    );
    assert_eq!(
        param_update(&vec![trail(f32::NAN, 4)], &vec![trail(f32::NAN, 4)]),
        Some(Reuse::AsIs)
    );
}

#[test]
fn anything_built_into_a_node_should_rebuild_the_graph() {
    assert_eq!(param_update(&vec![trail(90.0, 4)], &vec![trail(90.0, 5)]), None);
    assert_eq!(param_update(&vec![blur(1.0)], &vec![blur(2.0)]), None);
    assert_eq!(param_update(&vec![blur(1.0)], &vec![]), None);
    assert_eq!(param_update(&vec![blur(1.0)], &vec![rect(0, 0, false)]), None);
    assert_eq!(
        param_update(&vec![blur(f32::NAN)], &vec![blur(f32::NAN)]),
        None,
        "an undefined number equals nothing"
    );
    assert_eq!(
        param_update(&vec![blur(0.0)], &vec![blur(-0.0)]),
        Some(Reuse::AsIs),
        "the two zeros are equal"
    );
}

#[test]
fn curves_and_colours_are_compared_by_their_numbers() {
    let curve = |y: f32| Curve::new(vec![CurvePoint { input: single(0.5), output: single(y) }]);
    let curves = |y: f32| GpuEffect::Curves {
        master: curve(y),
        red: Curve::new(vec![]),
        green: Curve::new(vec![]),
        blue: Curve::new(vec![]),
    };
    assert_eq!(param_update(&vec![curves(0.25)], &vec![curves(0.25)]), Some(Reuse::AsIs));
    assert_eq!(param_update(&vec![curves(0.25)], &vec![curves(0.75)]), None);
    let lut = |path: &str| GpuEffect::Lut { path: path.to_string() };
    assert_eq!(param_update(&vec![lut("a.cube")], &vec![lut("a.cube")]), Some(Reuse::AsIs));
    assert_eq!(param_update(&vec![lut("a.cube")], &vec![lut("b.cube")]), None);
    let key = |g: f32| GpuEffect::ChromaKey {
        key_color: Rgb { r: single(0.0), g: single(g), b: single(0.0) },
        tolerance: single(0.25),
        softness: single(0.125),
    };
    assert_eq!(param_update(&vec![key(1.0)], &vec![key(1.0)]), Some(Reuse::AsIs));
    assert_eq!(param_update(&vec![key(1.0)], &vec![key(0.5)]), None);
}

fn scale(width: u32, height: u32) -> GpuEffect {
    GpuEffect::Scale { width, height, algorithm: RenderScaleAlgorithm::Bilinear }
}

#[test]
fn output_size_should_follow_the_last_scale_with_both_sides() {
    assert_eq!(output_size(&vec![], (64, 36)), (64, 36));
    assert_eq!(output_size(&vec![blur(1.0), scale(32, 18)], (64, 36)), (32, 18));
    assert_eq!(output_size(&vec![scale(32, 18), scale(0, 9)], (64, 36)), (32, 18));
    assert_eq!(output_size(&vec![scale(0, 0)], (64, 36)), (64, 36));
}

#[test]
fn effect_cache_should_build_once_and_then_reuse() {
    let mut cache = EffectCache::new();
    let effects = vec![scale(32, 18), trail(90.0, 4)];
    assert_eq!(
        cache.prepare(2, 1, (64, 36), &effects),
        Preparation::Build { out_size: (32, 18) }
    );
    cache.record(2, 1, (64, 36), &effects);
    assert_eq!(
        cache.prepare(2, 1, (64, 36), &effects),
        Preparation::Reuse { params: vec![], out_size: (32, 18) }
    );
    let wider = vec![scale(32, 18), trail(180.0, 4)];
    assert_eq!(
        cache.prepare(2, 1, (64, 36), &wider),
        Preparation::Reuse {
            params: vec![NodeParam::MotionBlurShutter(single(180.0))],
            out_size: (32, 18)
        }
    );
    cache.record(2, 1, (64, 36), &wider);
    assert_eq!(
        cache.prepare(2, 1, (64, 36), &wider),
        Preparation::Reuse { params: vec![], out_size: (32, 18) },
        "the next frame is compared with what the nodes hold"
    );
}

#[test]
fn effect_cache_should_keep_stacks_and_sizes_apart() {
    let mut cache = EffectCache::new();
    let effects = vec![blur(1.0)];
    cache.record(1, 0, (64, 36), &effects);
    cache.record(2, 0, (64, 36), &vec![blur(2.0)]);
    let build = Preparation::Build { out_size: (64, 36) };
    assert_eq!(cache.prepare(3, 0, (64, 36), &effects), build);
    assert_eq!(cache.prepare(2, 1, (64, 36), &effects), build);
    assert_eq!(cache.prepare(2, 0, (64, 36), &effects), build);
    assert_eq!(
        cache.prepare(1, 0, (32, 36), &effects),
        Preparation::Build { out_size: (32, 36) }
    );
    assert_eq!(
        cache.prepare(1, 0, (64, 36), &effects),
        Preparation::Reuse { params: vec![], out_size: (64, 36) }
    );
    cache.reset_effect_cache();
    assert_eq!(cache.prepare(1, 0, (64, 36), &effects), build);
}

#[test]
fn assemble_should_place_the_whole_stack_or_nothing() {
    let base = plan_layer(5.0, 5.0, (2.0, 2.0), 45.0);
    let mut over = plan_layer(10.0, 4.0, (0.5, 0.5), 0.0);
    over.z_order = 1;
    over.opacity = single(0.25);
    over.blend_mode = RenderBlendMode::Multiply;
    let plans = vec![base, over];
    let placed = assemble(&plans, (64, 32), (64, 64)).expect("both layers place");
    assert_eq!(placed.len(), 2);
    assert_eq!(
        Some(placed[0].transform),
        letterbox_transform(64, 32, (64, 64))
    );
    assert_box(
        canvas_box(&placed[1].transform, (64, 64)),
        (10.0, 20.0, 42.0, 36.0),
        "the overlay lies on the base's band",
    );
    assert_eq!(placed[1].blend_mode, RenderBlendMode::Multiply);
    assert_eq!(placed[1].opacity, single(0.25));
    assert_eq!(placed[1].z_order, 1);

    let spun = vec![
        plan_layer(0.0, 0.0, (1.0, 1.0), 0.0),
        plan_layer(0.0, 0.0, (1.0, 1.0), 30.0),
    ];
    assert!(assemble(&spun, (64, 64), (64, 64)).is_none());
    assert!(assemble(&vec![], (64, 64), (64, 64)).is_none());
    assert!(assemble(&plans, (4096, 64), (64, 64)).is_none());
}

#[test]
fn a_compositor_is_made_once_for_a_canvas() {
    assert!(needs_compositor(None, (64, 36)));
    assert!(needs_compositor(Some((64, 64)), (64, 36)));
    assert!(!needs_compositor(Some((64, 36)), (64, 36)));
}

#[test]
fn lut_formats_go_by_extension_in_any_case() {
    assert_eq!(lut_format(Some("cube")), Some(LutFormat::Cube));
    assert_eq!(lut_format(Some("CuBe")), Some(LutFormat::Cube));
    assert_eq!(lut_format(Some("3DL")), Some(LutFormat::ThreeDl));
    assert_eq!(lut_format(Some("png")), None);
    assert_eq!(lut_format(Some("cubes")), None);
    assert_eq!(lut_format(None), None);
}

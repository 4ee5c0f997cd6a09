use avio::derive::RealtimeLayerDescriptor;
use avio::filter::{BlendMode, CompositeOp, FilterStep, ScaleAlgorithm};
use avio::float::double::F64;
use avio::float::single::F32;
use avio::gpu_compositor::{
    table_format, GpuCompositor, LutFormat, NodeParam, Pass, PassAct, PassEvent, PassStage,
};
use avio::time::Duration;

type Layer = RealtimeLayerDescriptor<F64>;

fn double(v: f64) -> F64 {
    F64::from_bits(v.to_bits())
}

fn single(v: f32) -> F32 {
    F32::from_bits(v.to_bits())
}

fn layer(effects: Vec<FilterStep<F64>>) -> Layer {
    RealtimeLayerDescriptor {
        effects,
        opacity: double(1.0),
        x: double(0.0),
        y: double(0.0),
        scale_x: double(1.0),
        scale_y: double(1.0),
        rotation: double(0.0),
        blend_mode: BlendMode::Normal,
        composite_op: CompositeOp::Over,
    }
}

fn blur(sigma: f32) -> FilterStep<F64> {
    FilterStep::GBlur { sigma: single(sigma) }
}

fn trail(angle: f32) -> FilterStep<F64> {
    FilterStep::MotionBlur { shutter_angle_degrees: single(angle), sub_frames: 4 }
}

fn begin(core: &mut GpuCompositor, layers: &[Layer]) -> (Pass, PassAct) {
    let sizes = vec![(64, 36); layers.len()];
    core.composite(layers, sizes, (64, 36), Duration::zero()).unwrap()
}

/// Runs a pass to its end with nothing failing, and lists what it asked for.
fn finish(core: &mut GpuCompositor, layers: &[Layer]) -> Vec<PassAct> {
    let (mut pass, first) = begin(core, layers);
    let mut acts = vec![first];
    while pass.stage != PassStage::Over {
        let next = core.step(&mut pass, PassEvent::Done);
        acts.push(next);
    }
    acts
}

#[test]
fn plain_layers_should_be_composed_at_once() {
    let mut core = GpuCompositor::new();
    let acts = finish(&mut core, &[layer(vec![]), layer(vec![])]);
    assert_eq!(acts.len(), 2);
    match &acts[0] {
        PassAct::Compose { layers, remake } => {
            assert_eq!(layers.len(), 2);
            assert!(*remake, "no compositor was made yet");
        }
        other => panic!("expected a composition, got {other:?}"),
    }
    assert_eq!(acts[1], PassAct::Show);
    let again = finish(&mut core, &[layer(vec![])]);
    assert!(matches!(&again[0], PassAct::Compose { remake: false, .. }));
}

#[test]
fn effects_should_be_built_once_and_run_again() {
    let mut core = GpuCompositor::new();
    let stack = [layer(vec![]), layer(vec![blur(2.0)])];
    let first = finish(&mut core, &stack);
    assert_eq!(first[0], PassAct::Read { layer: 1 });
    assert_eq!(first[1], PassAct::Build { layer: 1 });
    assert_eq!(first[2], PassAct::Run { layer: 1, out_size: (64, 36) });
    let second = finish(&mut core, &stack);
    assert_eq!(second[1], PassAct::Adjust { layer: 1, params: vec![] });
    assert_eq!(second[2], PassAct::Run { layer: 1, out_size: (64, 36) });
    let changed = finish(&mut core, &[layer(vec![]), layer(vec![blur(3.0)])]);
    assert_eq!(changed[1], PassAct::Build { layer: 1 });
    let alone = finish(&mut core, &[layer(vec![blur(3.0)])]);
    assert_eq!(alone[1], PassAct::Build { layer: 0 }, "another stack is another place");
    core.reset_effect_cache();
    let cut = finish(&mut core, &[layer(vec![blur(3.0)])]);
    assert_eq!(cut[1], PassAct::Build { layer: 0 });
}

#[test]
fn a_live_node_should_take_its_parameter_or_be_built_anew() {
    let mut core = GpuCompositor::new();
    finish(&mut core, &[layer(vec![trail(180.0)])]);
    let (mut pass, first) = begin(&mut core, &[layer(vec![trail(90.0)])]);
    assert_eq!(first, PassAct::Read { layer: 0 });
    assert_eq!(
        core.step(&mut pass, PassEvent::Done),
        PassAct::Adjust { layer: 0, params: vec![NodeParam::MotionBlurShutter(single(90.0))] }
    );
    assert_eq!(core.step(&mut pass, PassEvent::Failed), PassAct::Build { layer: 0 });
    assert_eq!(
        core.step(&mut pass, PassEvent::Done),
        PassAct::Run { layer: 0, out_size: (64, 36) }
    );
}

#[test]
fn a_resized_base_should_set_the_fit() {
    let mut core = GpuCompositor::new();
    let small = FilterStep::Scale { width: 16, height: 16, algorithm: ScaleAlgorithm::Bilinear };
    let acts = finish(&mut core, &[layer(vec![small])]);
    assert_eq!(acts[2], PassAct::Run { layer: 0, out_size: (16, 16) });
    let plain = finish(&mut core, &[layer(vec![])]);
    match (&acts[3], &plain[0]) {
        (PassAct::Compose { layers: square, .. }, PassAct::Compose { layers: wide, .. }) => {
            assert_ne!(square[0].transform, wide[0].transform, "a square base is pillarboxed");
        }
        other => panic!("expected two compositions, got {other:?}"),
    }
}

#[test]
fn every_other_failure_should_give_the_frame_up() {
    for failing in 0..4_usize {
        let mut core = GpuCompositor::new();
        let (mut pass, _) = begin(&mut core, &[layer(vec![blur(2.0)])]);
        for _ in 0..failing {
            core.step(&mut pass, PassEvent::Done);
        }
        assert_eq!(core.step(&mut pass, PassEvent::Failed), PassAct::GiveUp, "step {failing}");
        assert_eq!(pass.stage, PassStage::Over);
    }
}

#[test]
fn what_does_not_map_or_has_no_place_should_be_left_to_the_cpu() {
    let mut core = GpuCompositor::new();
    let odd = FilterStep::Other { spelling: "hflip".to_string() };
    let sizes = vec![(64, 36)];
    assert!(core.composite(&[layer(vec![odd])], sizes, (64, 36), Duration::zero()).is_none());
    let mut tilted = layer(vec![]);
    tilted.rotation = double(30.0);
    let (pass, act) = begin(&mut core, &[layer(vec![]), tilted]);
    assert_eq!((pass.stage, act), (PassStage::Over, PassAct::GiveUp));
    let (_, nothing) = begin(&mut core, &[]);
    assert_eq!(nothing, PassAct::GiveUp);
}

fn table(path: &str) -> FilterStep<F64> {
    FilterStep::Lut3d { path: path.to_string() }
}

#[test]
fn a_table_should_be_read_by_its_extension() {
    assert_eq!(table_format("looks/warm.cube"), Some(LutFormat::Cube));
    assert_eq!(table_format("WARM.CUBE"), Some(LutFormat::Cube));
    assert_eq!(table_format("a.b.3Dl"), Some(LutFormat::ThreeDl));
    assert_eq!(table_format("warm.cube/"), Some(LutFormat::Cube));
    for path in ["warm", "warm.png", ".cube", "looks.cube/warm", "warm.cube.", "", "/", "a/.."] {
        assert_eq!(table_format(path), None, "{path}");
    }
}

#[test]
fn a_table_of_no_known_format_should_give_the_frame_up() {
    let mut core = GpuCompositor::new();
    let (mut pass, first) = begin(&mut core, &[layer(vec![blur(2.0), table("warm.png")])]);
    assert_eq!(first, PassAct::Read { layer: 0 });
    assert_eq!(core.step(&mut pass, PassEvent::Done), PassAct::GiveUp);
    assert_eq!(pass.stage, PassStage::Over);
    let known = finish(&mut core, &[layer(vec![blur(2.0), table("warm.cube")])]);
    assert_eq!(known[1], PassAct::Build { layer: 0 });
}

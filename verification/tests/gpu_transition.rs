use avio::filter::{Rgb, XfadeTransition};
use avio::float::single::F32;
use avio::gpu_transition::{map_transition, GpuTransition};

fn single(v: f32) -> F32 {
    F32::from_bits(v.to_bits())
}

fn number(v: F32) -> f32 {
    f32::from_bits(v.to_bits())
}

fn wipe(angle: f32) -> GpuTransition {
    GpuTransition::Wipe { angle: single(angle) }
}

fn dip(v: f32) -> GpuTransition {
    GpuTransition::Dip { color: Rgb { r: single(v), g: single(v), b: single(v) } }
}

/// Every kind that maps to a GPU node, with the node it maps to.
fn mapped_kinds() -> Vec<(XfadeTransition, GpuTransition)> {
    vec![
        (XfadeTransition::Fade, GpuTransition::Fade),
        (XfadeTransition::Dissolve, GpuTransition::Dissolve),
        (XfadeTransition::WipeRight, wipe(std::f32::consts::PI)),
        (XfadeTransition::WipeLeft, wipe(0.0)),
        (XfadeTransition::WipeDown, wipe(-std::f32::consts::FRAC_PI_2)),
        (XfadeTransition::WipeUp, wipe(std::f32::consts::FRAC_PI_2)),
        (XfadeTransition::FadeBlack, dip(0.0)),
        (XfadeTransition::FadeWhite, dip(1.0)),
    ]
}

/// Every kind kept on the CPU path.
fn cpu_only_kinds() -> Vec<XfadeTransition> {
    vec![
        XfadeTransition::SlideLeft,
        XfadeTransition::SlideRight,
        XfadeTransition::SlideUp,
        XfadeTransition::SlideDown,
        XfadeTransition::CircleOpen,
        XfadeTransition::CircleClose,
        XfadeTransition::FadeGrays,
        XfadeTransition::Pixelize,
    ]
}

#[test]
fn map_transition_should_return_the_recorded_node_for_every_mapped_kind() {
    for (kind, want) in mapped_kinds() {
        assert_eq!(map_transition(kind), Some(want), "{kind:?} should map to {want:?}");
    }
}

#[test]
fn map_transition_should_return_none_for_every_cpu_only_kind() {
    for kind in cpu_only_kinds() {
        assert_eq!(
            map_transition(kind),
            None,
            "{kind:?} has no GPU node and must fall back to CPU"
        );
    }
    assert_eq!(map_transition(XfadeTransition::Other(3)), None);
}

#[test]
fn mapped_and_cpu_only_kinds_should_not_overlap() {
    let cpu_only = cpu_only_kinds();
    for (kind, _) in mapped_kinds() {
        assert!(
            !cpu_only.contains(&kind),
            "{kind:?} is listed as both mapped and CPU-only"
        );
    }
}

#[test]
fn wipe_angles_should_oppose_their_named_direction() {
    let angle_of = |kind| match map_transition(kind) {
        Some(GpuTransition::Wipe { angle }) => number(angle),
        other => panic!("{kind:?} must map to a wipe, got {other:?}"),
    };
    assert!(
        angle_of(XfadeTransition::WipeRight).cos() < -0.99,
        "wiperight reveals B from the left, so its axis points -x"
    );
    assert!(
        angle_of(XfadeTransition::WipeLeft).cos() > 0.99,
        "wipeleft reveals B from the right, so its axis points +x"
    );
    assert!(
        angle_of(XfadeTransition::WipeDown).sin() < -0.99,
        "wipedown reveals B from the top, so its axis points -y"
    );
    assert!(
        angle_of(XfadeTransition::WipeUp).sin() > 0.99,
        "wipeup reveals B from the bottom, so its axis points +y"
    );
}

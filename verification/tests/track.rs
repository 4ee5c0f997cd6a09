use avio::filter::{AnimationTrack, FilterStep};
use avio::float::double::F64;
use avio::track::{AudioProperty, Track, TrackAutomation, VideoProperty};

fn double(v: f64) -> F64 {
    F64::from_bits(v.to_bits())
}

fn number(v: F64) -> f64 {
    f64::from_bits(v.to_bits())
}

#[test]
fn is_active_should_reflect_enabled_mute_solo() {
    assert!(Track::new(vec![]).is_active(false));
    assert!(!Track::new(vec![]).enabled(false).is_active(false));
    assert!(!Track::new(vec![]).muted(true).is_active(false));
    assert!(!Track::new(vec![]).is_active(true));
    assert!(Track::new(vec![]).soloed(true).is_active(true));
    assert!(
        !Track::new(vec![])
            .soloed(true)
            .enabled(false)
            .is_active(true)
    );
}

#[test]
fn new_track_should_have_empty_audio_effects() {
    assert!(Track::new(vec![]).audio_effects.is_empty());
}

#[test]
fn audio_effects_builder_should_set_chain() {
    let track = Track::new(vec![]).audio_effects(vec![FilterStep::Volume { gain_db: double(-6.0) }]);
    assert_eq!(track.audio_effects.len(), 1);
    assert!(matches!(
        track.audio_effects[0],
        FilterStep::Volume { gain_db } if (number(gain_db) - (-6.0)).abs() < 1e-9
    ));
}

#[test]
fn new_track_should_have_empty_automation() {
    let a = TrackAutomation::default();
    assert!(a.opacity.is_none() && a.x.is_none() && a.volume.is_none() && a.pan.is_none());
}

#[test]
fn with_animation_builders_should_set_each_property() {
    let track = Track::new(vec![])
        .with_opacity_animation(AnimationTrack::new(vec![]))
        .with_x_animation(AnimationTrack::new(vec![]))
        .with_y_animation(AnimationTrack::new(vec![]))
        .with_scale_x_animation(AnimationTrack::new(vec![]))
        .with_scale_y_animation(AnimationTrack::new(vec![]))
        .with_rotation_animation(AnimationTrack::new(vec![]))
        .with_volume_animation(AnimationTrack::new(vec![]))
        .with_pan_animation(AnimationTrack::new(vec![]));
    let a = &track.automation;
    assert!(a.opacity.is_some(), "opacity set");
    assert!(a.x.is_some() && a.y.is_some(), "position set");
    assert!(a.scale_x.is_some() && a.scale_y.is_some(), "scale set");
    assert!(a.rotation.is_some(), "rotation set");
    assert!(a.volume.is_some() && a.pan.is_some(), "audio set");
}

#[test]
fn set_video_and_set_audio_should_target_the_right_slot() {
    let mut a = TrackAutomation::default();
    a.set_video(VideoProperty::ScaleY, AnimationTrack::new(vec![]));
    a.set_audio(AudioProperty::Pan, AnimationTrack::new(vec![]));
    assert!(a.scale_y.is_some(), "set_video hits scale_y");
    assert!(a.pan.is_some(), "set_audio hits pan");
    assert!(
        a.scale_x.is_none() && a.volume.is_none(),
        "no other slot touched"
    );
}

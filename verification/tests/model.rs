use avio::clip::{Clip, ClipSource, FitMode};
use avio::effect::{ClipEffect, EffectKind, Param};
use avio::filter::{
    AnimatedValue, AnimationTrack, BlendMode, Color, Easing, FilterStep, Keyframe, XfadeTransition,
};
use avio::float::double::F64;
use avio::float::single::F32;
use avio::ids::{ClipId, EffectId, GroupId, MarkerId, TrackId};
use avio::keys::{
    audio_key_text, find_animation, is_audio_key, is_video_key, register, unknown_names,
    video_key_text, NamedAnimation,
};
use avio::marker::Marker;
use avio::time::Duration;
use avio::track::{AudioProperty, VideoProperty};
use std::sync::Arc;

fn double(v: f64) -> F64 {
    F64::from_bits(v.to_bits())
}

fn single(v: f32) -> F32 {
    F32::from_bits(v.to_bits())
}

fn number(v: F64) -> f64 {
    f64::from_bits(v.to_bits())
}

fn key(value: f64) -> AnimationTrack {
    AnimationTrack::new(vec![Keyframe {
        timestamp: Duration::zero(),
        value: double(value),
        easing: Easing::Linear,
    }])
}

fn flip(spelling: &str) -> FilterStep<AnimatedValue> {
    FilterStep::Other { spelling: spelling.to_string() }
}

#[test]
fn spans_should_add_and_subtract_within_their_range() {
    let one = Duration::from_secs(1);
    let half = Duration::from_millis(500);
    assert_eq!(one.checked_sub(half), Some(half));
    assert_eq!(half.checked_sub(one), None);
    assert_eq!(half.saturating_sub(one), Duration::zero());
    assert_eq!(half.checked_add(half), Some(one));
    let most = Duration::from_secs(u64::MAX);
    assert_eq!(most.checked_add(one), None);
    assert_eq!(most.saturating_add(one).nanos, std::time::Duration::MAX.as_nanos());
    assert!(Duration::zero().is_zero() && !half.is_zero());
    assert_eq!(Duration::from_nanos(2_999_999).as_millis(), 2);
}

#[test]
fn seconds_should_be_those_of_the_standard_library() {
    for nanos in [0_u64, 1, 999_999_999, 1_000_000_000, 1_234_567_891, u64::MAX] {
        let want = std::time::Duration::from_nanos(nanos).as_secs_f64();
        assert_eq!(number(Duration::from_nanos(nanos).as_secs_f64()), want, "{nanos}");
    }
    let values = [
        0.0,
        -0.0,
        -1e-12,
        1e-9,
        1.5e-9,
        2.5e-9,
        0.033_366_7,
        1.0 / 3.0,
        86_400.5,
        1.8e19,
        1.9e19,
        f64::INFINITY,
        f64::NAN,
    ];
    for v in values {
        let want = std::time::Duration::try_from_secs_f64(v).ok().map(|d| d.as_nanos());
        let got = Duration::try_from_secs_f64(double(v)).map(|d| d.nanos);
        assert_eq!(got, want, "{v:e}");
    }
}

#[test]
fn identities_should_be_set_unless_zero() {
    assert!(!ClipId::unset().is_set() && ClipId::from_raw(7).is_set());
    assert!(!TrackId::unset().is_set() && TrackId::from_raw(7).is_set());
    assert!(!GroupId::unset().is_set() && GroupId::from_raw(7).is_set());
    assert!(!MarkerId::unset().is_set() && MarkerId::from_raw(7).is_set());
    assert!(!EffectId::unset().is_set() && EffectId::from_raw(7).is_set());
    assert_eq!(ClipId::from_raw(0), ClipId::unset());
    assert_ne!(ClipId::from_raw(1), ClipId::from_raw(2));
}

#[test]
fn markers_should_be_bare_until_told_otherwise() {
    let bare = Marker::new(Duration::from_secs(3));
    assert_eq!(bare.id, MarkerId::unset());
    assert_eq!(bare.pts, Duration::from_secs(3));
    assert_eq!((bare.name.clone(), bare.color, bare.comment.clone()), (None, None, None));
    let full = bare
        .with_name("intro".to_string())
        .with_color(Color::rgb(1, 2, 3))
        .with_comment("cut here".to_string());
    assert_eq!(full.name.as_deref(), Some("intro"));
    assert_eq!(full.color, Some(Color::rgb(1, 2, 3)));
    assert_eq!(full.comment.as_deref(), Some("cut here"));
    assert_eq!(full.clone(), full);
}

#[test]
fn a_new_clip_should_change_nothing_about_its_source() {
    let clip = Clip::new("a.mp4".to_string());
    assert_eq!(clip.source, ClipSource::File("a.mp4".to_string()));
    assert_eq!(clip.source_path(), Some("a.mp4".to_string()));
    assert_eq!(clip.duration(), None);
    assert_eq!(clip.speed, double(1.0));
    assert_eq!(clip.opacity, single(1.0));
    assert_eq!(clip.scale, double(1.0));
    assert_eq!(clip.fit, FitMode::Native);
    assert_eq!(clip.blend_mode, BlendMode::Normal);
    assert!(clip.video_effects.is_empty() && clip.effects.is_empty());
    assert_eq!(Clip::solid(Color::rgb(1, 2, 3)).source_path(), None);
}

#[test]
fn setters_should_change_their_own_field() {
    let clip = Clip::new("a.mp4".to_string())
        .trim(Duration::from_secs(2), Duration::from_secs(5))
        .offset(Duration::from_secs(9))
        .with_speed(double(2.0))
        .with_opacity(single(1.5))
        .with_scale(double(0.5))
        .with_rotation(double(90.0))
        .with_fit(FitMode::Fill)
        .with_blend_mode(BlendMode::Screen)
        .with_color_correction(single(0.1), single(1.2), single(0.8))
        .with_transition(XfadeTransition::Fade, Duration::from_millis(250))
        .with_fade_in(Duration::from_millis(10))
        .with_fade_out(Duration::from_millis(20))
        .volume(double(-3.0))
        .pan(double(0.25))
        .with_pitch(double(2.0));
    assert_eq!(clip.duration(), Some(Duration::from_secs(3)));
    assert_eq!(clip.offset, Duration::from_secs(9));
    assert_eq!(clip.speed, double(2.0));
    assert_eq!(clip.opacity, single(1.0), "held at one");
    assert_eq!((clip.scale, clip.rotation), (double(0.5), double(90.0)));
    assert_eq!((clip.fit, clip.blend_mode), (FitMode::Fill, BlendMode::Screen));
    assert_eq!(
        (clip.brightness, clip.contrast, clip.saturation),
        (single(0.1), single(1.2), single(0.8))
    );
    assert_eq!(clip.transition, Some(XfadeTransition::Fade));
    assert_eq!(clip.transition_duration, Duration::from_millis(250));
    assert_eq!(clip.fade_in, Duration::from_millis(10));
    assert_eq!(clip.fade_out, Duration::from_millis(20));
    assert_eq!((clip.volume_db, clip.pan, clip.pitch), (double(-3.0), double(0.25), double(2.0)));
    let backwards =
        Clip::new("a.mp4".to_string()).trim(Duration::from_secs(5), Duration::from_secs(2));
    assert_eq!(backwards.duration(), Some(Duration::zero()));
}

#[test]
fn a_copied_clip_should_keep_its_keyframes_and_effects() {
    let mut clip = Clip::new("a.mp4".to_string())
        .with_volume_track(key(-6.0))
        .with_scale_track(key(0.5))
        .with_rotation_track(key(45.0))
        .with_pitch_track(key(3.0))
        .with_video_effect(flip("hflip"))
        .with_video_effect(flip("vflip"));
    clip.effects = Arc::new(vec![ClipEffect::new(EffectKind::LumaMask { invert: true })]);
    let copy = clip.clone();
    assert_eq!(copy, clip);
    assert_eq!(copy.volume_track, Some(key(-6.0)));
    assert_eq!(copy.video_effects.len(), 2);
    assert_eq!(copy.effects[0].kind, EffectKind::LumaMask { invert: true });
}

#[test]
fn chains_should_hold_enabled_effects_of_their_stream_in_order() {
    let mut clip = Clip::new("a.mp4".to_string()).with_video_effect(flip("hflip"));
    let mut off = ClipEffect::new(EffectKind::Blur { radius: Param::Const(double(9.0)) });
    off.enabled = false;
    clip.effects = Arc::new(vec![
        ClipEffect::new(EffectKind::Blur { radius: Param::Const(double(2.0)) }),
        off,
        ClipEffect::new(EffectKind::Volume { gain_db: Param::Const(double(-6.0)) }),
        ClipEffect::new(EffectKind::MotionBlur {
            shutter_angle: Param::Animated(key(180.0)),
            sub_frames: 4,
        }),
    ]);
    let starts = vec![double(0.0), double(0.0), double(0.0), double(180.0)];
    let video = clip.video_effect_chain(&starts);
    assert_eq!(video.len(), 3);
    assert_eq!(video[0], flip("hflip"));
    assert!(matches!(video[1], FilterStep::GBlur { sigma } if sigma == single(2.0)));
    assert!(matches!(
        video[2],
        FilterStep::MotionBlur { shutter_angle_degrees, sub_frames: 4 }
            if shutter_angle_degrees == single(180.0)
    ));
    assert_eq!(clip.audio_effect_chain(&starts), vec![FilterStep::Volume { gain_db: double(-6.0) }]);
}

#[test]
fn a_step_should_be_read_at_a_time() {
    let step = FilterStep::GBlurAnimated { sigma: AnimatedValue::Track(key(4.0)) };
    let read = step.at(&|v: &AnimatedValue| match v {
        AnimatedValue::Static(x) => *x,
        AnimatedValue::Track(t) => t.keyframes[0].value,
    });
    assert_eq!(read, FilterStep::GBlurAnimated { sigma: double(4.0) });
}

#[test]
fn the_last_registered_animation_should_be_found() {
    let list: Vec<NamedAnimation> = Vec::new();
    let list = register(list, "video_0_x".to_string(), key(1.0));
    let list = register(list, "video_0_y".to_string(), key(2.0));
    let list = register(list, "video_0_x".to_string(), key(3.0));
    assert_eq!(list.len(), 2);
    assert_eq!(find_animation(&list, &"video_0_x".to_string()), Some(key(3.0)));
    assert_eq!(find_animation(&list, &"video_0_y".to_string()), Some(key(2.0)));
    assert_eq!(find_animation(&list, &"video_1_x".to_string()), None);
}

#[test]
fn animation_names_should_be_recognised_by_their_parts() {
    let video = |k: &str| is_video_key(&k.to_string());
    for known in
        ["video_0_x", "video_12_scale_x", "video_7_opacity", "video_+3_y", "video_007_rotation"]
    {
        assert!(video(known), "{known}");
    }
    let unknown = [
        "video_0_volume",
        "video__x",
        "video_+_x",
        "video_-1_x",
        "video_1a_x",
        "video_1",
        "video_1_",
        "video",
        "Video_1_x",
        "audio_0_x",
        "video_0_scale_x_",
        "video_99999999999999999999999_x",
        "",
    ];
    for name in unknown {
        assert!(!video(name), "{name}");
    }
    assert!(video(&format!("video_{}_x", usize::MAX)));
    assert!(is_audio_key(&"audio_3_pan".to_string()));
    assert!(!is_audio_key(&"audio_3_x".to_string()));
    for i in [0_usize, 9, 10, 12_345, usize::MAX] {
        assert!(video(&video_key_text(i, VideoProperty::ScaleY)));
        assert!(is_audio_key(&audio_key_text(i, AudioProperty::Volume)));
    }
}

#[test]
fn names_that_no_track_looks_up_should_be_listed() {
    let list = register(Vec::new(), "video_0_x".to_string(), key(1.0));
    let list = register(list, "vid_0_x".to_string(), key(1.0));
    let sound = register(Vec::new(), "audio_0_x".to_string(), key(1.0));
    assert_eq!(unknown_names(&list, &sound), vec!["vid_0_x", "audio_0_x"]);
    assert!(unknown_names(&Vec::new(), &Vec::new()).is_empty());
}

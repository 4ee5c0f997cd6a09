use std::sync::Arc;

use avio::clip::{Clip, ClipSource};
use avio::derive::LayerSource;
use avio::error::TimelineError;
use avio::filter::{
    AnimatedValue, AnimationTrack, BlendMode, Color, CompositeOp, Easing, FilterStep, Keyframe,
    XfadeTransition,
};
use avio::float::double::F64;
use avio::float::single::F32;
use avio::render::{
    end_secs, fade_out_length, first_missing, overlay_layer, proxy_source, total_frames,
    track_layers, Export, ExportAct, ExportEvent, ExportStage, Opened,
};
use avio::time::Duration;
use avio::timeline::{Probe, Timeline};

fn double(v: f64) -> F64 {
    F64::from_bits(v.to_bits())
}

fn single(v: f32) -> F32 {
    F32::from_bits(v.to_bits())
}

fn number(v: F64) -> f64 {
    f64::from_bits(v.to_bits())
}

fn file(path: &str) -> Clip {
    Clip::new(path.to_string())
}

fn key(value: f64) -> AnimationTrack {
    AnimationTrack::new(vec![Keyframe {
        timestamp: Duration::zero(),
        value: double(value),
        easing: Easing::Linear,
    }])
}

/// The first keyframe's value.
fn at_zero(v: &AnimatedValue) -> F64 {
    match v {
        AnimatedValue::Static(x) => *x,
        AnimatedValue::Track(t) => t.keyframes[0].value,
    }
}

fn secs(s: u64) -> Duration {
    Duration::from_secs(s)
}

fn unread() -> Opened {
    Opened { length: None, size: None }
}

fn long(s: u64) -> Opened {
    Opened { length: Some(secs(s)), size: Some((640, 360)) }
}

#[test]
fn timeline_to_scene_should_project_clip_fields() {
    let timeline = Timeline::builder()
        .canvas(1920, 1080)
        .frame_rate(double(30.0))
        .video_track(vec![
            file("a.mp4")
                .trim(Duration::from_secs(1), Duration::from_secs(3))
                .offset(Duration::from_millis(500))
                .with_opacity(single(0.5))
                .with_speed(double(2.0))
                .with_volume_track(AnimationTrack::new(vec![])),
            file("b.mp4").with_transition(XfadeTransition::Fade, Duration::from_millis(750)),
        ])
        .video_track(vec![
            file("overlay.mp4").with_transition(XfadeTransition::Fade, Duration::from_millis(400)),
        ])
        .audio_track(vec![
            file("music.mp3")
                .with_fade_in(Duration::from_millis(200))
                .with_fade_out(Duration::from_millis(300))
                .volume(double(-6.0)),
        ])
        .build(Probe::Skipped)
        .unwrap();

    let scene = timeline.to_scene(&at_zero);

    assert!((number(scene.fps) - 30.0).abs() < f64::EPSILON);
    assert_eq!(scene.canvas, Some((1920, 1080)));
    assert_eq!(scene.video_tracks.len(), 2);
    assert_eq!(scene.audio_tracks.len(), 1);

    let base = &scene.video_tracks[0].placements[0];
    assert_eq!(base.source, ClipSource::File("a.mp4".to_string()));
    assert_eq!(base.timeline_offset, Duration::from_millis(500));
    assert_eq!(base.in_point, Duration::from_secs(1));
    assert_eq!(base.out_point, Some(Duration::from_secs(3)));
    assert!((number(base.speed) - 2.0).abs() < f64::EPSILON);
    assert_eq!(base.opacity, single(0.5));
    assert_eq!(base.transition_dur, Duration::zero(), "clip 0 has no transition");
    assert!(base.volume_track.is_some());
    assert!(
        matches!(base.layer.opacity, AnimatedValue::Static(v) if (number(v) - 0.5).abs() < f64::EPSILON)
    );

    let base1 = &scene.video_tracks[0].placements[1];
    assert_eq!(base1.transition_dur, Duration::from_millis(750));

    let overlay = &scene.video_tracks[1].placements[0];
    assert_eq!(
        overlay.transition_dur,
        Duration::zero(),
        "overlay transitions must project as zero"
    );

    let audio = &scene.audio_tracks[0].placements[0];
    assert_eq!(audio.source, ClipSource::File("music.mp3".to_string()));
    assert_eq!(audio.fade_in, Duration::from_millis(200));
    assert_eq!(audio.fade_out, Duration::from_millis(300));
    assert!((number(audio.volume_db) - (-6.0)).abs() < f64::EPSILON);
}

#[test]
fn to_scene_should_carry_track_animations_as_steps() {
    let timeline = Timeline::builder()
        .canvas(1920, 1080)
        .frame_rate(double(30.0))
        .video_track(vec![file("base.mp4")])
        .video_track(vec![file("overlay.mp4")])
        .video_animation("video_1_scale_x".to_string(), key(0.5))
        .video_animation("video_1_rotation".to_string(), key(45.0))
        .video_animation("video_1_opacity".to_string(), key(1.0))
        .build(Probe::Skipped)
        .unwrap();
    let scene = timeline.to_scene(&at_zero);
    let overlay = &scene.video_tracks[1].placements[0];
    assert!(matches!(overlay.layer.opacity, AnimatedValue::Track(_)));
    assert!(matches!(overlay.layer.effects[0], FilterStep::RotateAnimated { .. }));
    assert!(matches!(overlay.layer.effects[1], FilterStep::ScaleAnimated { .. }));
    let base = &scene.video_tracks[0].placements[0];
    assert!(matches!(base.layer.opacity, AnimatedValue::Static(_)));
    assert!(base.layer.effects.is_empty());
}

#[test]
fn to_scene_should_hold_speed_opacity_and_rate_to_their_ranges() {
    let timeline = Timeline::builder()
        .canvas(16, 16)
        .frame_rate(double(0.5))
        .video_track(vec![file("a.mp4").with_speed(double(-1.0)).with_opacity(single(0.5))])
        .build(Probe::Skipped)
        .unwrap();
    let mut timeline = timeline;
    timeline.video_tracks[0].clips[0].opacity = single(3.0);
    let scene = timeline.to_scene(&at_zero);
    assert_eq!(scene.fps, double(1.0));
    assert_eq!(scene.video_tracks[0].placements[0].speed, double(0.01));
    assert_eq!(scene.video_tracks[0].placements[0].opacity, single(1.0));
    assert_eq!(scene.video_tracks[0].placements[0].in_point, Duration::zero());
}

fn three_tracks() -> Timeline {
    Timeline::builder()
        .canvas(64, 64)
        .frame_rate(double(30.0))
        .video_track(vec![file("a.mp4"), file("b.mp4")])
        .video_track(vec![file("c.mp4")])
        .audio_track(vec![file("d.mp3"), Clip::solid(Color::rgb(1, 2, 3))])
        .build(Probe::Skipped)
        .unwrap()
}

#[test]
fn an_inactive_track_should_contribute_nothing() {
    let mut t = three_tracks();
    t.video_tracks[0].mute = true;
    let scene = t.to_scene(&at_zero);
    assert!(scene.video_tracks[0].placements.is_empty());
    assert_eq!(scene.video_tracks[1].placements.len(), 1);
    let sources = vec![vec![unread(), unread()], vec![unread()]];
    assert_eq!(t.video_stack(&sources, &at_zero).len(), 1);

    let mut t = three_tracks();
    t.video_tracks[1].solo = true;
    let scene = t.to_scene(&at_zero);
    assert!(scene.video_tracks[0].placements.is_empty(), "the other track is soloed");
    assert_eq!(scene.audio_tracks[0].placements.len(), 2, "lists are soloed apart");

    let mut t = three_tracks();
    t.audio_tracks[0].enabled = false;
    assert!(t.to_scene(&at_zero).audio_tracks[0].placements.is_empty());
    assert!(t.audio_mix(&vec![vec![unread(), unread()]], &at_zero).is_empty());
}

#[test]
fn total_frames_should_add_up_known_lengths() {
    let t = Timeline::builder()
        .canvas(64, 64)
        .frame_rate(double(30.0))
        .video_track(vec![
            file("a.mp4").trim(secs(1), secs(3)),
            file("b.mp4").trim(secs(0), secs(1)),
        ])
        .video_track(vec![file("c.mp4").trim(secs(0), secs(2))])
        .build(Probe::Skipped)
        .unwrap();
    assert_eq!(total_frames(&t.video_tracks, double(30.0)), Some(150));
    assert_eq!(total_frames(&t.video_tracks, double(-30.0)), Some(0));
    assert_eq!(total_frames(&three_tracks().video_tracks, double(30.0)), None);
    assert_eq!(total_frames(&vec![], double(30.0)), Some(0));
}

#[test]
fn the_first_missing_source_should_fail_the_export() {
    let t = three_tracks();
    let files = t.source_files();
    assert_eq!(files, vec!["a.mp4", "b.mp4", "c.mp4", "d.mp3"]);
    assert_eq!(first_missing(&files, &vec![true; 4]), None);
    assert_eq!(
        first_missing(&files, &vec![true, true, false, false]),
        Some(TimelineError::ClipNotFound { path: "c.mp4".to_string() })
    );
}

#[test]
fn end_secs_should_count_what_a_clip_adds() {
    assert_eq!(end_secs(&file("a.mp4").trim(secs(1), secs(3)), unread()), double(2.0));
    assert_eq!(end_secs(&file("a.mp4"), long(7)), double(7.0));
    assert_eq!(end_secs(&file("a.mp4"), unread()), double(0.0));
    let mut late = file("a.mp4");
    late.in_point = Some(secs(3));
    assert_eq!(end_secs(&late, long(7)), double(4.0));
    assert_eq!(end_secs(&late, long(2)), double(0.0));
}

#[test]
fn fade_out_length_should_be_asked_only_for_a_fade_out() {
    let plain = file("a.mp3").trim(secs(1), secs(3));
    assert_eq!(fade_out_length(&plain, long(9)), None);
    let fading = plain.with_fade_out(secs(1));
    assert_eq!(fade_out_length(&fading, long(9)), Some(secs(2)));
    let open = file("a.mp3").with_fade_out(secs(1));
    assert_eq!(fade_out_length(&open, long(9)), Some(secs(9)));
    assert_eq!(fade_out_length(&open, unread()), None);
    let mut late = file("a.mp3").with_fade_out(secs(1));
    late.in_point = Some(secs(4));
    assert_eq!(fade_out_length(&late, long(9)), Some(secs(5)));
    assert_eq!(fade_out_length(&late, long(3)), Some(Duration::zero()));
}

#[test]
fn a_proxy_should_be_ignored_where_its_source_cannot_be_opened() {
    let mut clip = file("a.mp4");
    assert!(proxy_source(&clip, long(1)).is_none());
    clip.proxy = Some("small.mp4".to_string());
    assert!(proxy_source(&clip, unread()).is_none());
    let proxy = proxy_source(&clip, long(1)).unwrap();
    assert_eq!((proxy.path.as_str(), proxy.width, proxy.height), ("small.mp4", 640, 360));
}

#[test]
fn track_layers_should_fade_from_the_end_of_the_clip_before() {
    let faded = |path: &str| {
        file(path).with_transition(XfadeTransition::Fade, Duration::from_millis(500))
    };
    let t = Timeline::builder()
        .canvas(64, 64)
        .frame_rate(double(30.0))
        .video_track(vec![faded("a.mp4"), faded("b.mp4"), faded("c.mp4")])
        .build(Probe::Skipped)
        .unwrap();
    let layers = track_layers(
        &t.video_tracks[0],
        (64, 64),
        &vec![long(4), long(3), long(2)],
        &at_zero,
    );
    assert!(layers[0].effects.is_empty(), "the first clip has nothing to fade from");
    let offset = |i: usize| match layers[i].effects.last() {
        Some(FilterStep::XFade { offset, .. }) => number(*offset),
        other => panic!("expected a cross-fade, got {other:?}"),
    };
    assert_eq!(offset(1), 3.5);
    assert_eq!(offset(2), 6.5, "four and three seconds, less the half second");
}

#[test]
fn track_layers_should_count_each_clip_at_its_speed() {
    let faded = file("c.mp4").with_transition(XfadeTransition::Fade, Duration::from_millis(500));
    let t = Timeline::builder()
        .canvas(64, 64)
        .frame_rate(double(30.0))
        .video_track(vec![
            file("a.mp4").trim(secs(1), secs(5)).with_speed(double(2.0)),
            file("b.mp4").with_speed(double(0.5)),
            faded,
        ])
        .build(Probe::Skipped)
        .unwrap();
    let layers = track_layers(
        &t.video_tracks[0],
        (64, 64),
        &vec![long(9), long(3), long(2)],
        &at_zero,
    );
    match layers[2].effects.last() {
        Some(FilterStep::XFade { offset, .. }) => assert_eq!(number(*offset), 2.0 + 6.0 - 0.5),
        other => panic!("expected a cross-fade, got {other:?}"),
    }
}

#[test]
fn the_overlay_should_lie_above_all_tracks() {
    let mut t = three_tracks();
    t.lavfi_overlay = Some("color=red".to_string());
    let sources = vec![vec![unread(), unread()], vec![unread()]];
    let stack = t.video_stack(&sources, &at_zero);
    assert_eq!(stack.len(), 4);
    assert_eq!(stack[0].source, LayerSource::File("a.mp4".to_string()));
    assert_eq!(stack[2].source, LayerSource::File("c.mp4".to_string()));
    assert_eq!(stack[3].source, LayerSource::Lavfi("color=red".to_string()));
    let layer = overlay_layer(&"color=red".to_string());
    assert_eq!(layer.blend_mode, BlendMode::Normal);
    assert_eq!(layer.composite_op, CompositeOp::Over);
    assert_eq!(layer.opacity, AnimatedValue::Static(double(1.0)));
}

#[test]
fn the_mix_should_hold_one_track_for_each_clip_with_a_file() {
    let t = Timeline::builder()
        .canvas(64, 64)
        .frame_rate(double(30.0))
        .audio_track(vec![
            file("a.mp3").with_fade_out(secs(1)).with_pitch_track(key(5.0)),
            Clip::solid(Color::rgb(1, 2, 3)),
            file("b.mp3"),
        ])
        .audio_animation("audio_0_volume".to_string(), key(-3.0))
        .build(Probe::Skipped)
        .unwrap();
    let mix = t.audio_mix(&vec![vec![long(4), unread(), unread()]], &at_zero);
    assert_eq!(mix.len(), 2);
    let buses = t.audio_buses(&mix);
    assert_eq!((buses[0].first, buses[0].count), (0, 2));
    assert_eq!(mix[0].source, "a.mp3");
    assert_eq!(mix[0].sample_rate, 48_000);
    assert!(matches!(mix[0].volume, AnimatedValue::Track(_)));
    assert!(matches!(
        mix[0].effects[0],
        FilterStep::PitchShift { semitones, .. } if semitones == single(5.0)
    ));
    assert!(matches!(
        mix[0].effects[1],
        FilterStep::AFadeOut { start, duration } if start == double(3.0) && duration == double(1.0)
    ));
    assert_eq!(mix[1].source, "b.mp3", "a generated clip carries no sound");
}

#[test]
fn an_export_should_drain_the_picture_and_then_the_sound() {
    let (mut export, first) = Export::begin(true, true);
    assert_eq!(first, ExportAct::PullVideo { frame: 0 });
    assert_eq!(export.step(ExportEvent::Frame), ExportAct::PullVideo { frame: 1 });
    assert_eq!(export.step(ExportEvent::Frame), ExportAct::PullVideo { frame: 2 });
    assert_eq!(
        export.step(ExportEvent::Drained),
        ExportAct::PullAudio { at: Duration::zero() }
    );
    let chunk = Duration::from_millis(20);
    assert_eq!(export.step(ExportEvent::Chunk(chunk)), ExportAct::PullAudio { at: chunk });
    assert_eq!(export.step(ExportEvent::Drained), ExportAct::Finish);
    assert_eq!((export.stage, export.video_idx), (ExportStage::Over, 2));
}

#[test]
fn an_export_should_skip_what_is_not_there() {
    let (mut silent, _) = Export::begin(true, false);
    assert_eq!(silent.step(ExportEvent::Drained), ExportAct::Finish);
    let (_, heard) = Export::begin(false, true);
    assert_eq!(heard, ExportAct::PullAudio { at: Duration::zero() });
    assert_eq!(Export::begin(false, false).1, ExportAct::Finish);
}

#[test]
fn a_stopped_export_should_be_cancelled() {
    let (mut export, _) = Export::begin(true, true);
    assert_eq!(export.step(ExportEvent::Frame), ExportAct::PullVideo { frame: 1 });
    assert_eq!(export.step(ExportEvent::Stopped), ExportAct::Cancel);
    assert_eq!((export.stage, export.video_idx), (ExportStage::Over, 2));
}

#[test]
fn each_active_audio_track_should_have_its_bus() {
    let gain = |db: f64| Arc::new(vec![FilterStep::Volume { gain_db: double(db) }]);
    let mut t = Timeline::builder()
        .canvas(64, 64)
        .frame_rate(double(30.0))
        .audio_track(vec![file("a.mp3"), file("b.mp3")])
        .audio_track(vec![file("c.mp3")])
        .audio_track(vec![file("d.mp3")])
        .build(Probe::Skipped)
        .unwrap();
    t.audio_tracks[0].audio_effects = gain(-6.0);
    t.audio_tracks[1].mute = true;
    t.audio_tracks[2].audio_effects = gain(3.0);
    let sources = vec![vec![unread(), unread()], vec![unread()], vec![unread()]];
    let mix = t.audio_mix(&sources, &at_zero);
    let buses = t.audio_buses(&mix);
    assert_eq!(mix.iter().map(|m| m.source.as_str()).collect::<Vec<_>>(), [
        "a.mp3", "b.mp3", "d.mp3"
    ]);
    assert_eq!(buses.len(), 2);
    assert_eq!((buses[0].first, buses[0].count), (0, 2));
    assert_eq!(buses[0].effects, gain(-6.0));
    assert_eq!((buses[1].first, buses[1].count), (2, 1));
    assert_eq!(buses[1].effects, gain(3.0));
}

#[test]
fn animations_of_a_track_should_reach_the_preview_as_steps_and_tracks() {
    let t = Timeline::builder()
        .canvas(1920, 1080)
        .frame_rate(double(30.0))
        .video_track(vec![file("base.mp4")])
        .video_track(vec![file("overlay.mp4")])
        .video_animation("video_1_scale_x".to_string(), key(0.5))
        .video_animation("video_1_rotation".to_string(), key(45.0))
        .video_animation("video_1_opacity".to_string(), key(1.0))
        .build(Probe::Skipped)
        .unwrap();
    let scene = t.to_scene(&at_zero);
    let layer = &scene.video_tracks[1].placements[0].layer;
    assert!(matches!(&layer.effects[0], FilterStep::RotateAnimated { angle, .. }
        if *angle == AnimatedValue::Track(key(45.0))));
    assert!(matches!(&layer.effects[1], FilterStep::ScaleAnimated { width, .. }
        if *width == AnimatedValue::Track(key(960.0))));
    assert_eq!(layer.scale_x, AnimatedValue::Static(double(1.0)));
    assert_eq!(layer.rotation, AnimatedValue::Static(double(0.0)));
    assert_eq!(layer.opacity, AnimatedValue::Track(key(1.0)));
}

#[test]
fn the_preview_should_take_the_merged_volume_and_pan() {
    let t = Timeline::builder()
        .canvas(64, 64)
        .frame_rate(double(30.0))
        .audio_track(vec![
            file("a.mp3").with_pitch_track(key(5.0)),
            file("b.mp3").volume(double(-6.0)),
            file("c.mp3").with_volume_track(key(1.0)),
        ])
        .audio_animation("audio_0_volume".to_string(), key(-3.0))
        .audio_animation("audio_0_pan".to_string(), key(0.5))
        .build(Probe::Skipped)
        .unwrap();
    let scene = t.to_scene(&at_zero);
    let mix = t.audio_mix(&vec![vec![unread(), unread(), unread()]], &at_zero);
    let played = &scene.audio_tracks[0].placements;
    assert_eq!(played[0].volume_track, Some(key(-3.0)));
    assert_eq!(played[0].pitch, double(5.0));
    assert_eq!((played[1].volume_db, &played[1].volume_track), (double(-6.0), &None));
    assert_eq!(played[1].pitch, double(0.0));
    assert_eq!(played[2].volume_track, Some(key(1.0)));
    for (p, m) in played.iter().zip(&mix) {
        let volume = match &p.volume_track {
            Some(keys) => AnimatedValue::Track(keys.clone()),
            None => AnimatedValue::Static(p.volume_db),
        };
        assert_eq!((&volume, &p.pan), (&m.volume, &m.pan));
    }
}

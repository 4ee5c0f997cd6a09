use avio::clip::Clip;
use avio::error::TimelineError;
use avio::filter::{AnimationTrack, Easing, Keyframe};
use avio::float::double::F64;
use avio::keys::{audio_key_text, find_animation, video_key_text};
use avio::time::Duration;
use avio::timeline::{Probe, Timeline};
use avio::track::{AudioProperty, VideoProperty};

fn double(v: f64) -> F64 {
    F64::from_bits(v.to_bits())
}

fn number(v: F64) -> f64 {
    f64::from_bits(v.to_bits())
}

fn file(path: &str) -> Clip {
    Clip::new(path.to_string())
}

fn key(at: Duration, value: f64) -> Keyframe {
    Keyframe { timestamp: at, value: double(value), easing: Easing::Linear }
}

fn found(width: u32, height: u32, fps: f64) -> Probe {
    Probe::Found { width, height, frame_rate: double(fps) }
}

#[test]
fn timeline_builder_should_err_when_no_tracks() {
    let result = Timeline::builder().build(Probe::Skipped);
    assert!(matches!(result, Err(TimelineError::NoInput)));
}

#[test]
fn timeline_builder_should_succeed_with_video_track() {
    let clip = file("video.mp4");
    let timeline = Timeline::builder()
        .canvas(1920, 1080)
        .frame_rate(double(30.0))
        .video_track(vec![clip])
        .build(Probe::Skipped)
        .unwrap();

    assert_eq!(timeline.canvas_width, 1920);
    assert_eq!(timeline.canvas_height, 1080);
    assert!((number(timeline.frame_rate) - 30.0).abs() < f64::EPSILON);
    assert_eq!(timeline.video_tracks.len(), 1);
    assert!(timeline.audio_tracks.is_empty());
}

#[test]
fn timeline_builder_should_store_video_animation_track() {
    let track = AnimationTrack::new(vec![
        key(Duration::zero(), 1.0),
        key(Duration::from_secs(2), 0.0),
    ]);

    let timeline = Timeline::builder()
        .canvas(1920, 1080)
        .frame_rate(double(30.0))
        .video_track(vec![file("video.mp4")])
        .video_animation("video_0_opacity".to_string(), track.clone())
        .build(Probe::Skipped)
        .unwrap();

    assert_eq!(timeline.video_animations.len(), 1);
    assert!(
        find_animation(&timeline.video_animations, &"video_0_opacity".to_string()).is_some()
    );
    assert_eq!(timeline.video_tracks[0].automation.opacity, Some(track));
    assert_eq!(timeline.video_tracks[0].automation.x, None);
}

#[test]
fn timeline_builder_should_store_audio_animation_track() {
    let track = AnimationTrack::new(vec![
        key(Duration::zero(), 0.0),
        key(Duration::from_secs(2), -6.0),
    ]);

    let timeline = Timeline::builder()
        .canvas(1920, 1080)
        .frame_rate(double(30.0))
        .audio_track(vec![file("audio.mp4")])
        .audio_animation("audio_0_volume".to_string(), track.clone())
        .build(Probe::Skipped)
        .unwrap();

    assert_eq!(timeline.audio_animations.len(), 1);
    assert!(
        find_animation(&timeline.audio_animations, &"audio_0_volume".to_string()).is_some()
    );
    assert_eq!(timeline.audio_tracks[0].automation.volume, Some(track));
}

#[test]
fn a_later_animation_under_the_same_name_should_win() {
    let first = AnimationTrack::new(vec![key(Duration::zero(), 0.1)]);
    let second = AnimationTrack::new(vec![key(Duration::zero(), 0.9)]);
    let timeline = Timeline::builder()
        .canvas(16, 16)
        .frame_rate(double(30.0))
        .video_track(vec![])
        .video_track(vec![])
        .video_animation("video_1_x".to_string(), first)
        .video_animation("video_1_x".to_string(), second.clone())
        .video_animation("video_7_x".to_string(), second.clone())
        .video_animation("vide_1_x".to_string(), second.clone())
        .build(Probe::Skipped)
        .unwrap();
    assert_eq!(timeline.video_animations.len(), 3, "an unknown name is kept");
    assert_eq!(timeline.video_tracks[1].automation.x, Some(second));
    assert_eq!(timeline.video_tracks[0].automation.x, None);
}

#[test]
fn animation_names_should_hold_the_track_and_the_property() {
    assert_eq!(video_key_text(0, VideoProperty::ScaleX), "video_0_scale_x");
    assert_eq!(video_key_text(120, VideoProperty::Rotation), "video_120_rotation");
    assert_eq!(audio_key_text(7, AudioProperty::Pan), "audio_7_pan");
}

#[test]
fn builder_should_ask_for_the_first_video_file_only_where_something_is_left_open() {
    let open = Timeline::builder().video_track(vec![file("a.mp4"), file("b.mp4")]);
    assert_eq!(open.probe_path(), Some("a.mp4".to_string()));
    let canvas_only = Timeline::builder().canvas(16, 9).video_track(vec![file("a.mp4")]);
    assert_eq!(canvas_only.probe_path(), Some("a.mp4".to_string()));
    let closed = Timeline::builder()
        .canvas(16, 9)
        .frame_rate(double(25.0))
        .video_track(vec![file("a.mp4")]);
    assert_eq!(closed.probe_path(), None);
    let audio = Timeline::builder().audio_track(vec![file("a.mp3")]);
    assert_eq!(audio.probe_path(), None);
}

#[test]
fn build_should_take_what_is_open_from_the_probe() {
    let t = Timeline::builder()
        .video_track(vec![file("a.mp4")])
        .build(found(640, 360, 25.0))
        .unwrap();
    assert_eq!((t.canvas_width(), t.canvas_height()), (640, 360));
    assert_eq!(t.frame_rate(), double(25.0));
    assert_eq!(t.explicit_canvas(), None);
    let t = Timeline::builder()
        .canvas(16, 9)
        .video_track(vec![file("a.mp4")])
        .build(found(640, 360, 25.0))
        .unwrap();
    assert_eq!(t.explicit_canvas(), Some((16, 9)));
    assert_eq!(t.frame_rate(), double(25.0));
    let audio = Timeline::builder()
        .audio_track(vec![file("a.mp3")])
        .build(Probe::Skipped)
        .unwrap();
    assert_eq!((audio.canvas_width(), audio.canvas_height()), (1920, 1080));
    assert_eq!(audio.frame_rate(), double(30.0));
}

#[test]
fn build_should_fail_as_the_probe_did() {
    let open = || Timeline::builder().video_track(vec![file("a.mp4")]);
    assert_eq!(
        open().build(Probe::Missing).err(),
        Some(TimelineError::ClipNotFound { path: "a.mp4".to_string() })
    );
    assert_eq!(
        open().build(Probe::Failed("bad header".to_string())).err(),
        Some(TimelineError::Decode("bad header".to_string()))
    );
}

use avio::clip::Clip;
use avio::error::TimelineError;
use avio::filter::{Color, XfadeTransition};
use avio::float::double::F64;
use avio::time::Duration;
use avio::timeline::{Probe, Timeline, TimelineBuilder};
use avio::validate::TimelineIssue;

fn double(v: f64) -> F64 {
    F64::from_bits(v.to_bits())
}

fn file(path: &str) -> Clip {
    Clip::new(path.to_string())
}

fn base(clips: Vec<Clip>) -> TimelineBuilder {
    Timeline::builder()
        .canvas(1920, 1080)
        .frame_rate(double(30.0))
        .video_track(clips)
}

#[test]
fn validate_clean_timeline_should_have_no_issues() {
    let t = base(vec![
        file("a.mp4").trim(Duration::zero(), Duration::from_secs(4)),
        file("b.mp4")
            .trim(Duration::zero(), Duration::from_secs(4))
            .offset(Duration::from_secs(4)),
    ])
    .build(Probe::Skipped)
    .unwrap();
    assert!(
        t.validate().is_empty(),
        "clean timeline: {:?}",
        t.validate()
    );
}

#[test]
fn validate_should_detect_track_overlap() {
    let t = base(vec![
        file("a.mp4").trim(Duration::zero(), Duration::from_secs(4)),
        file("b.mp4")
            .trim(Duration::zero(), Duration::from_secs(4))
            .offset(Duration::from_secs(2)),
    ])
    .build(Probe::Skipped)
    .unwrap();
    let ids: Vec<_> = t.video_tracks()[0].clips.iter().map(|c| c.id).collect();
    assert!(t.validate().contains(&TimelineIssue::ClipOverlap {
        track: t.video_tracks()[0].id,
        earlier: ids[0],
        later: ids[1],
    }));
}

#[test]
fn validate_overlap_should_catch_a_long_clip_spanning_a_far_one() {
    let t = base(vec![
        file("a.mp4").trim(Duration::zero(), Duration::from_secs(10)),
        file("b.mp4")
            .trim(Duration::zero(), Duration::from_secs(2))
            .offset(Duration::from_secs(2)),
        file("c.mp4")
            .trim(Duration::zero(), Duration::from_secs(2))
            .offset(Duration::from_secs(6)),
    ])
    .build(Probe::Skipped)
    .unwrap();
    let track = t.video_tracks()[0].id;
    let ids: Vec<_> = t.video_tracks()[0].clips.iter().map(|c| c.id).collect();
    let overlaps: Vec<_> = t
        .validate()
        .into_iter()
        .filter(|i| matches!(i, TimelineIssue::ClipOverlap { .. }))
        .collect();
    assert!(overlaps.contains(&TimelineIssue::ClipOverlap {
        track,
        earlier: ids[0],
        later: ids[1],
    }));
    assert!(
        overlaps.contains(&TimelineIssue::ClipOverlap {
            track,
            earlier: ids[0],
            later: ids[2],
        }),
        "the far a-c overlap must be detected"
    );
    assert_eq!(overlaps.len(), 2, "b and c do not overlap each other");
}

#[test]
fn validate_should_detect_trim_out_before_in() {
    let t = base(vec![
        file("a.mp4").trim(Duration::from_secs(5), Duration::from_secs(2)),
    ])
    .build(Probe::Skipped)
    .unwrap();
    let id = t.video_tracks()[0].clips[0].id;
    assert!(
        t.validate()
            .contains(&TimelineIssue::TrimOutBeforeIn { clip: id })
    );
}

#[test]
fn validate_should_detect_empty_footprint() {
    let t = base(vec![
        file("a.mp4").trim(Duration::from_secs(3), Duration::from_secs(3)),
    ])
    .build(Probe::Skipped)
    .unwrap();
    let id = t.video_tracks()[0].clips[0].id;
    assert!(
        t.validate()
            .contains(&TimelineIssue::EmptyFootprint { clip: id })
    );
}

#[test]
fn validate_should_detect_generated_clip_without_out_point() {
    let t = base(vec![Clip::solid(Color::rgb(0, 0, 0))])
        .build(Probe::Skipped)
        .unwrap();
    let id = t.video_tracks()[0].clips[0].id;
    assert!(
        t.validate()
            .contains(&TimelineIssue::GeneratedClipWithoutOutPoint { clip: id })
    );
    let ok = base(vec![
        Clip::solid(Color::rgb(0, 0, 0)).trim(Duration::zero(), Duration::from_secs(1)),
    ])
    .build(Probe::Skipped)
    .unwrap();
    assert!(
        !ok.validate()
            .iter()
            .any(|i| matches!(i, TimelineIssue::GeneratedClipWithoutOutPoint { .. }))
    );
}

#[test]
fn validate_should_detect_dangling_transition() {
    let t = base(vec![
        file("a.mp4")
            .trim(Duration::zero(), Duration::from_secs(4))
            .with_transition(XfadeTransition::Fade, Duration::from_millis(500)),
    ])
    .build(Probe::Skipped)
    .unwrap();
    let id = t.video_tracks()[0].clips[0].id;
    assert!(t.validate().contains(&TimelineIssue::DanglingTransition {
        track: t.video_tracks()[0].id,
        clip: id,
    }));
}

#[test]
fn validate_should_not_open_source_files() {
    let t = Timeline::builder()
        .canvas(1920, 1080)
        .frame_rate(double(30.0))
        .video_track(vec![
            file("does_not_exist_1.mp4").trim(Duration::zero(), Duration::from_secs(2)),
        ])
        .audio_track(vec![file("does_not_exist_2.mp3")])
        .build(Probe::Skipped)
        .unwrap();
    assert!(
        !t.validate()
            .iter()
            .any(|i| matches!(i, TimelineIssue::GeneratedClipWithoutOutPoint { .. }))
    );
}

#[test]
fn each_overlap_should_be_reported_once_with_the_earlier_start_first() {
    let span = |at: u64, length: u64| {
        file("a.mp4")
            .trim(Duration::zero(), Duration::from_secs(length))
            .offset(Duration::from_secs(at))
    };
    let t = base(vec![span(3, 2), span(0, 4), span(4, 1), span(9, 1)])
        .build(Probe::Skipped)
        .unwrap();
    let track = t.video_tracks()[0].id;
    let ids: Vec<_> = t.video_tracks()[0].clips.iter().map(|c| c.id).collect();
    assert_eq!(
        t.validate(),
        vec![
            TimelineIssue::ClipOverlap { track, earlier: ids[1], later: ids[0] },
            TimelineIssue::ClipOverlap { track, earlier: ids[0], later: ids[2] },
        ]
    );
}

#[test]
fn a_generated_clip_without_an_end_should_keep_a_timeline_from_being_rendered() {
    let solid = || Clip::solid(Color::rgb(1, 2, 3));
    let bounded = solid().trim(Duration::zero(), Duration::from_secs(1));
    let fine = base(vec![file("a.mp4"), bounded]).build(Probe::Skipped).unwrap();
    assert_eq!(fine.unbounded_source(), None);
    let endless = base(vec![file("a.mp4"), solid(), solid()]).build(Probe::Skipped).unwrap();
    let clip = endless.video_tracks()[0].clips[1].id;
    assert_eq!(
        endless.unbounded_source(),
        Some(TimelineError::GeneratedSourceNeedsDuration { clip })
    );
    assert!(endless.validate().contains(&TimelineIssue::GeneratedClipWithoutOutPoint { clip }));
}

use avio::clip::Clip;
use avio::edit::{
    apply, has_room_for, ids_needed, ClipProperty, Command, EditError, IdsNeeded,
};
use avio::editor::Editor;
use avio::error::TimelineError;
use avio::filter::AnimatedValue;
use avio::float::double::F64;
use avio::ids::{ClipId, MarkerId, TrackId, TrackKind};
use avio::marker::Marker;
use avio::time::Duration;
use avio::timeline::{Probe, Timeline};
use avio::validate::TimelineIssue;

fn double(v: f64) -> F64 {
    F64::from_bits(v.to_bits())
}

fn secs(s: u64) -> Duration {
    Duration::from_secs(s)
}

fn clip(path: &str, offset: u64, length: u64) -> Clip {
    Clip::new(path.to_string()).trim(secs(0), secs(length)).offset(secs(offset))
}

/// Two video tracks and an audio track, with two clips on the first.
fn document() -> Timeline {
    Timeline::builder()
        .canvas(64, 64)
        .frame_rate(double(30.0))
        .video_track(vec![clip("a.mp4", 0, 2), clip("b.mp4", 2, 3)])
        .video_track(vec![clip("c.mp4", 1, 4)])
        .audio_track(vec![clip("d.mp3", 0, 5)])
        .build(Probe::Skipped)
        .unwrap()
}

fn clip_ids(t: &Timeline) -> Vec<ClipId> {
    t.video_tracks()
        .iter()
        .chain(t.audio_tracks().iter())
        .flat_map(|track| track.clips.iter().map(|c| c.id))
        .collect()
}

fn placed(t: &Timeline) -> Vec<(ClipId, Duration)> {
    t.video_tracks()
        .iter()
        .chain(t.audio_tracks().iter())
        .flat_map(|track| track.clips.iter().map(|c| (c.id, c.offset)))
        .collect()
}

fn run(t: &Timeline, command: Command) -> Timeline {
    apply(t, &command).unwrap()
}

#[test]
fn identities_should_stay_unique_and_never_come_back() {
    let mut t = document();
    let mut seen = clip_ids(&t);
    for round in 0..4_u64 {
        let track = t.video_tracks()[0].id;
        t = run(&t, Command::AddClip { track, clip: Box::new(clip("n.mp4", 9 + round, 1)) });
        let fresh = t.video_tracks()[0].clips.last().unwrap().id;
        assert!(!seen.contains(&fresh), "round {round}");
        seen.push(fresh);
        t = run(&t, Command::RemoveClip { clip: fresh });
        assert!(!clip_ids(&t).contains(&fresh));
        assert_eq!(
            apply(&t, &Command::RemoveClip { clip: fresh }).err(),
            Some(EditError::ClipNotFound { id: fresh })
        );
    }
}

#[test]
fn an_edit_of_one_clip_should_keep_every_identity_in_place() {
    let t = document();
    let ids = clip_ids(&t);
    let edits = vec![
        Command::MoveClip { clip: ids[1], offset: secs(40) },
        Command::TrimClip { clip: ids[1], in_point: Some(secs(1)), out_point: None },
        Command::SetClipProperty { clip: ids[1], property: ClipProperty::Speed(double(2.0)) },
        Command::SetClip { clip: ids[1], value: Box::new(clip("z.mp4", 7, 7)) },
        Command::RippleTrim { clip: ids[0], in_point: None, out_point: Some(secs(1)) },
    ];
    for e in edits {
        assert_eq!(clip_ids(&run(&t, e)), ids);
    }
}

#[test]
fn a_batch_should_be_its_commands_one_after_another() {
    let t = document();
    let ids = clip_ids(&t);
    let first = || Command::MoveClip { clip: ids[0], offset: secs(8) };
    let second = || Command::RemoveClip { clip: ids[2] };
    let third = || Command::AddTrack { kind: TrackKind::Audio };
    let apart = run(&run(&run(&t, first()), second()), third());
    assert_eq!(run(&t, Command::Batch(vec![first(), second(), third()])), apart);
    assert_eq!(
        run(
            &t,
            Command::Batch(vec![
                Command::Batch(vec![first(), second()]),
                Command::Batch(vec![third()]),
            ])
        ),
        apart
    );
    assert_eq!(run(&t, Command::Batch(vec![first()])), run(&t, first()));
    assert_eq!(run(&t, Command::Batch(vec![])), t);
    let lost = Command::RemoveMarker { marker: MarkerId::from_raw(9) };
    assert_eq!(
        apply(&t, &Command::Batch(vec![first(), lost, second()])).err(),
        Some(EditError::MarkerNotFound { id: MarkerId::from_raw(9) })
    );
}

#[test]
fn a_cut_should_leave_two_parts_that_meet() {
    let t = document();
    let id = clip_ids(&t)[1];
    let cut = run(&t, Command::SplitClip { clip: id, at: secs(3) });
    let clips = &cut.video_tracks()[0].clips;
    assert_eq!(clips.len(), 3);
    let (left, right) = (&clips[1], &clips[2]);
    assert_eq!(left.id, id);
    assert_ne!(right.id, id);
    assert_eq!(left.offset.checked_add(left.duration().unwrap()), Some(right.offset));
    assert_eq!(left.out_point, right.in_point);
    assert_eq!(left.duration().unwrap().checked_add(right.duration().unwrap()), Some(secs(3)));
}

#[test]
fn a_ripple_should_stay_on_its_track() {
    let t = document();
    let ids = clip_ids(&t);
    let gone = run(&t, Command::RippleDelete { clip: ids[0] });
    assert_eq!(gone.video_tracks()[0].clips[0].offset, secs(0), "the gap is closed");
    assert_eq!(gone.video_tracks()[1], t.video_tracks()[1]);
    assert_eq!(gone.audio_tracks(), t.audio_tracks());
    let longer = run(
        &t,
        Command::RippleTrim { clip: ids[0], in_point: Some(secs(0)), out_point: Some(secs(6)) },
    );
    assert_eq!(longer.video_tracks()[0].clips[1].offset, secs(6));
    assert_eq!(longer.video_tracks()[1], t.video_tracks()[1]);
    assert_eq!(longer.audio_tracks(), t.audio_tracks());
}

#[test]
fn a_group_should_move_as_one_and_dissolve_again() {
    let t = document();
    let ids = clip_ids(&t);
    let linked = run(&t, Command::GroupClips { clips: vec![ids[1], ids[3]] });
    let moved = run(&linked, Command::MoveClip { clip: ids[1], offset: secs(12) });
    let offsets = placed(&moved);
    assert_eq!(offsets[1].1, secs(12));
    assert_eq!(offsets[3].1, secs(10), "moved by as much");
    assert_eq!((offsets[0].1, offsets[2].1), (secs(0), secs(1)));
    let apart = run(&linked, Command::UngroupClips { clip: ids[3] });
    assert_eq!(apart.video_tracks(), t.video_tracks());
    assert_eq!(apart.audio_tracks(), t.audio_tracks());
}

#[test]
fn markers_should_leave_clips_alone() {
    let t = document();
    let marked = run(&t, Command::AddMarker { marker: Marker::new(secs(4)) });
    let id = marked.markers[0].id;
    let moved = run(&marked, Command::MoveMarker { marker: id, pts: secs(5) });
    let bare = run(&moved, Command::RemoveMarker { marker: id });
    for version in [&marked, &moved, &bare] {
        assert_eq!(version.video_tracks(), t.video_tracks());
        assert_eq!(version.audio_tracks(), t.audio_tracks());
    }
    assert!(bare.markers.is_empty());
}

#[test]
fn undo_should_restore_the_version_before() {
    let t = document();
    let ids = clip_ids(&t);
    let mut editor = Editor::new(t);
    let mut versions = vec![editor.current().clone()];
    for i in 0..3_u64 {
        editor.apply(&Command::MoveClip { clip: ids[0], offset: secs(20 + i) }).unwrap();
        versions.push(editor.current().clone());
    }
    for want in versions.iter().rev().skip(1) {
        assert_eq!(editor.undo(), Some(want));
    }
    assert!(editor.undo().is_none());
    for want in versions.iter().skip(1) {
        assert_eq!(editor.redo(), Some(want));
    }
    editor.undo();
    editor.apply(&Command::AddTrack { kind: TrackKind::Video }).unwrap();
    assert!(!editor.can_redo(), "a new edit forgets what was undone");
}

#[test]
fn clips_that_overlap_should_be_reported() {
    let t = document();
    let ids = clip_ids(&t);
    assert!(t.validate().is_empty());
    let crossed = run(&t, Command::MoveClip { clip: ids[1], offset: secs(1) });
    assert_eq!(
        crossed.validate(),
        vec![TimelineIssue::ClipOverlap {
            track: t.video_tracks()[0].id,
            earlier: ids[0],
            later: ids[1],
        }]
    );
}

#[test]
fn every_edit_error_should_name_what_is_wrong() {
    let t = document();
    let ids = clip_ids(&t);
    let nowhere = TrackId::from_raw(99);
    let nothing = ClipId::from_raw(99);
    let fails = |c: Command| apply(&t, &c).err();
    assert_eq!(
        fails(Command::RemoveTrack { track: nowhere }),
        Some(EditError::TrackNotFound { id: nowhere })
    );
    assert_eq!(
        fails(Command::RemoveClip { clip: nothing }),
        Some(EditError::ClipNotFound { id: nothing })
    );
    let mut value = clip("z.mp4", 0, 1);
    value.id = ids[1];
    assert_eq!(
        fails(Command::SetClip { clip: ids[0], value: Box::new(value) }),
        Some(EditError::ClipIdMismatch { expected: ids[0], found: ids[1] })
    );
    assert_eq!(
        fails(Command::SplitClip { clip: ids[0], at: secs(2) }),
        Some(EditError::SplitOutOfRange { clip: ids[0], at: secs(2) })
    );
    assert_eq!(
        fails(Command::SetCanvas { width: 0, height: 5 }),
        Some(EditError::InvalidCanvas { width: 0, height: 5 })
    );
    assert_eq!(
        fails(Command::SetFrameRate { fps: double(-1.0) }),
        Some(EditError::InvalidFrameRate(double(-1.0)))
    );
}

#[test]
fn every_timeline_error_should_speak() {
    let text = || "x".to_string();
    assert_eq!(TimelineError::Decode(text()).message(), "decode failed: x");
    assert_eq!(TimelineError::Filter(text()).message(), "filter failed: x");
    assert_eq!(TimelineError::Encode(text()).message(), "encode failed: x");
    assert_eq!(TimelineError::NoInput.message(), "no input specified");
    assert_eq!(TimelineError::Cancelled.message(), "timeline render cancelled by caller");
    assert_eq!(
        TimelineError::GeneratedSourceNeedsDuration { clip: ClipId(1) }.message(),
        "generated source needs a duration"
    );
}

#[test]
fn a_document_should_know_when_its_numbers_are_used_up() {
    let mut t = document();
    let one = || Command::AddTrack { kind: TrackKind::Video };
    let three = Command::Batch(vec![one(), Command::Batch(vec![one(), one()])]);
    let tracks = |n: u64| Some(IdsNeeded { clips: 0, tracks: n, groups: 0, markers: 0 });
    assert_eq!(ids_needed(&one()), tracks(1));
    assert_eq!(ids_needed(&three), tracks(3));
    assert!(has_room_for(&t, &three));
    assert!(Editor::new(t.clone()).has_room_for(&three));
    t.next_track_id = u64::MAX - 2;
    assert!(has_room_for(&t, &Command::Batch(vec![one(), one()])));
    assert!(!has_room_for(&t, &three));
    assert!(!Editor::new(t.clone()).has_room_for(&three));
    t.next_track_id = u64::MAX;
    let clip = t.video_tracks[0].clips[0].id;
    let mixed = Command::Batch(vec![
        Command::RemoveClip { clip },
        Command::AddMarker { marker: Marker::new(secs(1)) },
        Command::GroupClips { clips: vec![] },
    ]);
    assert_eq!(
        ids_needed(&mixed),
        Some(IdsNeeded { clips: 0, tracks: 0, groups: 0, markers: 1 })
    );
    assert!(has_room_for(&t, &mixed), "a full counter of another kind does not matter");
    assert!(Editor::new(t).apply(&mixed).is_ok());
}

#[test]
fn markers_should_not_be_rendered() {
    let t = document();
    let marked = run(&t, Command::AddMarker { marker: Marker::new(secs(4)) });
    let eval = |v: &AnimatedValue| match v {
        AnimatedValue::Static(x) => *x,
        AnimatedValue::Track(k) => k.keyframes[0].value,
    };
    assert_eq!(marked.to_scene(&eval), t.to_scene(&eval));
}

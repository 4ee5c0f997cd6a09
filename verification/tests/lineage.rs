use avio::clip::Clip;
use avio::edit::{apply, Command, EditError};
use avio::editor::Editor;
use avio::float::double::F64;
use avio::ids::{ClipId, TrackId, TrackKind};
use avio::time::Duration;
use avio::timeline::{Probe, Timeline};

fn secs(s: u64) -> Duration {
    Duration::from_secs(s)
}

fn clip(path: &str, offset: u64, length: u64) -> Clip {
    Clip::new(path.to_string()).trim(secs(0), secs(length)).offset(secs(offset))
}

fn document() -> Timeline {
    Timeline::builder()
        .canvas(64, 64)
        .frame_rate(F64::from_bits(30.0_f64.to_bits()))
        .video_track(vec![clip("a.mp4", 0, 2), clip("b.mp4", 2, 3), clip("c.mp4", 5, 1)])
        .build(Probe::Skipped)
        .unwrap()
}

fn track_ids(t: &Timeline) -> Vec<TrackId> {
    t.video_tracks().iter().chain(t.audio_tracks().iter()).map(|t| t.id).collect()
}

fn clip_ids(t: &Timeline) -> Vec<ClipId> {
    t.video_tracks().iter().flat_map(|t| t.clips.iter().map(|c| c.id)).collect()
}

fn offsets(t: &Timeline) -> Vec<Duration> {
    t.video_tracks()[0].clips.iter().map(|c| c.offset).collect()
}

#[test]
fn track_ids_should_never_come_back_on_a_line() {
    let mut t = document();
    let mut seen = track_ids(&t);
    for kind in [TrackKind::Audio, TrackKind::Video, TrackKind::Audio] {
        t = apply(&t, &Command::AddTrack { kind }).unwrap();
        let fresh: Vec<_> = track_ids(&t).into_iter().filter(|id| !seen.contains(id)).collect();
        assert_eq!(fresh.len(), 1);
        seen.extend(&fresh);
        t = apply(&t, &Command::RemoveTrack { track: fresh[0] }).unwrap();
    }
    assert_eq!(track_ids(&t).len(), 1);
}

#[test]
fn a_session_should_hand_out_no_id_of_a_dropped_version() {
    let mut ed = Editor::new(document());
    let track = ed.current().video_tracks()[0].id;
    let mut clips = clip_ids(ed.current());
    let mut tracks = track_ids(ed.current());
    for _ in 0..3 {
        let more = Command::Batch(vec![
            Command::AddClip { track, clip: Box::new(clip("n.mp4", 9, 1)) },
            Command::AddTrack { kind: TrackKind::Audio },
        ]);
        let version = ed.apply(&more).unwrap();
        let last = *clip_ids(version).last().unwrap();
        let added = *track_ids(version).last().unwrap();
        assert!(!clips.contains(&last) && !tracks.contains(&added));
        clips.push(last);
        tracks.push(added);
        ed.undo();
    }
}

#[test]
fn a_session_should_fail_as_its_current_version_does() {
    let mut ed = Editor::new(document());
    let track = ed.current().video_tracks()[0].id;
    let add = Command::AddClip { track, clip: Box::new(clip("n.mp4", 9, 1)) };
    ed.apply(&add).unwrap();
    ed.undo();
    let nowhere = ClipId(99);
    for command in [
        Command::RemoveClip { clip: nowhere },
        Command::Batch(vec![
            Command::AddClip { track, clip: Box::new(clip("m.mp4", 9, 1)) },
            Command::RemoveClip { clip: nowhere },
        ]),
    ] {
        let missing = Some(EditError::ClipNotFound { id: nowhere });
        assert_eq!(apply(ed.current(), &command).err(), missing);
        assert_eq!(ed.apply(&command).err(), missing);
        assert!(ed.can_redo(), "what was undone can still be redone");
    }
    ed.redo().unwrap();
    assert_eq!(clip_ids(ed.current()).len(), 4);
}

#[test]
fn a_batch_that_names_its_own_ids_should_meet_them_past_the_undone_ones() {
    let mut ed = Editor::new(document());
    let track = ed.current().video_tracks()[0].id;
    let next = ClipId(clip_ids(ed.current()).iter().map(|id| id.0).max().unwrap() + 1);
    let add = Command::AddClip { track, clip: Box::new(clip("n.mp4", 9, 1)) };
    ed.apply(&add).unwrap();
    ed.undo();
    let both = Command::Batch(vec![
        Command::AddClip { track, clip: Box::new(clip("n.mp4", 9, 1)) },
        Command::RemoveClip { clip: next },
    ]);
    assert!(apply(ed.current(), &both).is_ok());
    assert_eq!(ed.apply(&both).err(), Some(EditError::ClipNotFound { id: next }));
}

#[test]
fn a_ripple_trim_should_be_undone_by_another() {
    let t = document();
    let id = clip_ids(&t)[0];
    let trim = |to: u64| Command::RippleTrim {
        clip: id,
        in_point: Some(secs(0)),
        out_point: Some(secs(to)),
    };
    for to in [1, 4] {
        let n = apply(&t, &trim(to)).unwrap();
        assert_eq!(offsets(&n), vec![secs(0), secs(to), secs(to + 3)]);
        let back = apply(&n, &trim(2)).unwrap();
        assert_eq!(back.video_tracks(), t.video_tracks());
    }
}

#[test]
fn a_batch_that_hands_nothing_out_should_fail_as_on_the_current_version() {
    let mut ed = Editor::new(document());
    let track = ed.current().video_tracks()[0].id;
    let next = ClipId(clip_ids(ed.current()).iter().map(|id| id.0).max().unwrap() + 1);
    ed.apply(&Command::AddClip { track, clip: Box::new(clip("n.mp4", 9, 1)) }).unwrap();
    ed.undo();
    let early = || Command::RemoveClip { clip: next };
    let add = || Command::AddClip { track, clip: Box::new(clip("n.mp4", 9, 1)) };
    for command in [Command::Batch(vec![early()]), Command::Batch(vec![early(), add()])] {
        let missing = Some(EditError::ClipNotFound { id: next });
        assert_eq!(apply(ed.current(), &command).err(), missing);
        assert_eq!(ed.apply(&command).err(), missing);
    }
}

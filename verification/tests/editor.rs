use avio::clip::Clip;
use avio::edit::{Command, EditError};
use avio::editor::Editor;
use avio::float::double::F64;
use avio::timeline::{Probe, Timeline};

fn double(v: f64) -> F64 {
    F64::from_bits(v.to_bits())
}

fn number(v: F64) -> f64 {
    f64::from_bits(v.to_bits())
}

fn file(path: &str) -> Clip {
    Clip::new(path.to_string())
}

fn timeline(fps: f64) -> Timeline {
    Timeline::builder()
        .canvas(1920, 1080)
        .frame_rate(double(fps))
        .video_track(vec![file("a.mp4")])
        .build(Probe::Skipped)
        .unwrap()
}

fn set_fps(fps: f64) -> Command {
    Command::SetFrameRate { fps: double(fps) }
}

#[test]
fn editor_new_should_start_with_no_undo_or_redo() {
    let ed = Editor::new(timeline(30.0));
    assert!(!ed.can_undo());
    assert!(!ed.can_redo());
    assert!((number(ed.current().frame_rate()) - 30.0).abs() < f64::EPSILON);
}

#[test]
fn editor_apply_should_advance_and_enable_undo() {
    let mut ed = Editor::new(timeline(30.0));
    let cur = ed.apply(&set_fps(24.0)).unwrap();
    assert!((number(cur.frame_rate()) - 24.0).abs() < f64::EPSILON);
    assert!(ed.can_undo());
    assert!(!ed.can_redo());
}

#[test]
fn editor_undo_should_restore_previous_version() {
    let mut ed = Editor::new(timeline(30.0));
    ed.apply(&set_fps(24.0)).unwrap();
    let prev = ed.undo().unwrap();
    assert!((number(prev.frame_rate()) - 30.0).abs() < f64::EPSILON);
    assert!(!ed.can_undo());
    assert!(ed.can_redo());
}

#[test]
fn editor_redo_should_reapply_the_undone_version() {
    let mut ed = Editor::new(timeline(30.0));
    ed.apply(&set_fps(24.0)).unwrap();
    ed.undo().unwrap();
    let next = ed.redo().unwrap();
    assert!((number(next.frame_rate()) - 24.0).abs() < f64::EPSILON);
    assert!(!ed.can_redo());
}

#[test]
fn editor_undo_at_start_should_return_none() {
    let mut ed = Editor::new(timeline(30.0));
    assert!(ed.undo().is_none());
    assert!((number(ed.current().frame_rate()) - 30.0).abs() < f64::EPSILON);
}

#[test]
fn editor_redo_at_end_should_return_none() {
    let mut ed = Editor::new(timeline(30.0));
    ed.apply(&set_fps(24.0)).unwrap();
    assert!(ed.redo().is_none());
}

#[test]
fn editor_new_edit_after_undo_should_truncate_redo() {
    let mut ed = Editor::new(timeline(30.0));
    ed.apply(&set_fps(24.0)).unwrap();
    ed.apply(&set_fps(48.0)).unwrap();
    ed.undo().unwrap();
    let cur = ed.apply(&set_fps(60.0)).unwrap();
    assert!((number(cur.frame_rate()) - 60.0).abs() < f64::EPSILON);
    assert!(!ed.can_redo());
    assert!(ed.redo().is_none());
}

#[test]
fn editor_apply_error_should_leave_history_unchanged() {
    let mut ed = Editor::new(timeline(30.0));
    ed.apply(&set_fps(24.0)).unwrap();
    let err = ed.apply(&set_fps(0.0)).unwrap_err();
    assert_eq!(err, EditError::InvalidFrameRate(double(0.0)));
    assert!(ed.can_undo());
    assert!(!ed.can_redo());
    assert!((number(ed.current().frame_rate()) - 24.0).abs() < f64::EPSILON);
}

#[test]
fn editor_should_preserve_clip_id_across_undo_redo() {
    let mut ed = Editor::new(timeline(30.0));
    let track = ed.current().video_tracks()[0].id;
    ed.apply(&Command::AddClip {
        track,
        clip: Box::new(file("x.mp4")),
    })
    .unwrap();
    let id = ed.current().video_tracks()[0].clips[1].id;
    ed.undo().unwrap();
    let after = ed.redo().unwrap();
    assert_eq!(
        after.video_tracks()[0].clips[1].id,
        id,
        "undo/redo must not renumber the clip"
    );
}

#[test]
fn editor_should_not_reuse_ids_across_undo() {
    let mut ed = Editor::new(timeline(30.0));
    let track = ed.current().video_tracks()[0].id;
    ed.apply(&Command::AddClip {
        track,
        clip: Box::new(file("a.mp4")),
    })
    .unwrap();
    let first = ed.current().video_tracks()[0].clips[1].id;
    ed.undo().unwrap();
    let after = ed
        .apply(&Command::AddClip {
            track,
            clip: Box::new(file("b.mp4")),
        })
        .unwrap();
    let second = after.video_tracks()[0].clips[1].id;
    assert_ne!(
        first, second,
        "an id used by a discarded branch must not be reused"
    );
}

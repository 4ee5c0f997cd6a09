use avio::error::TimelineError;

#[test]
fn timeline_error_render_failed_should_display_correctly() {
    let err = TimelineError::TimelineRenderFailed {
        reason: "not implemented".to_string(),
    };
    assert_eq!(err.message(), "timeline render failed: not implemented");
}

#[test]
fn timeline_error_clip_not_found_should_include_path_in_message() {
    let err = TimelineError::ClipNotFound {
        path: "/tmp/missing.mp4".to_string(),
    };
    assert_eq!(
        err.message(),
        "clip source not found: path=/tmp/missing.mp4"
    );
}

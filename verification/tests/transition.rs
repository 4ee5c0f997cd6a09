use avio::clip::Clip;
use avio::filter::{Color, XfadeTransition};
use avio::float::double::F64;
use avio::time::Duration;
use avio::transition::{
    clamp_to_handle, composited_secs, effective_duration, effective_durations, handle_path,
    has_finite_tail, to_source, video_handle,
};

fn double(v: f64) -> F64 {
    F64::from_bits(v.to_bits())
}

fn number(v: F64) -> f64 {
    f64::from_bits(v.to_bits())
}

fn seconds(v: f64) -> Duration {
    Duration::try_from_secs_f64(double(v)).unwrap()
}

fn file(path: &str) -> Clip {
    Clip::new(path.to_string())
}

fn fade(clip: Clip, millis: u64) -> Clip {
    clip.with_transition(XfadeTransition::Fade, Duration::from_millis(millis))
}

#[test]
fn clamp_to_handle_should_keep_the_authored_duration_when_the_handle_is_unbounded() {
    let authored = Duration::from_millis(500);
    assert_eq!(clamp_to_handle(authored, None), authored);
}

#[test]
fn clamp_to_handle_should_keep_the_authored_duration_when_the_handle_covers_it() {
    let authored = Duration::from_millis(500);
    assert_eq!(
        clamp_to_handle(authored, Some(Duration::from_millis(500))),
        authored,
        "a handle exactly as long as the transition is enough"
    );
    assert_eq!(clamp_to_handle(authored, Some(Duration::from_secs(2))), authored);
}

#[test]
fn clamp_to_handle_should_shorten_to_a_partial_handle() {
    assert_eq!(
        clamp_to_handle(Duration::from_millis(500), Some(Duration::from_millis(200))),
        Duration::from_millis(200)
    );
}

#[test]
fn clamp_to_handle_should_degrade_to_a_hard_cut_with_no_handle() {
    assert_eq!(
        clamp_to_handle(Duration::from_millis(500), Some(Duration::zero())),
        Duration::zero()
    );
}

#[test]
fn to_source_should_scale_a_span_by_the_speed() {
    assert_eq!(
        to_source(Duration::from_millis(500), double(2.0)),
        Duration::from_secs(1),
        "half a second on screen is a second of source at speed 2.0"
    );
    assert_eq!(
        to_source(Duration::from_millis(500), double(0.5)),
        Duration::from_millis(250)
    );
    assert_eq!(
        to_source(Duration::from_millis(500), double(1.0)),
        Duration::from_millis(500)
    );
}

#[test]
fn to_source_should_degrade_rather_than_panic_on_an_unvalidated_speed() {
    let span = Duration::from_millis(500);
    let floored = seconds(0.5 * 0.01);
    assert_eq!(to_source(span, double(f64::INFINITY)), span);
    assert_eq!(to_source(span, double(f64::NAN)), floored);
    assert_eq!(
        to_source(span, double(-3.0)),
        floored,
        "a negative speed is floored, not applied"
    );
}

#[test]
fn composited_secs_should_scale_a_clip_span_by_its_speed() {
    let secs = |source: f64, speed: f64| number(composited_secs(double(source), double(speed)));
    assert!((secs(1.0, 2.0) - 0.5).abs() < 1e-9);
    assert!((secs(1.0, 0.5) - 2.0).abs() < 1e-9);
    assert!((secs(1.0, 1.0) - 1.0).abs() < 1e-9);
    assert!(
        secs(1.0, 0.0).is_finite(),
        "a zero speed is floored rather than dividing by zero"
    );
}

#[test]
fn effective_duration_should_be_zero_without_a_transition() {
    let outgoing = Clip::solid(Color::rgb(0, 0, 0));
    let incoming = Clip::solid(Color::rgb(255, 255, 255));
    assert_eq!(
        effective_duration(&outgoing, &incoming, None),
        Duration::zero()
    );
}

#[test]
fn effective_duration_should_be_unclamped_for_a_generated_outgoing_clip() {
    let outgoing = Clip::solid(Color::rgb(0, 0, 0)).trim(Duration::zero(), Duration::from_secs(1));
    let incoming = fade(Clip::solid(Color::rgb(255, 255, 255)), 500);
    assert_eq!(
        effective_duration(&outgoing, &incoming, None),
        Duration::from_millis(500),
        "a color source generates frames past its out-point, so the handle is unbounded"
    );
}

#[test]
fn effective_duration_should_be_zero_when_the_outgoing_clip_has_no_out_point() {
    let outgoing = file("a.mp4");
    let incoming = fade(file("b.mp4"), 500);
    assert_eq!(
        effective_duration(&outgoing, &incoming, Some(Duration::from_secs(9))),
        Duration::zero()
    );
}

#[test]
fn a_handle_is_what_the_source_holds_past_the_out_point() {
    let clip = file("a.mp4").trim(Duration::from_secs(1), Duration::from_secs(3));
    assert_eq!(handle_path(&clip), Some("a.mp4".to_string()));
    assert_eq!(
        video_handle(&clip, Some(Duration::from_millis(3_400))),
        Some(Duration::from_millis(400))
    );
    assert_eq!(
        video_handle(&clip, Some(Duration::from_secs(2))),
        Some(Duration::zero()),
        "a source that ends before the out-point leaves no handle"
    );
    assert_eq!(
        video_handle(&clip, None),
        Some(Duration::zero()),
        "a source that cannot be read leaves no handle"
    );
}

#[test]
fn a_handle_is_counted_in_timeline_time() {
    let clip = file("a.mp4")
        .trim(Duration::zero(), Duration::from_secs(3))
        .with_speed(double(2.0));
    assert_eq!(
        video_handle(&clip, Some(Duration::from_secs(4))),
        Some(Duration::from_millis(500))
    );
    let crawling = file("a.mp4")
        .trim(Duration::zero(), Duration::from_secs(3))
        .with_speed(double(0.0));
    assert_eq!(
        video_handle(&crawling, Some(Duration::from_secs(4))),
        Some(Duration::from_secs(100)),
        "a speed counts as one hundredth at least"
    );
}

#[test]
fn every_boundary_of_a_track_has_its_own_duration() {
    let clips = vec![
        fade(file("a.mp4"), 900).trim(Duration::zero(), Duration::from_secs(1)),
        fade(file("b.mp4"), 500).trim(Duration::zero(), Duration::from_secs(1)),
        file("c.mp4").trim(Duration::zero(), Duration::from_secs(1)),
        fade(file("d.mp4"), 500),
    ];
    let sources = vec![
        Some(Duration::from_millis(1_200)),
        Some(Duration::from_secs(5)),
        Some(Duration::from_secs(5)),
        None,
    ];
    assert_eq!(
        effective_durations(&clips, &sources),
        vec![
            Duration::zero(),
            Duration::from_millis(200),
            Duration::zero(),
            Duration::from_millis(500),
        ]
    );
}

#[test]
fn a_generated_clip_names_no_file_for_its_handle() {
    let clip = Clip::solid(Color::rgb(1, 2, 3)).trim(Duration::zero(), Duration::from_secs(1));
    assert_eq!(handle_path(&clip), None);
    assert_eq!(video_handle(&clip, None), None);
    assert_eq!(handle_path(&file("a.mp4")), None);
}

#[test]
fn a_tail_should_be_a_span_of_time() {
    let mut clip = file("a.mp4").trim(Duration::zero(), Duration::from_secs(1));
    assert!(has_finite_tail(&clip, Some(Duration::from_secs(u64::MAX))));
    clip.speed = double(0.5);
    assert!(has_finite_tail(&clip, Some(Duration::from_secs(9))));
    assert!(!has_finite_tail(&clip, Some(Duration::from_secs(u64::MAX))));
    assert!(has_finite_tail(&clip, None));
}

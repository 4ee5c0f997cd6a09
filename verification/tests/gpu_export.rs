use avio::clip::Clip;
use avio::error::TimelineError;
use avio::filter::{AnimatedValue, BlendMode, Color, FilterStep, XfadeTransition};
use avio::float::double::F64;
use avio::float::single::F32;
use avio::gpu_export::{
    budget_frames, clip_shape, eligible_track, export_maps_to_gpu, failure_reason, output_time,
    sole_track, transition_window, window_frames, Act, Drain, DrainFailure, Happened, Pull,
    SourceClock, SourceFacts, Stage,
};
use avio::gpu_transition::{map_transition, GpuTransition};
use avio::time::Duration;
use avio::timeline::{Probe, Timeline};
use avio::track::{has_solo, TrackAutomation};

fn double(v: f64) -> F64 {
    F64::from_bits(v.to_bits())
}

fn single(v: f32) -> F32 {
    F32::from_bits(v.to_bits())
}

fn seconds(v: f64) -> Duration {
    Duration::try_from_secs_f64(double(v)).unwrap()
}

fn file(path: &str) -> Clip {
    Clip::new(path.to_string())
}

/// The first keyframe's value.
fn at_zero(v: &AnimatedValue) -> F64 {
    match v {
        AnimatedValue::Static(x) => *x,
        AnimatedValue::Track(t) => t.keyframes[0].value,
    }
}

/// A square timeline with one video track.
fn square_timeline(clips: Vec<Clip>) -> Timeline {
    Timeline::builder()
        .canvas(64, 64)
        .frame_rate(double(30.0))
        .video_track(clips)
        .build(Probe::Skipped)
        .unwrap()
}

/// What the export decides where every source tells the same.
fn eligible_with(timeline: &Timeline, facts: SourceFacts) -> Option<usize> {
    let solo = has_solo(&timeline.video_tracks);
    let sources = match sole_track(&timeline.video_tracks, solo) {
        Some(k) => vec![facts; timeline.video_tracks[k].clips.len()],
        None => vec![],
    };
    eligible_track(
        &timeline.video_tracks,
        timeline.lavfi_overlay.as_deref(),
        solo,
        (timeline.canvas_width, timeline.canvas_height),
        timeline.frame_rate,
        &sources,
        &at_zero,
    )
}

/// Sources that can be opened: two seconds long, at the given rate.
fn eligible_at(timeline: &Timeline, rate: f64) -> Option<usize> {
    eligible_with(
        timeline,
        SourceFacts { length: Some(Duration::from_secs(2)), rate: Some(double(rate)) },
    )
}

/// Sources that can be opened, so that only the timeline itself decides.
fn eligible(timeline: &Timeline) -> Option<usize> {
    eligible_at(timeline, 30.0)
}

/// A clip of `secs` seconds at `at`.
fn placed(path: &str, at: f64, secs: f64) -> Clip {
    file(path).offset(seconds(at)).trim(Duration::zero(), seconds(secs))
}

fn fade(clip: Clip, millis: u64) -> Clip {
    clip.with_transition(XfadeTransition::Fade, Duration::from_millis(millis))
}

fn trail() -> FilterStep<AnimatedValue> {
    FilterStep::MotionBlur { shutter_angle_degrees: single(180.0), sub_frames: 4 }
}

fn clock(frame_rate: f64, budget: Option<u64>) -> SourceClock {
    SourceClock {
        budget,
        produced: 0,
        frame_rate: double(frame_rate),
        one_to_one: false,
        base: Duration::zero(),
        decoded: 0,
        held: None,
        pending: None,
        eof: false,
    }
}

/// Runs a clock over a source whose frames stand at `src_pts` until it is finished or has given
/// `outputs` frames.
fn run(mut clock: SourceClock, src_pts: &[Duration], outputs: usize) -> Vec<u64> {
    let mut shown = Vec::new();
    let mut next = 0;
    while shown.len() < outputs {
        let mut pull = clock.next();
        loop {
            match pull {
                Pull::Done => return shown,
                Pull::Show(n) => {
                    shown.push(n);
                    break;
                }
                Pull::Decode => {
                    if next < src_pts.len() {
                        let at = src_pts[next];
                        next += 1;
                        pull = clock.feed(at);
                    } else {
                        pull = clock.end();
                    }
                }
            }
        }
    }
    shown
}

fn conform_plan(src_pts: &[Duration], out_fps: f64, outputs: usize) -> Vec<u64> {
    run(clock(out_fps, None), src_pts, outputs)
}

/// `count` frames at `fps`, as clip-relative timestamps.
fn pts_at(fps: f64, count: usize) -> Vec<Duration> {
    (0..count).map(|i| seconds(i as f64 / fps)).collect()
}

#[test]
fn conform_should_repeat_frames_when_source_is_slower() {
    let plan = conform_plan(&pts_at(24.0, 6), 30.0, 7);
    assert_eq!(plan, [0, 0, 1, 2, 3, 4, 4]);
}

#[test]
fn conform_should_skip_frames_when_source_is_faster() {
    let plan = conform_plan(&pts_at(60.0, 9), 30.0, 5);
    assert_eq!(plan, [0, 2, 4, 6, 8]);
}

#[test]
fn conform_should_be_identity_at_matching_rates() {
    let plan = conform_plan(&pts_at(30.0, 5), 30.0, 5);
    assert_eq!(plan, [0, 1, 2, 3, 4]);
}

#[test]
fn conform_should_ignore_a_misreported_container_rate() {
    let plan = conform_plan(&pts_at(30.0, 15), 30.0, 15);
    assert_eq!(plan, (0..15).collect::<Vec<_>>());
}

#[test]
fn conform_should_show_the_first_frame_before_its_time() {
    let late: Vec<Duration> = vec![seconds(0.5), seconds(0.6)];
    assert_eq!(conform_plan(&late, 10.0, 7), [0, 0, 0, 0, 0, 0, 1]);
}

#[test]
fn conform_should_end_with_its_source_or_its_budget() {
    assert_eq!(conform_plan(&pts_at(30.0, 3), 30.0, 9), [0, 1, 2]);
    assert_eq!(run(clock(30.0, Some(2)), &pts_at(30.0, 9), 9), [0, 1]);
    assert_eq!(run(clock(30.0, Some(0)), &pts_at(30.0, 9), 9), Vec::<u64>::new());
    assert_eq!(conform_plan(&[], 30.0, 9), Vec::<u64>::new());
}

#[test]
fn a_trimmed_clip_is_timed_from_its_in_point() {
    let clip = file("a.mp4").trim(seconds(1.0), seconds(1.2));
    let clock = SourceClock::open(&clip, double(10.0), double(5.0)).unwrap();
    assert!(!clock.one_to_one);
    assert_eq!(clock.budget, Some(2));
    let pts = [seconds(1.0), seconds(1.2), seconds(1.4)];
    assert_eq!(run(clock, &pts, 9), [0, 0]);
}

#[test]
fn a_source_at_the_timeline_rate_gives_one_frame_for_each_output() {
    let clip = file("a.mp4").trim(seconds(0.0), seconds(0.1));
    let clock = SourceClock::open(&clip, double(30.0), double(30.0005)).unwrap();
    assert!(clock.one_to_one);
    let odd = [seconds(0.0), seconds(0.0), seconds(9.0), seconds(9.0)];
    assert_eq!(run(clock, &odd, 9), [0, 1, 2]);
    assert!(SourceClock::open(&clip, double(30.0), double(f64::NAN)).unwrap().one_to_one);
    assert!(SourceClock::open(&clip, double(30.0), double(0.0)).unwrap().one_to_one);
    assert!(!SourceClock::open(&clip, double(30.0), double(30.002)).unwrap().one_to_one);
}

#[test]
fn a_generated_clip_has_no_source_to_open() {
    let clip = Clip::solid(Color::rgb(1, 2, 3));
    assert_eq!(
        SourceClock::open(&clip, double(30.0), double(30.0)),
        Err(TimelineError::TimelineRenderFailed {
            reason: "gpu export: clip lost its file source".to_string()
        })
    );
}

#[test]
fn a_handle_lets_a_clip_run_on() {
    let mut c = clock(30.0, Some(2));
    c.allow_handle(3);
    assert_eq!(run(c, &pts_at(30.0, 9), 9), [0, 1, 2, 3, 4]);
    let mut endless = clock(30.0, None);
    endless.allow_handle(3);
    assert_eq!(endless.budget, None);
    let mut full = clock(30.0, Some(u64::MAX));
    full.allow_handle(3);
    assert_eq!(full.budget, Some(u64::MAX));
}

#[test]
fn eligible_track_should_accept_a_source_whose_rate_differs_from_the_timeline() {
    let t = square_timeline(vec![file("a.mp4")]);
    assert_eq!(
        eligible_at(&t, 24.0),
        Some(0),
        "a 24 fps source in a 30 fps timeline must be GPU-eligible"
    );
}

#[test]
fn eligible_track_should_accept_a_source_whose_aspect_differs_from_the_canvas() {
    let t = square_timeline(vec![file("a.mp4")]);
    assert_eq!(
        eligible(&t),
        Some(0),
        "a 16:9 source on a square canvas must be GPU-eligible"
    );
}

#[test]
fn eligible_track_should_reject_a_generated_source() {
    let t = square_timeline(vec![
        Clip::solid(Color::rgb(1, 2, 3)).trim(Duration::zero(), Duration::from_secs(1))
    ]);
    assert!(eligible(&t).is_none());
}

#[test]
fn window_frames_should_match_the_cpu_route_measurement() {
    let window = window_frames(Duration::from_millis(500), double(30.0));
    assert_eq!(window, 15);
    assert_eq!(30 + 30, 60);
}

#[test]
fn window_frames_should_round_a_sub_frame_duration_to_zero() {
    assert_eq!(window_frames(Duration::from_millis(10), double(30.0)), 0);
}

#[test]
fn export_maps_to_gpu_should_accept_every_libm_independent_kind() {
    for kind in [
        XfadeTransition::Fade,
        XfadeTransition::WipeLeft,
        XfadeTransition::WipeRight,
        XfadeTransition::WipeUp,
        XfadeTransition::WipeDown,
        XfadeTransition::FadeBlack,
        XfadeTransition::FadeWhite,
    ] {
        assert!(
            export_maps_to_gpu(kind),
            "{kind:?} agrees with the CPU export and must render on the GPU"
        );
    }
}

#[test]
fn export_maps_to_gpu_should_reject_dissolve_despite_it_mapping() {
    assert!(
        map_transition(XfadeTransition::Dissolve).is_some(),
        "Dissolve still maps to a node"
    );
    assert!(
        !export_maps_to_gpu(XfadeTransition::Dissolve),
        "Dissolve must stay on the CPU export"
    );
}

#[test]
fn export_maps_to_gpu_should_reject_a_kind_with_no_node() {
    for kind in [
        XfadeTransition::SlideLeft,
        XfadeTransition::CircleOpen,
        XfadeTransition::FadeGrays,
        XfadeTransition::Pixelize,
    ] {
        assert!(!export_maps_to_gpu(kind), "{kind:?} has no GPU node");
    }
}

#[test]
fn eligible_track_should_accept_a_fade_into_the_last_clip() {
    let t = square_timeline(vec![
        placed("a.mp4", 0.0, 1.0),
        fade(placed("a.mp4", 1.0, 1.0), 500),
    ]);
    assert_eq!(
        eligible(&t),
        Some(0),
        "a Fade into the last clip must be GPU-eligible"
    );
}

#[test]
fn eligible_track_should_accept_a_transition_on_a_middle_clip() {
    let t = square_timeline(vec![
        placed("a.mp4", 0.0, 1.0),
        fade(placed("a.mp4", 1.0, 1.0), 500),
        placed("a.mp4", 2.0, 1.0),
    ]);
    assert_eq!(
        eligible(&t),
        Some(0),
        "a transition on a middle clip must be GPU-eligible"
    );
}

#[test]
fn eligible_track_should_reject_a_transition_with_no_handle_to_feed_it() {
    let t = square_timeline(vec![
        placed("a.mp4", 0.0, 2.0),
        fade(placed("a.mp4", 2.0, 1.0), 500),
    ]);
    assert!(
        eligible(&t).is_none(),
        "with no handle the transition clamps to a hard cut, which the GPU route leaves to the CPU"
    );
}

#[test]
fn eligible_track_should_ignore_a_transition_on_the_first_clip() {
    let t = square_timeline(vec![fade(placed("a.mp4", 0.0, 1.0), 500)]);
    assert_eq!(eligible(&t), Some(0));
}

#[test]
fn eligible_track_should_reject_a_transition_kind_with_no_gpu_node() {
    let t = square_timeline(vec![
        placed("a.mp4", 0.0, 1.0),
        placed("b.mp4", 1.0, 1.0)
            .with_transition(XfadeTransition::SlideLeft, Duration::from_millis(500)),
    ]);
    assert!(eligible(&t).is_none());
}

#[test]
fn eligible_track_should_accept_a_transition_longer_than_the_outgoing_clip_body() {
    let t = square_timeline(vec![
        placed("a.mp4", 0.0, 0.3),
        fade(placed("a.mp4", 0.3, 1.0), 500),
    ]);
    assert_eq!(
        eligible(&t),
        Some(0),
        "the outgoing clip's body does not bound the window; its handle does"
    );
}

#[test]
fn eligible_track_should_reject_a_sub_frame_transition() {
    let t = square_timeline(vec![
        placed("a.mp4", 0.0, 1.0),
        fade(placed("b.mp4", 1.0, 1.0), 10),
    ]);
    assert!(eligible(&t).is_none());
}

#[test]
fn eligible_track_should_reject_a_transition_into_a_clip_of_unknown_duration() {
    let t = square_timeline(vec![
        placed("a.mp4", 0.0, 1.0),
        fade(file("b.mp4").offset(Duration::from_secs(1)), 500),
    ]);
    assert!(eligible(&t).is_none());
}

#[test]
fn eligible_track_should_reject_a_transition_beside_a_stateful_effect() {
    let t = square_timeline(vec![
        placed("a.mp4", 0.0, 1.0).with_video_effect(trail()),
        fade(placed("b.mp4", 1.0, 1.0), 500),
    ]);
    assert!(eligible(&t).is_none());
}

#[test]
fn eligible_track_should_reject_a_transition_beside_a_transparent_clip() {
    let t = square_timeline(vec![
        placed("a.mp4", 0.0, 1.0),
        fade(placed("b.mp4", 1.0, 1.0).with_opacity(single(0.5)), 500),
    ]);
    assert!(eligible(&t).is_none());
}

#[test]
fn eligible_track_should_reject_a_transition_beside_a_non_normal_blend() {
    let t = square_timeline(vec![
        placed("a.mp4", 0.0, 1.0).with_blend_mode(BlendMode::Multiply),
        fade(placed("b.mp4", 1.0, 1.0), 500),
    ]);
    assert!(eligible(&t).is_none());
}

#[test]
fn eligible_track_should_accept_a_transparent_clip_without_a_transition() {
    let t = square_timeline(vec![
        placed("a.mp4", 0.0, 1.0).with_opacity(single(0.5)),
        placed("a.mp4", 1.0, 1.0),
    ]);
    assert_eq!(eligible(&t), Some(0));
}

#[test]
fn eligible_track_should_accept_a_stateful_effect_without_a_transition() {
    let t = square_timeline(vec![
        placed("a.mp4", 0.0, 1.0).with_video_effect(trail()),
        placed("a.mp4", 1.0, 1.0),
    ]);
    assert_eq!(eligible(&t), Some(0));
}

#[test]
fn eligible_track_should_reject_non_unity_speed() {
    let t = square_timeline(vec![file("a.mp4").with_speed(double(2.0))]);
    assert!(eligible(&t).is_none());
}

#[test]
fn eligible_track_should_reject_a_non_identity_transform() {
    let t = square_timeline(vec![file("a.mp4").with_scale(double(0.5))]);
    assert!(eligible(&t).is_none());
}

#[test]
fn eligible_track_should_reject_a_leading_gap() {
    let t = square_timeline(vec![
        file("a.mp4")
            .trim(Duration::zero(), Duration::from_secs(1))
            .offset(Duration::from_secs(1)),
    ]);
    assert!(eligible(&t).is_none());
}

#[test]
fn eligible_track_should_reject_an_inter_clip_gap() {
    let t = square_timeline(vec![
        file("a.mp4").trim(Duration::zero(), Duration::from_secs(1)),
        file("b.mp4")
            .trim(Duration::zero(), Duration::from_secs(1))
            .offset(Duration::from_secs(2)),
    ]);
    assert!(eligible(&t).is_none());
}

#[test]
fn eligible_track_should_reject_an_interior_clip_of_unknown_duration() {
    let t = square_timeline(vec![
        file("a.mp4"),
        file("b.mp4").offset(Duration::from_secs(1)),
    ]);
    assert!(eligible(&t).is_none());
}

#[test]
fn eligible_track_should_reject_a_lavfi_overlay() {
    let mut t = square_timeline(vec![file("a.mp4")]);
    t.lavfi_overlay = Some("color=red".to_string());
    assert!(eligible(&t).is_none());
}

#[test]
fn eligible_track_should_reject_two_active_video_tracks() {
    let t = Timeline::builder()
        .canvas(64, 64)
        .frame_rate(double(30.0))
        .video_track(vec![file("a.mp4")])
        .video_track(vec![file("b.mp4")])
        .build(Probe::Skipped)
        .unwrap();
    assert!(eligible(&t).is_none());
    let mut muted = t;
    muted.video_tracks[0].mute = true;
    assert_eq!(eligible(&muted), Some(1), "a muted track does not count");
}

#[test]
fn eligible_track_should_reject_a_source_without_a_usable_rate() {
    let t = square_timeline(vec![file("a.mp4")]);
    for rate in [f64::NAN, f64::INFINITY, 0.0, -30.0] {
        assert!(eligible_at(&t, rate).is_none(), "a rate of {rate} cannot be used");
    }
    assert!(eligible_with(&t, SourceFacts { length: None, rate: None }).is_none());
    assert_eq!(
        eligible_with(&t, SourceFacts { length: None, rate: Some(double(30.0)) }),
        Some(0)
    );
}

#[test]
fn eligible_track_should_reject_a_window_longer_than_the_incoming_clip() {
    let t = square_timeline(vec![
        placed("a.mp4", 0.0, 1.0),
        fade(placed("b.mp4", 1.0, 0.3), 500),
    ]);
    assert!(eligible(&t).is_none());
}

#[test]
fn clip_shape_should_tell_what_may_blend() {
    let automation = TrackAutomation::default();
    let shape = |c: &Clip| clip_shape(c, &automation, (64, 64), &at_zero);
    let plain = shape(&file("a.mp4"));
    assert!(plain.mapped && plain.still && plain.blendable);
    let blurred = shape(&file("a.mp4").with_video_effect(trail()));
    assert!(blurred.mapped && blurred.still && !blurred.blendable);
    let moved = shape(&file("a.mp4").with_rotation(double(3.0)));
    assert!(moved.mapped && !moved.still);
    let odd = shape(&file("a.mp4").with_video_effect(FilterStep::Other {
        spelling: "negate".to_string(),
    }));
    assert!(!odd.mapped && !odd.blendable);
}

#[test]
fn budget_frames_should_count_a_clip_of_known_length() {
    assert_eq!(
        budget_frames(&placed("a.mp4", 0.0, 1.5), double(30.0)),
        Some(45)
    );
    assert_eq!(budget_frames(&file("a.mp4"), double(30.0)), None);
}

#[test]
fn transition_window_should_name_a_kind_that_cannot_be_rendered() {
    let plain = placed("a.mp4", 0.0, 1.0);
    assert_eq!(
        transition_window(&plain, Duration::from_secs(1), double(30.0)),
        Ok(0)
    );
    let faded = fade(placed("a.mp4", 0.0, 1.0), 500);
    assert_eq!(
        transition_window(&faded, Duration::from_millis(400), double(30.0)),
        Ok(12)
    );
    let noisy = placed("a.mp4", 0.0, 1.0)
        .with_transition(XfadeTransition::Dissolve, Duration::from_millis(500));
    assert_eq!(
        transition_window(&noisy, Duration::from_millis(500), double(30.0)),
        Err(TimelineError::TimelineRenderFailed {
            reason: "gpu export: transition Dissolve has no GPU node (precluded by eligibility)"
                .to_string()
        })
    );
}

#[test]
fn output_time_should_be_undefined_where_the_rate_gives_no_time() {
    assert_eq!(output_time(45, double(30.0)), Some(seconds(1.5)));
    assert_eq!(output_time(1, double(0.0)), None);
    assert_eq!(output_time(1, double(-1.0)), None);
}

/// Runs an export whose sources give the frames that `supply` says, clip by clip, and records
/// what reaches the encoder: `(clip, None)` alone, or `(clip, Some(progress))` blended into it.
fn drain(
    clips: &Vec<Clip>,
    effective: &Vec<Duration>,
    supply: &[u64],
) -> (Vec<(usize, Option<f32>)>, Act, u32) {
    let mut export = Drain::new(clips, effective, double(30.0));
    let mut left: Vec<u64> = supply.to_vec();
    let mut sent = Vec::new();
    let mut at = (0, None);
    let mut act = export.start();
    loop {
        let h = match act {
            Act::Open { clip, handle } => {
                if clip > 0 {
                    left[clip - 1] += handle;
                }
                Happened::Opened
            }
            Act::Pull { clip } => {
                if left[clip] == 0 {
                    Happened::Spent
                } else {
                    left[clip] -= 1;
                    at = (clip, None);
                    Happened::Composited
                }
            }
            Act::Blend { node, progress } => {
                assert_eq!(node, GpuTransition::Fade);
                at.1 = Some(f32::from_bits(progress.to_bits()));
                Happened::Blended
            }
            Act::Push => {
                sent.push(at);
                Happened::Pushed
            }
            Act::Finish | Act::Fail(_) => return (sent, act, export.video_idx),
        };
        act = export.step(h);
    }
}

#[test]
fn a_transition_should_cost_the_track_nothing() {
    let clips = vec![
        placed("a.mp4", 0.0, 0.1),
        fade(placed("b.mp4", 0.1, 0.2), 100),
        placed("c.mp4", 0.3, 0.1),
    ];
    let effective = vec![Duration::zero(), seconds(0.1), Duration::zero()];
    let (sent, end, count) = drain(&clips, &effective, &[3, 6, 3]);
    assert_eq!(end, Act::Finish);
    assert_eq!(count, 12, "three, six and three frames");
    assert_eq!(
        sent,
        vec![
            (0, None),
            (0, None),
            (0, None),
            (1, Some(0.0)),
            (1, Some(1.0 / 3.0)),
            (1, Some(2.0 / 3.0)),
            (1, None),
            (1, None),
            (1, None),
            (2, None),
            (2, None),
            (2, None),
        ]
    );
}

#[test]
fn a_window_should_end_with_the_source_that_runs_out() {
    let clips = vec![
        placed("a.mp4", 0.0, 0.1),
        fade(placed("b.mp4", 0.1, 0.2), 100),
    ];
    let effective = vec![Duration::zero(), seconds(0.1)];
    let (sent, end, count) = drain(&clips, &effective, &[3, 1]);
    assert_eq!(end, Act::Finish);
    assert_eq!(count, 4);
    assert_eq!(sent[3], (1, Some(0.0)));
}

#[test]
fn an_empty_track_should_finish_at_once() {
    let (sent, end, count) = drain(&vec![], &vec![], &[]);
    assert_eq!((sent.len(), end, count), (0, Act::Finish, 0));
}

#[test]
fn an_export_should_stop_at_a_transition_that_it_cannot_render() {
    let clips = vec![
        placed("a.mp4", 0.0, 0.1),
        placed("b.mp4", 0.1, 0.2)
            .with_transition(XfadeTransition::SlideUp, Duration::from_millis(100)),
    ];
    let effective = vec![Duration::zero(), seconds(0.1)];
    let (sent, end, _) = drain(&clips, &effective, &[3, 6]);
    assert_eq!(end, Act::Fail(DrainFailure::NoNode { clip: 1 }));
    assert!(sent.is_empty());
}

#[test]
fn an_export_should_tell_what_failed() {
    let clips = vec![
        placed("a.mp4", 0.0, 0.1),
        fade(placed("b.mp4", 0.1, 0.2), 100),
    ];
    let effective = vec![Duration::zero(), seconds(0.1)];
    let fresh = || {
        let mut d = Drain::new(&clips, &effective, double(30.0));
        assert_eq!(d.start(), Act::Open { clip: 0, handle: 0 });
        assert_eq!(d.step(Happened::Opened), Act::Pull { clip: 0 });
        d
    };
    let mut d = fresh();
    assert_eq!(
        d.step(Happened::FellBack),
        Act::Fail(DrainFailure::FrameFellBack)
    );
    let mut d = fresh();
    assert_eq!(d.step(Happened::Composited), Act::Push);
    assert_eq!(
        d.step(Happened::Stopped),
        Act::Fail(DrainFailure::Cancelled)
    );
    assert_eq!(d.video_idx, 1);
    let window = || {
        let mut d = fresh();
        assert_eq!(d.step(Happened::Spent), Act::Open { clip: 1, handle: 3 });
        assert_eq!(d.step(Happened::Opened), Act::Pull { clip: 0 });
        d
    };
    let mut d = window();
    assert_eq!(
        d.step(Happened::FellBack),
        Act::Fail(DrainFailure::OutgoingFellBack)
    );
    let mut d = window();
    assert_eq!(d.step(Happened::Composited), Act::Pull { clip: 1 });
    assert_eq!(
        d.step(Happened::FellBack),
        Act::Fail(DrainFailure::IncomingFellBack)
    );
    let mut d = window();
    assert_eq!(d.step(Happened::Composited), Act::Pull { clip: 1 });
    assert_eq!(
        d.step(Happened::Composited),
        Act::Blend { node: GpuTransition::Fade, progress: single(0.0) }
    );
    assert_eq!(
        d.step(Happened::BlendFailed),
        Act::Fail(DrainFailure::BlendFailed { progress: single(0.0) })
    );
    assert_eq!(d.stage, Stage::Over);
}

#[test]
fn failures_are_told_in_words() {
    assert_eq!(
        failure_reason(DrainFailure::OutgoingFellBack).as_deref(),
        Some("gpu export: the outgoing clip fell back mid-export (precluded by eligibility)")
    );
    assert_eq!(
        failure_reason(DrainFailure::IncomingFellBack).as_deref(),
        Some("gpu export: the incoming clip fell back mid-export (precluded by eligibility)")
    );
    assert_eq!(
        failure_reason(DrainFailure::FrameFellBack).as_deref(),
        Some("gpu export: a frame fell back mid-export (precluded by eligibility)")
    );
    assert_eq!(
        failure_reason(DrainFailure::LostNode).as_deref(),
        Some("gpu export: transitioned clip lost its GPU node")
    );
    assert_eq!(failure_reason(DrainFailure::Cancelled), None);
}

#[test]
fn eligible_track_should_reject_an_undefined_speed() {
    let t = square_timeline(vec![file("a.mp4").with_speed(double(f64::NAN))]);
    assert!(eligible(&t).is_none());
}

use avio::clip::{Clip, FitMode};
use avio::derive::{
    audio_pan, audio_track, audio_volume, effect_starts, realtime_descriptor, video_layer,
    AudioTrack, LayerSource, RealtimeLayerDescriptor, VideoLayer,
};
use avio::filter::{
    AnimatedValue, AnimationTrack, BlendMode, Color, CompositeOp, Easing, FilterStep, Keyframe,
    ScaleAlgorithm, TextSpec, XfadeTransition,
};
use avio::float::double::F64;
use avio::float::single::F32;
use avio::time::Duration;
use avio::track::TrackAutomation;

fn double(v: f64) -> F64 {
    F64::from_bits(v.to_bits())
}

fn single(v: f32) -> F32 {
    F32::from_bits(v.to_bits())
}

trait Number {
    fn num(&self) -> f64;
}

impl Number for F64 {
    fn num(&self) -> f64 {
        f64::from_bits(self.to_bits())
    }
}

impl Number for F32 {
    fn num(&self) -> f64 {
        f64::from(f32::from_bits(self.to_bits()))
    }
}

fn file(path: &str) -> Clip {
    Clip::new(path.to_string())
}

fn key(at: Duration, value: f64) -> Keyframe {
    Keyframe { timestamp: at, value: double(value), easing: Easing::Linear }
}

/// Keyframes in the making.
struct Keys(Vec<Keyframe>);

impl Keys {
    fn push(mut self, k: Keyframe) -> Keys {
        self.0.push(k);
        self
    }

    fn done(self) -> AnimationTrack {
        AnimationTrack::new(self.0)
    }
}

fn keys() -> Keys {
    Keys(Vec::new())
}

/// A value at a time, by straight lines between keyframes.
fn value_at(v: &AnimatedValue, at: Duration) -> f64 {
    let track = match v {
        AnimatedValue::Static(x) => return x.num(),
        AnimatedValue::Track(t) => t,
    };
    let frames = &track.keyframes;
    let mut before = &frames[0];
    for k in frames.iter() {
        if k.timestamp.nanos > at.nanos {
            let whole = (k.timestamp.nanos - before.timestamp.nanos) as f64;
            let part = (at.nanos.saturating_sub(before.timestamp.nanos)) as f64;
            if whole == 0.0 {
                return k.value.num();
            }
            return before.value.num() + (k.value.num() - before.value.num()) * part / whole;
        }
        before = k;
    }
    before.value.num()
}

fn at_zero(v: &AnimatedValue) -> F64 {
    double(value_at(v, Duration::zero()))
}

fn no_anim() -> TrackAutomation {
    TrackAutomation::default()
}

fn layer_of(
    clip: &Clip,
    automation: &TrackAutomation,
    prev_end: Option<F64>,
) -> VideoLayer<AnimatedValue> {
    let starts = effect_starts(clip, &at_zero);
    video_layer(clip, automation, 1920, 1080, prev_end, None, &starts)
}

fn preview_of(
    clip: &Clip,
    automation: &TrackAutomation,
    width: u32,
    height: u32,
) -> RealtimeLayerDescriptor<AnimatedValue> {
    let starts = effect_starts(clip, &at_zero);
    realtime_descriptor(clip, automation, width, height, &starts)
}

fn mix_of(clip: &Clip, automation: &TrackAutomation, length: Option<Duration>) -> AudioTrack {
    let starts = effect_starts(clip, &at_zero);
    let pitch = match &clip.pitch_track {
        Some(t) => at_zero(&AnimatedValue::Track(t.clone())),
        None => double(0.0),
    };
    audio_track(clip, automation, length, pitch, &starts)
}

#[test]
fn video_layer_file_clip_should_map_to_file_source() {
    let clip = file("a.mp4");
    let layer = layer_of(&clip, &no_anim(), None);
    match layer.source {
        LayerSource::File(path) => assert_eq!(path.as_str(), "a.mp4"),
        other => panic!("expected File source, got {other:?}"),
    }
}

#[test]
fn video_layer_text_clip_should_map_to_text_source() {
    let clip = Clip::text(TextSpec { text: "title".to_string(), style: String::new() });
    let layer = layer_of(&clip, &no_anim(), None);
    match layer.source {
        LayerSource::Text(spec) => assert_eq!(spec.text, "title"),
        other => panic!("expected Text source, got {other:?}"),
    }
}

#[test]
fn video_layer_solid_clip_should_map_to_solid_source() {
    let clip = Clip::solid(Color::rgb(1, 2, 3));
    let layer = layer_of(&clip, &no_anim(), None);
    match layer.source {
        LayerSource::Solid(color) => assert_eq!(color, Color::rgb(1, 2, 3)),
        other => panic!("expected Solid source, got {other:?}"),
    }
}

#[test]
fn video_layer_trim_should_lead_with_trim_and_resetpts() {
    let clip = file("a.mp4").trim(Duration::from_secs(1), Duration::from_secs(3));
    let layer = layer_of(&clip, &no_anim(), None);
    assert!(matches!(
        layer.effects[0],
        FilterStep::Trim {
            start: Some(s),
            end: Some(e)
        } if (s.num() - 1.0).abs() < 1e-9 && (e.num() - 3.0).abs() < 1e-9
    ));
    assert!(matches!(layer.effects[1], FilterStep::ResetPts));
}

#[test]
fn video_layer_offset_should_emit_offsetpts() {
    let clip = file("a.mp4").offset(Duration::from_secs(2));
    let layer = layer_of(&clip, &no_anim(), None);
    assert!(layer.effects.iter().any(
        |s| matches!(s, FilterStep::OffsetPts { seconds } if (seconds.num() - 2.0).abs() < 1e-9)
    ));
}

#[test]
fn video_layer_speed_should_emit_speed() {
    let clip = file("a.mp4").with_speed(double(2.0));
    let layer = layer_of(&clip, &no_anim(), None);
    assert!(
        layer
            .effects
            .iter()
            .any(|s| matches!(s, FilterStep::Speed { factor } if (factor.num() - 2.0).abs() < 1e-9))
    );
}

#[test]
fn video_layer_transition_with_prev_end_should_emit_xfade() {
    let clip =
        file("b.mp4").with_transition(XfadeTransition::Fade, Duration::from_millis(500));
    let layer = layer_of(&clip, &no_anim(), Some(double(4.0)));
    assert!(layer.effects.iter().any(|s| matches!(
        s,
        FilterStep::XFade { duration, offset, .. }
            if (duration.num() - 0.5).abs() < 1e-9 && (offset.num() - 3.5).abs() < 1e-9
    )));
}

#[test]
fn video_layer_transition_on_first_clip_should_emit_no_xfade() {
    let clip =
        file("a.mp4").with_transition(XfadeTransition::Fade, Duration::from_millis(500));
    let layer = layer_of(&clip, &no_anim(), None);
    assert!(
        !layer
            .effects
            .iter()
            .any(|s| matches!(s, FilterStep::XFade { .. }))
    );
}


#[test]
fn video_layer_animated_scale_should_emit_scale_animated_and_neutralize() {
    let track = keys()
        .push(key(Duration::zero(), 0.5))
        .push(key(Duration::from_secs(2), 1.5)).done();
    let clip = file("a.mp4").with_scale_track(track);
    let layer = layer_of(&clip, &no_anim(), None);

    assert!(matches!(layer.scale_x, AnimatedValue::Static(v) if (v.num() - 1.0).abs() < 1e-9));
    assert!(matches!(layer.scale_y, AnimatedValue::Static(v) if (v.num() - 1.0).abs() < 1e-9));

    let sa = layer
        .effects
        .iter()
        .find(|s| matches!(s, FilterStep::ScaleAnimated { .. }));
    let Some(FilterStep::ScaleAnimated { width, height, .. }) = sa else {
        panic!(
            "animated scale must emit ScaleAnimated, got {:?}",
            layer.effects
        );
    };
    assert!((value_at(width, Duration::zero()) - 960.0).abs() < 1e-6);
    assert!((value_at(height, Duration::zero()) - 540.0).abs() < 1e-6);
    assert!((value_at(width, Duration::from_secs(2)) - 2880.0).abs() < 1e-6);
}

#[test]
fn video_layer_animated_rotation_should_emit_rotate_animated_and_neutralize() {
    let track = keys()
        .push(key(Duration::zero(), 0.0))
        .push(key(Duration::from_secs(1), 90.0)).done();
    let clip = file("a.mp4").with_rotation_track(track);
    let layer = layer_of(&clip, &no_anim(), None);

    assert!(matches!(layer.rotation, AnimatedValue::Static(v) if v.num().abs() < 1e-9));
    let ra = layer
        .effects
        .iter()
        .find(|s| matches!(s, FilterStep::RotateAnimated { .. }));
    let Some(FilterStep::RotateAnimated { angle, .. }) = ra else {
        panic!(
            "animated rotation must emit RotateAnimated, got {:?}",
            layer.effects
        );
    };
    assert!((value_at(angle, Duration::from_secs(1)) - 90.0).abs() < 1e-6);
}

#[test]
fn video_layer_static_scale_should_stay_on_the_layer() {
    let clip = file("a.mp4").with_scale(double(0.5));
    let layer = layer_of(&clip, &no_anim(), None);
    assert!(
        !layer
            .effects
            .iter()
            .any(|s| matches!(s, FilterStep::ScaleAnimated { .. }))
    );
    assert!(matches!(layer.scale_x, AnimatedValue::Static(v) if (v.num() - 0.5).abs() < 1e-9));
}

#[test]
fn realtime_descriptor_animated_scale_should_emit_scale_animated() {
    let track = keys()
        .push(key(Duration::zero(), 0.5))
        .push(key(Duration::from_secs(2), 1.0)).done();
    let clip = file("a.mp4").with_scale_track(track);
    let desc = preview_of(&clip, &no_anim(), 1280, 720);
    assert!(matches!(desc.scale_x, AnimatedValue::Static(v) if (v.num() - 1.0).abs() < 1e-9));
    assert!(
        desc.effects
            .iter()
            .any(|s| matches!(s, FilterStep::ScaleAnimated { .. }))
    );
}

#[test]
fn video_layer_opacity_track_should_win_over_static() {
    let mut clip = file("a.mp4").with_opacity(single(0.5));
    clip.opacity_track =
        Some(keys().push(key(Duration::zero(), 0.0)).done());
    let layer = layer_of(&clip, &no_anim(), None);
    assert!(matches!(layer.opacity, AnimatedValue::Track(_)));
}

#[test]
fn video_layer_static_opacity_should_be_animatedvalue_static() {
    let clip = file("a.mp4").with_opacity(single(0.5));
    let layer = layer_of(&clip, &no_anim(), None);
    assert!(matches!(layer.opacity, AnimatedValue::Static(v) if (v.num() - 0.5).abs() < 1e-9));
}

#[test]
fn video_layer_neutral_opacity_should_fall_back_to_track_animation() {
    let automation = TrackAutomation {
        opacity: Some(keys().push(key(Duration::zero(), 1.0)).done()),
        ..Default::default()
    };
    let clip = file("a.mp4");
    let layer = layer_of(&clip, &automation, None);
    assert!(matches!(layer.opacity, AnimatedValue::Track(_)));
}

#[test]
fn video_layer_should_pass_through_blend_and_composite() {
    let mut clip = file("a.mp4");
    clip.blend_mode = BlendMode::Multiply;
    clip.composite_op = CompositeOp::Under;
    let layer = layer_of(&clip, &no_anim(), None);
    assert!(matches!(layer.blend_mode, BlendMode::Multiply));
    assert!(matches!(layer.composite_op, CompositeOp::Under));
}

#[test]
fn video_layer_should_order_trim_offset_speed_chain_xfade() {
    let mut clip = file("a.mp4")
        .trim(Duration::from_secs(1), Duration::from_secs(5))
        .offset(Duration::from_secs(2))
        .with_speed(double(2.0))
        .with_transition(XfadeTransition::Fade, Duration::from_millis(500));
    clip = clip.with_color_correction(single(0.5), single(1.0), single(1.0));
    let layer = layer_of(&clip, &no_anim(), Some(double(10.0)));
    let e = &layer.effects;
    assert!(matches!(e[0], FilterStep::Trim { .. }));
    assert!(matches!(e[1], FilterStep::ResetPts));
    assert!(matches!(e[2], FilterStep::OffsetPts { .. }));
    assert!(matches!(e[3], FilterStep::Speed { .. }));
    assert!(matches!(e[4], FilterStep::Eq { .. }));
    assert!(matches!(e[5], FilterStep::XFade { .. }));
}


#[test]
fn video_layer_fit_none_should_emit_no_framing_step() {
    let clip = file("a.mp4");
    let layer = layer_of(&clip, &no_anim(), None);
    assert!(!layer.effects.iter().any(|s| matches!(
        s,
        FilterStep::FillToAspect { .. }
            | FilterStep::FitToAspect { .. }
            | FilterStep::Scale { .. }
    )));
}

#[test]
fn video_layer_fit_fill_should_emit_fill_to_aspect() {
    let clip = file("a.mp4").with_fit(FitMode::Fill);
    let layer = layer_of(&clip, &no_anim(), None);
    assert!(layer.effects.iter().any(|s| matches!(
        s,
        FilterStep::FillToAspect {
            width: 1920,
            height: 1080
        }
    )));
}

#[test]
fn video_layer_fit_fit_should_emit_fit_to_aspect_black() {
    let clip = file("a.mp4").with_fit(FitMode::Fit);
    let layer = layer_of(&clip, &no_anim(), None);
    assert!(layer.effects.iter().any(|s| matches!(
        s,
        FilterStep::FitToAspect { width: 1920, height: 1080, color } if color == "black"
    )));
}

#[test]
fn video_layer_fit_stretch_should_emit_scale_to_canvas() {
    let clip = file("a.mp4").with_fit(FitMode::Stretch);
    let layer = layer_of(&clip, &no_anim(), None);
    assert!(layer.effects.iter().any(|s| matches!(
        s,
        FilterStep::Scale {
            width: 1920,
            height: 1080,
            algorithm: ScaleAlgorithm::Bilinear
        }
    )));
}

#[test]
fn video_layer_fit_should_sit_after_speed_and_before_effect_chain() {
    let clip = file("a.mp4")
        .with_speed(double(2.0))
        .with_fit(FitMode::Fill)
        .with_color_correction(single(0.5), single(1.0), single(1.0));
    let layer = layer_of(&clip, &no_anim(), None);
    let e = &layer.effects;
    assert!(matches!(e[0], FilterStep::Speed { .. }));
    assert!(matches!(e[1], FilterStep::FillToAspect { .. }));
    assert!(matches!(e[2], FilterStep::Eq { .. }));
}

#[test]
fn realtime_descriptor_fit_fill_should_share_step_with_export() {
    let clip = file("a.mp4").with_fit(FitMode::Fill);
    let d = preview_of(&clip, &no_anim(), 1920, 1080);
    assert!(matches!(
        d.effects.first(),
        Some(FilterStep::FillToAspect {
            width: 1920,
            height: 1080
        })
    ));
}

#[test]
fn realtime_descriptor_fit_none_should_emit_no_framing_step() {
    let clip = file("a.mp4");
    let d = preview_of(&clip, &no_anim(), 1920, 1080);
    assert!(!d.effects.iter().any(|s| matches!(
        s,
        FilterStep::FillToAspect { .. }
            | FilterStep::FitToAspect { .. }
            | FilterStep::Scale { .. }
    )));
}

#[test]
fn fit_step_should_be_skipped_when_canvas_is_zero() {
    let clip = file("a.mp4").with_fit(FitMode::Fill);
    let d = preview_of(&clip, &no_anim(), 0, 0);
    assert!(
        !d.effects
            .iter()
            .any(|s| matches!(s, FilterStep::FillToAspect { .. }))
    );
}


#[test]
fn audio_track_volume_track_should_win() {
    let mut clip = file("a.mp3").volume(double(-6.0));
    clip.volume_track =
        Some(keys().push(key(Duration::zero(), 0.0)).done());
    let track = mix_of(&clip, &no_anim(), None);
    assert!(matches!(track.volume, AnimatedValue::Track(_)));
}

#[test]
fn audio_track_static_volume_db_should_be_static() {
    let clip = file("a.mp3").volume(double(-6.0));
    let track = mix_of(&clip, &no_anim(), None);
    assert!(matches!(track.volume, AnimatedValue::Static(v) if (v.num() + 6.0).abs() < 1e-9));
}

#[test]
fn audio_track_should_order_trim_delay_speed_fades_effects() {
    let clip = file("a.mp3")
        .trim(Duration::from_secs(1), Duration::from_secs(5))
        .offset(Duration::from_millis(500))
        .with_speed(double(2.0))
        .with_fade_in(Duration::from_millis(200))
        .with_fade_out(Duration::from_millis(300));
    let track = mix_of(&clip, &no_anim(), Some(Duration::from_secs(4)));
    let kinds: Vec<&FilterStep<AnimatedValue>> = track.effects.iter().collect();
    assert!(matches!(kinds[0], FilterStep::ATrim { .. }));
    assert!(matches!(kinds[1], FilterStep::AResetPts));
    assert!(matches!(kinds[2], FilterStep::AudioDelay { .. }));
    assert!(matches!(kinds[3], FilterStep::Speed { .. }));
    assert!(matches!(kinds[4], FilterStep::AFadeIn { .. }));
    assert!(matches!(kinds[5], FilterStep::AFadeOut { .. }));
}

#[test]
fn audio_track_fade_out_should_skip_when_duration_not_greater() {
    let clip = file("a.mp3").with_fade_out(Duration::from_secs(5));
    let track = mix_of(&clip, &no_anim(), Some(Duration::from_secs(3)));
    assert!(
        !track
            .effects
            .iter()
            .any(|s| matches!(s, FilterStep::AFadeOut { .. }))
    );
}

#[test]
fn audio_track_pan_should_come_from_track_animation() {
    let automation = TrackAutomation {
        pan: Some(keys().push(key(Duration::zero(), 0.5)).done()),
        ..Default::default()
    };
    let clip = file("a.mp3");
    let track = mix_of(&clip, &automation, None);
    assert!(matches!(track.pan, AnimatedValue::Track(_)));
}

#[test]
fn audio_track_static_pitch_should_emit_pitch_shift() {
    let clip = file("a.mp3").with_pitch(double(4.0));
    let track = mix_of(&clip, &no_anim(), None);
    assert!(track.effects.iter().any(|s| matches!(
        s,
        FilterStep::PitchShift { semitones, .. } if (semitones.num() - 4.0).abs() < 1e-6
    )));
}

#[test]
fn audio_track_pitch_track_should_emit_pitch_shift_at_t0() {
    let clip = file("a.mp3").with_pitch(double(1.0)).with_pitch_track(
        keys().push(key(Duration::zero(), 5.0)).done(),
    );
    let track = mix_of(&clip, &no_anim(), None);
    assert!(track.effects.iter().any(|s| matches!(
        s,
        FilterStep::PitchShift { semitones, .. } if (semitones.num() - 5.0).abs() < 1e-6
    )));
}

#[test]
fn audio_track_zero_pitch_should_emit_no_pitch_shift() {
    let clip = file("a.mp3");
    let track = mix_of(&clip, &no_anim(), None);
    assert!(
        !track
            .effects
            .iter()
            .any(|s| matches!(s, FilterStep::PitchShift { .. }))
    );
}


#[test]
fn audio_volume_should_fall_back_to_timeline_animation() {
    let automation = TrackAutomation {
        volume: Some(keys().push(key(Duration::zero(), -3.0)).done()),
        ..Default::default()
    };
    let clip = file("a.mp3");
    assert!(matches!(
        audio_volume(&clip, &automation),
        AnimatedValue::Track(_)
    ));
}

#[test]
fn audio_volume_static_should_win_over_timeline() {
    let automation = TrackAutomation {
        volume: Some(keys().push(key(Duration::zero(), -3.0)).done()),
        ..Default::default()
    };
    let clip = file("a.mp3").volume(double(-6.0));
    assert!(matches!(
        audio_volume(&clip, &automation),
        AnimatedValue::Static(x) if (x.num() + 6.0).abs() < 1e-9
    ));
}


#[test]
fn audio_pan_should_prefer_static_clip_pan() {
    let automation = TrackAutomation {
        pan: Some(keys().push(key(Duration::zero(), -0.5)).done()),
        ..Default::default()
    };
    let clip = file("a.mp3").pan(double(0.8));
    assert!(matches!(
        audio_pan(&clip, &automation),
        AnimatedValue::Static(x) if (x.num() - 0.8).abs() < 1e-9
    ));
}

#[test]
fn audio_pan_should_fall_back_to_track_animation() {
    let automation = TrackAutomation {
        pan: Some(keys().push(key(Duration::zero(), 0.5)).done()),
        ..Default::default()
    };
    let clip = file("a.mp3");
    assert!(matches!(
        audio_pan(&clip, &automation),
        AnimatedValue::Track(_)
    ));
}

#[test]
fn audio_track_should_apply_clip_pan() {
    let clip = file("a.mp3").pan(double(0.8));
    let track = mix_of(&clip, &no_anim(), None);
    assert!(matches!(
        track.pan,
        AnimatedValue::Static(x) if (x.num() - 0.8).abs() < 1e-9
    ));
}


#[test]
fn realtime_descriptor_should_carry_no_temporal_or_xfade_steps() {
    let clip = file("a.mp4")
        .trim(Duration::from_secs(1), Duration::from_secs(3))
        .offset(Duration::from_secs(2))
        .with_speed(double(2.0))
        .with_transition(XfadeTransition::Fade, Duration::from_millis(500));
    let d = preview_of(&clip, &no_anim(), 1920, 1080);
    assert!(!d.effects.iter().any(|s| matches!(
        s,
        FilterStep::Trim { .. }
            | FilterStep::ResetPts
            | FilterStep::OffsetPts { .. }
            | FilterStep::Speed { .. }
            | FilterStep::XFade { .. }
    )));
}

#[test]
fn realtime_descriptor_should_carry_effect_chain() {
    let clip = file("a.mp4").with_color_correction(single(0.5), single(1.0), single(1.0));
    let d = preview_of(&clip, &no_anim(), 1920, 1080);
    assert!(d.effects.iter().any(|s| matches!(s, FilterStep::Eq { .. })));
}

#[test]
fn realtime_descriptor_should_pick_up_timeline_scale_and_rotation() {
    let automation = TrackAutomation {
        scale_x: Some(keys().push(key(Duration::zero(), 0.5)).done()),
        rotation: Some(keys().push(key(Duration::zero(), 90.0)).done()),
        ..Default::default()
    };
    let clip = file("a.mp4");
    let d = preview_of(&clip, &automation, 1920, 1080);
    assert!(matches!(d.scale_x, AnimatedValue::Static(v) if (v.num() - 1.0).abs() < 1e-9));
    assert!(matches!(d.scale_y, AnimatedValue::Static(v) if (v.num() - 1.0).abs() < 1e-9));
    assert!(matches!(d.rotation, AnimatedValue::Static(v) if v.num().abs() < 1e-9));
    assert!(
        d.effects
            .iter()
            .any(|s| matches!(s, FilterStep::ScaleAnimated { .. }))
    );
    assert!(
        d.effects
            .iter()
            .any(|s| matches!(s, FilterStep::RotateAnimated { .. }))
    );
}

#[test]
fn realtime_descriptor_opacity_should_fall_back_to_timeline_animation() {
    let automation = TrackAutomation {
        opacity: Some(keys().push(key(Duration::zero(), 1.0)).done()),
        ..Default::default()
    };
    let clip = file("a.mp4");
    let d = preview_of(&clip, &automation, 1920, 1080);
    assert!(matches!(d.opacity, AnimatedValue::Track(_)));
}

#[test]
fn realtime_descriptor_static_opacity_should_win_over_timeline() {
    let automation = TrackAutomation {
        opacity: Some(keys().push(key(Duration::zero(), 0.2)).done()),
        ..Default::default()
    };
    let clip = file("a.mp4").with_opacity(single(0.5));
    let d = preview_of(&clip, &automation, 1920, 1080);
    assert!(matches!(d.opacity, AnimatedValue::Static(v) if (v.num() - 0.5).abs() < 1e-9));
}

#[test]
fn realtime_descriptor_should_carry_composite_op() {
    let mut clip = file("a.mp4");
    clip.composite_op = CompositeOp::Under;
    let d = preview_of(&clip, &no_anim(), 1920, 1080);
    assert!(matches!(d.composite_op, CompositeOp::Under));
}


#[test]
fn video_layer_static_scale_should_drive_both_axes() {
    let clip = file("a.mp4").with_scale(double(0.5));
    let layer = layer_of(&clip, &no_anim(), None);
    assert!(matches!(layer.scale_x, AnimatedValue::Static(v) if (v.num() - 0.5).abs() < 1e-9));
    assert!(matches!(layer.scale_y, AnimatedValue::Static(v) if (v.num() - 0.5).abs() < 1e-9));
}

#[test]
fn video_layer_scale_track_should_win_on_both_axes() {
    let mut clip = file("a.mp4");
    clip.scale_track =
        Some(keys().push(key(Duration::zero(), 2.0)).done());
    let layer = layer_of(&clip, &no_anim(), None);
    assert!(matches!(layer.scale_x, AnimatedValue::Static(v) if (v.num() - 1.0).abs() < 1e-9));
    assert!(matches!(layer.scale_y, AnimatedValue::Static(v) if (v.num() - 1.0).abs() < 1e-9));
    let Some(FilterStep::ScaleAnimated { width, height, .. }) = layer
        .effects
        .iter()
        .find(|s| matches!(s, FilterStep::ScaleAnimated { .. }))
    else {
        panic!("expected ScaleAnimated, got {:?}", layer.effects);
    };
    assert!((value_at(width, Duration::zero()) - 3840.0).abs() < 1e-6);
    assert!((value_at(height, Duration::zero()) - 2160.0).abs() < 1e-6);
}

#[test]
fn video_layer_neutral_scale_should_fall_back_to_timeline_animation() {
    let automation = TrackAutomation {
        scale_x: Some(keys().push(key(Duration::zero(), 0.5)).done()),
        ..Default::default()
    };
    let clip = file("a.mp4");
    let layer = layer_of(&clip, &automation, None);
    assert!(matches!(layer.scale_x, AnimatedValue::Static(v) if (v.num() - 1.0).abs() < 1e-9));
    assert!(matches!(layer.scale_y, AnimatedValue::Static(v) if (v.num() - 1.0).abs() < 1e-9));
    let Some(FilterStep::ScaleAnimated { width, height, .. }) = layer
        .effects
        .iter()
        .find(|s| matches!(s, FilterStep::ScaleAnimated { .. }))
    else {
        panic!("expected ScaleAnimated, got {:?}", layer.effects);
    };
    assert!((value_at(width, Duration::zero()) - 960.0).abs() < 1e-6);
    assert!((value_at(height, Duration::zero()) - 1080.0).abs() < 1e-6);
}

#[test]
fn video_layer_static_scale_should_win_over_timeline_animation() {
    let automation = TrackAutomation {
        scale_x: Some(keys().push(key(Duration::zero(), 0.25)).done()),
        ..Default::default()
    };
    let clip = file("a.mp4").with_scale(double(0.5));
    let layer = layer_of(&clip, &automation, None);
    assert!(matches!(layer.scale_x, AnimatedValue::Static(v) if (v.num() - 0.5).abs() < 1e-9));
    assert!(matches!(layer.scale_y, AnimatedValue::Static(v) if (v.num() - 0.5).abs() < 1e-9));
}

#[test]
fn video_layer_static_rotation_should_be_static() {
    let clip = file("a.mp4").with_rotation(double(30.0));
    let layer = layer_of(&clip, &no_anim(), None);
    assert!(matches!(layer.rotation, AnimatedValue::Static(v) if (v.num() - 30.0).abs() < 1e-9));
}

#[test]
fn video_layer_rotation_track_should_win() {
    let mut clip = file("a.mp4");
    clip.rotation_track =
        Some(keys().push(key(Duration::zero(), 90.0)).done());
    let layer = layer_of(&clip, &no_anim(), None);
    assert!(matches!(layer.rotation, AnimatedValue::Static(v) if v.num().abs() < 1e-9));
    assert!(
        layer
            .effects
            .iter()
            .any(|s| matches!(s, FilterStep::RotateAnimated { .. }))
    );
}

#[test]
fn realtime_descriptor_should_share_scale_and_rotation_with_export() {
    let clip = file("a.mp4").with_scale(double(0.5)).with_rotation(double(45.0));
    let d = preview_of(&clip, &no_anim(), 1920, 1080);
    assert!(matches!(d.scale_x, AnimatedValue::Static(v) if (v.num() - 0.5).abs() < 1e-9));
    assert!(matches!(d.scale_y, AnimatedValue::Static(v) if (v.num() - 0.5).abs() < 1e-9));
    assert!(matches!(d.rotation, AnimatedValue::Static(v) if (v.num() - 45.0).abs() < 1e-9));
}

#[test]
fn the_export_should_run_the_preview_between_its_lead_and_its_cross_fade() {
    let moving = keys().push(key(Duration::zero(), 0.5)).done();
    let mut clip = file("a.mp4")
        .trim(Duration::from_secs(1), Duration::from_secs(3))
        .offset(Duration::from_secs(2))
        .with_transition(XfadeTransition::Fade, Duration::from_millis(500));
    clip.fit = FitMode::Fit;
    clip.scale_track = Some(moving);
    let none = TrackAutomation::default();
    let export = layer_of(&clip, &none, Some(double(4.0)));
    let preview = preview_of(&clip, &none, 1920, 1080);
    assert_eq!(preview.effects.len(), 2);
    assert_eq!(export.effects.len(), 3 + preview.effects.len() + 1);
    assert_eq!(&export.effects[3..5], &preview.effects[..]);
    assert!(matches!(export.effects[5], FilterStep::XFade { .. }));
    assert_eq!((&export.scale_x, &export.opacity), (&preview.scale_x, &preview.opacity));
}

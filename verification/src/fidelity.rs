//! What is authored is what is rendered.
//!
//! The laws here read the fields of a clip and the fields of what is made of it side by side:
//! each goes where it belongs, and numbers that go through a double are told by their exact value.

use vstd::prelude::*;

use crate::clip::{Clip, ClipSource};
use crate::derive::{AudioTrack, LayerSource, ProxySource, VideoLayer};
use crate::filter::{AnimatedValue, AnimationTrack, FilterStep, PitchAlgo, ScaleAlgorithm};
use crate::float::accuracy;
use crate::float::double;
use crate::float::double::F64;
use crate::float::single;
use crate::float::single::F32;
use crate::float::values;
use crate::scene;
use crate::scene::{Scene, SceneAudioPlacement};
use crate::time;
use crate::time::Duration;
use crate::timeline::Document;
use crate::timing;
use crate::track;
use crate::track::{TrackAutomation, TrackState};

verus! {

/// Whether an optional time in seconds tells an optional span.
pub open spec fn tells_at(s: Option<F64>, d: Option<Duration>) -> bool {
    match (s, d) {
        (Some(s), Some(d)) => timing::tells(s, d),
        (None, None) => true,
        _ => false,
    }
}

/// Whether a trim point is a span of time.
pub open spec fn is_span(d: Option<Duration>) -> bool {
    d matches Some(d) ==> d.nanos <= time::MAX_NANOS
}

/// How many steps trim a clip: two where a trim point is set.
pub open spec fn trims(clip: Clip) -> int {
    if clip.in_point is Some || clip.out_point is Some {
        2
    } else {
        0
    }
}

/// How many steps place a clip: one where it does not start with the timeline.
pub open spec fn moves(clip: Clip) -> int {
    if clip.offset.nanos > 0 {
        1
    } else {
        0
    }
}

/// How many steps change a clip's speed: one where it is off one by more than a billionth.
pub open spec fn respeeds(clip: Clip) -> int {
    if timing::off_one(clip.speed) {
        1
    } else {
        0
    }
}

/// An export layer is timed as its clip says. It starts with the trim, where a trim point is set,
/// from the in-point to the out-point; then comes the shift to where the clip starts, unless that
/// is the start of the timeline; then the change of speed, with the clip's own factor, exactly
/// where the speed is further than a billionth from one, above or below. The rest is what the
/// preview runs, and a cross-fade that ends where the clip before ends, where the clip has one
/// and a clip before it.
pub proof fn export_is_timed(
    clip: Clip,
    automation: TrackAutomation,
    width: u32,
    height: u32,
    prev_end: Option<F64>,
    starts: Seq<F64>,
    steps: Seq<FilterStep<AnimatedValue>>,
)
    requires
        crate::derive::is_export_chain(clip, automation, width, height, prev_end, starts, steps),
        clip.speed.finite(),
        is_span(clip.in_point) && is_span(clip.out_point),
        clip.offset.nanos <= time::MAX_NANOS,
        clip.transition_duration.nanos <= time::MAX_NANOS,
        clip.transition is Some ==> (prev_end matches Some(end) ==> end.finite()
            && !end.negative()),
    ensures
        ({
            let lead = trims(clip) + moves(clip) + respeeds(clip);
            let fades = clip.transition is Some && prev_end is Some;
            let end = steps.len() - (if fades {
                1int
            } else {
                0
            });
            &&& lead <= end
            &&& trims(clip) == 2 ==> {
                &&& steps[0] matches FilterStep::Trim { start, end } && tells_at(
                    start,
                    clip.in_point,
                ) && tells_at(end, clip.out_point)
                &&& steps[1] is ResetPts
            }
            &&& moves(clip) == 1 ==> (steps[trims(clip)] matches FilterStep::OffsetPts {
                seconds,
            } && timing::tells(seconds, clip.offset))
            &&& timing::off_one(clip.speed) ==> steps[lead - 1] == (FilterStep::<
                AnimatedValue,
            >::Speed { factor: clip.speed })
            &&& crate::derive::is_preview_chain(
                clip,
                automation,
                width,
                height,
                starts,
                steps.subrange(lead, end),
            )
            &&& fades ==> (steps.last() matches FilterStep::XFade {
                transition,
                duration,
                offset,
            } && {
                let (stop, long) = (prev_end->0.units(), duration.units());
                &&& Some(transition) == clip.transition
                &&& timing::tells(duration, clip.transition_duration)
                &&& offset.finite() && offset.units() >= 0
                &&& stop <= long ==> offset.units() == 0
                &&& stop >= long ==> accuracy::P52 * accuracy::gap(offset.units(), stop - long)
                    <= stop - long
            })
        }),
{
    accuracy::lemma_powers();
    timing::lemma_off_one(clip.speed);
    let lead = crate::derive::temporal(clip);
    let tail = crate::derive::cross_fade(clip, prev_end);
    let end = steps.len() - tail.len();
    let head = steps.subrange(0, lead.len() as int);
    assert(head == lead);
    assert forall|i: int| 0 <= i < lead.len() implies #[trigger] steps[i] == lead[i] by {
        assert(head[i] == steps[i]);
    }
    if let Some(d) = clip.in_point {
        timing::seconds_are_accurate(d);
    }
    if let Some(d) = clip.out_point {
        timing::seconds_are_accurate(d);
    }
    timing::seconds_are_accurate(clip.offset);
    timing::seconds_are_accurate(clip.transition_duration);
    assert(lead.len() == trims(clip) + moves(clip) + respeeds(clip));
    if clip.transition is Some && prev_end is Some {
        let stop = prev_end->0;
        let long = time::seconds(clip.transition_duration);
        let rear = steps.subrange(end, steps.len() as int);
        assert(rear == tail);
        assert(rear[0] == steps.last());
        lemma_held_difference(stop, long);
    }
}

/// A difference held at zero.
pub proof fn lemma_held_difference(a: F64, b: F64)
    requires
        a.finite() && !a.negative(),
        b.finite() && !b.negative(),
    ensures
        ({
            let r = double::greater_of(double::difference(a, b), F64 { bits: values::ZERO });
            &&& r.finite() && r.units() >= 0
            &&& a.units() <= b.units() ==> r.units() == 0
            &&& a.units() >= b.units() ==> accuracy::P52 * accuracy::gap(
                r.units(),
                a.units() - b.units(),
            ) <= a.units() - b.units()
        }),
{
    accuracy::lemma_powers();
    let zero = F64 { bits: values::ZERO };
    let d = double::difference(a, b);
    crate::float::grid::lemma_grid_increases(52, 0, a.magnitude() as nat);
    crate::float::grid::lemma_grid_increases(52, 0, b.magnitude() as nat);
    assert(crate::float::grid::grid(52, 0) == 0);
    assert(zero.units() == 0);
    assert(b.turned().units() == -b.units());
    if a.units() >= b.units() {
        accuracy::difference_is_accurate(a, b);
        crate::float::grid::lemma_grid_increases(52, 0, d.magnitude() as nat);
        double::order_is_numeric(d, zero);
    } else {
        let n = (b.units() - a.units()) as nat;
        let k = crate::float::grid::nearest(52, 0x7FF0_0000_0000_0000, n, 1);
        assert(crate::float::grid::grid(52, b.magnitude() as nat) * 1 >= n);
        crate::float::rounding::nearest_is_at_most(
            52,
            0x7FF0_0000_0000_0000,
            n,
            1,
            b.magnitude() as nat,
        );
        assert(crate::float::grid::grid(52, 1) == 1);
        crate::float::rounding::nearest_is_at_least(52, 0x7FF0_0000_0000_0000, n, 1, 1);
        assert(d == double::signed(true, k));
        assert(d.negative() && d.magnitude() == k);
        assert(double::less(d, zero));
    }
}

/// How many steps shift the pitch: one where it is off by more than a billionth of a semitone.
pub open spec fn shifts(pitch: F64) -> int {
    if accuracy::gap(pitch.units(), 0) > (F64 { bits: values::BILLIONTH }).units() {
        1
    } else {
        0
    }
}

/// How many steps fade a clip in: one where the fade takes time.
pub open spec fn rises(clip: Clip) -> int {
    if clip.fade_in.nanos > 0 {
        1
    } else {
        0
    }
}

/// How many steps fade a clip out: one where the fade takes time, and less than the clip.
pub open spec fn falls(clip: Clip, length: Option<Duration>) -> int {
    if clip.fade_out.nanos > 0 && length is Some && length->0.nanos > clip.fade_out.nanos {
        1
    } else {
        0
    }
}

/// Whether `ms` is the whole milliseconds of a span.
pub open spec fn whole_millis(ms: F64, d: Duration) -> bool {
    let u = accuracy::unit();
    &&& ms.finite()
    &&& ms.units() * 1_000_000 <= d.nanos * u < (ms.units() + u) * 1_000_000
    &&& ms.units() % u == 0
}

/// A whole number of milliseconds is the span without the rest.
proof fn lemma_millis(d: Duration)
    requires
        d.nanos < 9_007_199_254_740_992_000_000,
    ensures
        whole_millis(double::whole((d.nanos / time::NANOS_PER_MILLI) as nat), d),
{
    accuracy::lemma_powers();
    let w = (d.nanos / 1_000_000) as nat;
    let u = accuracy::unit();
    accuracy::whole_is_exact(w);
    assert(w * 1_000_000 <= d.nanos < w * 1_000_000 + 1_000_000);
    let x = w * u;
    assert(x * 1_000_000 <= d.nanos * u < (x + u) * 1_000_000) by (nonlinear_arith)
        requires
            x == w * u,
            w * 1_000_000 <= d.nanos < w * 1_000_000 + 1_000_000,
            u > 0,
    ;
    vstd::arithmetic::div_mod::lemma_mod_multiples_basic(w as int, u);
}

/// Where the six parts that lead a mix track stand.
proof fn lemma_audio_lead(clip: Clip, pitch: F64, length: Option<Duration>)
    requires
        clip.speed.finite(),
        pitch.finite(),
    ensures
        ({
            let lead = crate::derive::audio_lead(clip, pitch, length);
            let a = trims(clip);
            let b = a + moves(clip);
            let c = b + respeeds(clip);
            let d = c + shifts(pitch);
            let e = d + rises(clip);
            &&& lead.len() == e + falls(clip, length)
            &&& a == 2 ==> lead[0] == crate::derive::audio_trim(clip)[0] && lead[1]
                == crate::derive::audio_trim(clip)[1]
            &&& b == a + 1 ==> lead[a] == crate::derive::audio_place(clip)[0]
            &&& c == b + 1 ==> lead[b] == (FilterStep::<AnimatedValue>::Speed {
                factor: clip.speed,
            })
            &&& d == c + 1 ==> lead[c] == (FilterStep::<AnimatedValue>::PitchShift {
                semitones: double::narrowed(pitch),
                algo: PitchAlgo::Signal,
            })
            &&& e == d + 1 ==> lead[d] == crate::derive::audio_rise(clip)[0]
            &&& falls(clip, length) == 1 ==> lead[e] == crate::derive::audio_fall(clip, length)[0]
        }),
{
    timing::lemma_off_one(clip.speed);
    let billionth = F64 { bits: values::BILLIONTH };
    double::order_is_numeric(billionth, pitch.unsigned());
    crate::float::grid::lemma_grid_increases(52, 0, pitch.magnitude() as nat);
    assert(crate::float::grid::grid(52, 0) == 0) by {
        accuracy::lemma_powers();
    }
    assert(pitch.unsigned().units() == accuracy::gap(pitch.units(), 0));
    let p = crate::derive::audio_trim(clip);
    let q = crate::derive::audio_place(clip);
    let s = crate::derive::speed_change(clip);
    let t = crate::derive::pitch_change(pitch);
    let u = crate::derive::audio_rise(clip);
    let v = crate::derive::audio_fall(clip, length);
    assert(p.len() == trims(clip) && q.len() == moves(clip) && s.len() == respeeds(clip));
    assert(t.len() == shifts(pitch) && u.len() == rises(clip) && v.len() == falls(clip, length));
}

/// A mix track is timed as its clip says, and reads the clip's file at 48 kHz in stereo. It
/// starts with the trim from the in-point to the out-point, then the delay to where the clip
/// starts in whole milliseconds, the change of speed exactly where an export layer has it, the
/// shift of pitch, the fade-in from the start and the fade-out that ends with the clip.
pub proof fn mix_is_timed(
    clip: Clip,
    automation: TrackAutomation,
    length: Option<Duration>,
    pitch_start: F64,
    starts: Seq<F64>,
    r: AudioTrack,
)
    requires
        crate::derive::is_audio_track(clip, automation, length, pitch_start, starts, r),
        clip.speed.finite(),
        clip.pitch.finite() && pitch_start.finite(),
        is_span(clip.in_point) && is_span(clip.out_point) && is_span(length),
        clip.offset.nanos < 9_007_199_254_740_992_000_000,
        clip.fade_in.nanos <= time::MAX_NANOS && clip.fade_out.nanos <= time::MAX_NANOS,
    ensures
        r.sample_rate == 48_000,
        clip.source matches ClipSource::File(path) ==> r.source == path,
        clip.source !is File ==> r.source@.len() == 0,
        ({
            let steps = r.effects@;
            let pitch = if clip.pitch_track is Some {
                pitch_start
            } else {
                clip.pitch
            };
            let a = trims(clip);
            let b = a + moves(clip);
            let c = b + respeeds(clip);
            let d = c + shifts(pitch);
            let e = d + rises(clip);
            let f = e + falls(clip, length);
            &&& f <= steps.len()
            &&& trims(clip) == 2 ==> {
                &&& steps[0] matches FilterStep::ATrim { start, end } && tells_at(
                    start,
                    clip.in_point,
                ) && tells_at(end, clip.out_point)
                &&& steps[1] is AResetPts
            }
            &&& moves(clip) == 1 ==> (steps[a] matches FilterStep::AudioDelay { ms }
                && whole_millis(ms, clip.offset))
            &&& timing::off_one(clip.speed) ==> steps[b] == (FilterStep::<AnimatedValue>::Speed {
                factor: clip.speed,
            })
            &&& shifts(pitch) == 1 ==> steps[c] == (FilterStep::<AnimatedValue>::PitchShift {
                semitones: double::narrowed(pitch),
                algo: PitchAlgo::Signal,
            })
            &&& rises(clip) == 1 ==> (steps[d] matches FilterStep::AFadeIn { start, duration }
                && start.finite() && start.units() == 0 && timing::tells(duration, clip.fade_in))
            &&& falls(clip, length) == 1 ==> (steps[e] matches FilterStep::AFadeOut {
                start,
                duration,
            } && timing::tells(duration, clip.fade_out) && timing::tells(
                start,
                Duration { nanos: (length->0.nanos - clip.fade_out.nanos) as u128 },
            ))
            &&& crate::clip::is_audio_chain(clip, starts, steps.skip(f))
        }),
{
    let pitch = if clip.pitch_track is Some {
        pitch_start
    } else {
        clip.pitch
    };
    lemma_audio_lead(clip, pitch, length);
    assert((F64 { bits: values::ZERO }).units() == 0) by {
        accuracy::doubles_are_their_numbers();
    }
    let lead = crate::derive::audio_lead(clip, pitch, length);
    let steps = r.effects@;
    let head = steps.subrange(0, lead.len() as int);
    assert(head == lead);
    assert forall|i: int| 0 <= i < lead.len() implies #[trigger] steps[i] == lead[i] by {
        assert(head[i] == steps[i]);
    }
    if let Some(d) = clip.in_point {
        timing::seconds_are_accurate(d);
    }
    if let Some(d) = clip.out_point {
        timing::seconds_are_accurate(d);
    }
    lemma_millis(clip.offset);
    timing::seconds_are_accurate(clip.fade_in);
    timing::seconds_are_accurate(clip.fade_out);
    if falls(clip, length) == 1 {
        timing::seconds_are_accurate(time::earlier(length->0, clip.fade_out));
    }
    assert(steps.skip(lead.len() as int) =~= steps.subrange(lead.len() as int, steps.len() as int));
}

/// Whether `v` is the merge of a property: its keyframes where it has any, else its constant
/// where that is not the neutral one, else the automation of the same property of the track,
/// else the neutral constant. `neutral` is in units of `2^-1074`.
pub open spec fn merges(
    keys: Option<AnimationTrack>,
    value: F64,
    neutral: int,
    slot: Option<AnimationTrack>,
    v: AnimatedValue,
) -> bool {
    match (keys, slot) {
        (Some(t), _) => v == AnimatedValue::Track(t),
        (None, Some(t)) if value.units() == neutral => v == AnimatedValue::Track(t),
        (None, _) => v matches AnimatedValue::Static(w) && w.finite() && w.units()
            == value.units(),
    }
}

proof fn lemma_merges(keys: Option<AnimationTrack>, value: F64, slot: Option<AnimationTrack>)
    requires
        value.finite(),
    ensures
        merges(
            keys,
            value,
            0,
            slot,
            crate::derive::merged(keys, value, values::ZERO, slot),
        ),
        merges(
            keys,
            value,
            accuracy::unit(),
            slot,
            crate::derive::merged(keys, value, values::ONE, slot),
        ),
{
    accuracy::lemma_powers();
    accuracy::doubles_are_their_numbers();
    double::order_is_numeric(value, F64 { bits: values::ZERO });
    double::order_is_numeric(value, F64 { bits: values::ONE });
}

/// A layer is placed and mixed as its clip says: each property by its own keyframes, its own
/// constant and the track's automation of the same name, in this order. What a step of the chain
/// animates is left neutral on the layer.
pub proof fn layers_are_placed_as_authored(
    clip: Clip,
    a: TrackAutomation,
    width: u32,
    height: u32,
    prev_end: Option<F64>,
    proxy: Option<ProxySource>,
    starts: Seq<F64>,
    r: VideoLayer<AnimatedValue>,
)
    requires
        crate::derive::is_export_layer(clip, a, width, height, prev_end, proxy, starts, r),
        clip.x.finite() && clip.y.finite() && clip.scale.finite() && clip.rotation.finite(),
        clip.opacity.finite(),
    ensures
        merges(clip.x_track, clip.x, 0, a.x, r.x),
        merges(clip.y_track, clip.y, 0, a.y, r.y),
        merges(
            clip.opacity_track,
            double::widened(clip.opacity),
            accuracy::unit(),
            a.opacity,
            r.opacity,
        ),
        double::widened(clip.opacity).units() == clip.opacity.units()
            * vstd::arithmetic::power2::pow2(925),
        clip.rotation_track is None && !(clip.rotation.units() == 0 && a.rotation is Some)
            ==> merges(None, clip.rotation, 0, None, r.rotation),
        clip.rotation_track is Some || (clip.rotation.units() == 0 && a.rotation is Some) ==> (
        r.rotation matches AnimatedValue::Static(v) && v.units() == 0),
        clip.scale_track is None && clip.scale.units() != accuracy::unit() ==> merges(
            None,
            clip.scale,
            accuracy::unit(),
            None,
            r.scale_x,
        ) && merges(None, clip.scale, accuracy::unit(), None, r.scale_y),
        clip.scale_track is Some || clip.scale.units() == accuracy::unit() ==> (
        r.scale_x matches AnimatedValue::Static(v) && v.units() == accuracy::unit()) && (
        r.scale_y matches AnimatedValue::Static(v) && v.units() == accuracy::unit()),
        r.blend_mode == clip.blend_mode,
        r.composite_op == clip.composite_op,
        r.proxy == proxy,
        match clip.source {
            ClipSource::File(path) => r.source == LayerSource::File(path),
            ClipSource::Text(spec) => r.source == LayerSource::Text(spec),
            ClipSource::Solid(color) => r.source == LayerSource::Solid(color),
        },
{
    accuracy::lemma_powers();
    accuracy::doubles_are_their_numbers();
    accuracy::singles_are_their_numbers();
    lemma_merges(clip.x_track, clip.x, a.x);
    lemma_merges(clip.y_track, clip.y, a.y);
    lemma_merges(clip.rotation_track, clip.rotation, a.rotation);
    lemma_merges(clip.scale_track, clip.scale, a.scale_x);
    lemma_merges(clip.scale_track, clip.scale, a.scale_y);
    accuracy::widening_is_exact(clip.opacity);
    accuracy::widening_is_exact(F32 { bits: values::S_ONE });
    single::order_is_numeric(clip.opacity, F32 { bits: values::S_ONE });
    let w = vstd::arithmetic::power2::pow2(925) as int;
    vstd::arithmetic::power2::lemma_pow2_pos(925);
    vstd::arithmetic::power2::lemma_pow2_adds(149, 925);
    assert(accuracy::single_unit() * w == accuracy::unit());
    assert(clip.opacity.units() * w == accuracy::unit() <==> clip.opacity.units()
        == accuracy::single_unit()) by (nonlinear_arith)
        requires
            accuracy::single_unit() * w == accuracy::unit(),
            w > 0,
    ;
}

/// A mix track sounds as its clip says: its volume and its pan by their own keyframes, their own
/// constants and the track's automation of the same name.
pub proof fn mix_sounds_as_authored(
    clip: Clip,
    a: TrackAutomation,
    length: Option<Duration>,
    pitch_start: F64,
    starts: Seq<F64>,
    r: AudioTrack,
)
    requires
        crate::derive::is_audio_track(clip, a, length, pitch_start, starts, r),
        clip.volume_db.finite() && clip.pan.finite(),
    ensures
        merges(clip.volume_track, clip.volume_db, 0, a.volume, r.volume),
        merges(None, clip.pan, 0, a.pan, r.pan),
{
    lemma_merges(clip.volume_track, clip.volume_db, a.volume);
    lemma_merges(None, clip.pan, a.pan);
}

/// The keyframes that turn a clip: its own, or the track's where the clip has no turn of its own.
pub open spec fn turning(clip: Clip, a: TrackAutomation) -> Option<AnimationTrack> {
    if clip.rotation_track is Some {
        clip.rotation_track
    } else if clip.rotation.units() == 0 {
        a.rotation
    } else {
        None
    }
}

/// Whether keyframes scale a clip: its own, or the track's where the clip has no scale of its own.
pub open spec fn scaling(clip: Clip, a: TrackAutomation) -> bool {
    clip.scale_track is Some || (clip.scale.units() == accuracy::unit() && (a.scale_x is Some
        || a.scale_y is Some))
}

/// Whether a clip corrects colours: a number of the three is not the neutral one.
pub open spec fn colored(clip: Clip) -> bool {
    clip.brightness.units() != 0 || clip.contrast.units() != accuracy::single_unit()
        || clip.saturation.units() != accuracy::single_unit()
}

/// Whether `v` is a side of the canvas scaled by an axis: every value of the axis times the side.
pub open spec fn side(
    keys: Option<AnimationTrack>,
    slot: Option<AnimationTrack>,
    dim: u32,
    v: AnimatedValue,
) -> bool {
    let full = double::whole(dim as nat);
    match (keys, slot) {
        (Some(t), _) | (None, Some(t)) => v matches AnimatedValue::Track(u) && {
            &&& u.keyframes@.len() == t.keyframes@.len()
            &&& forall|i: int|
                #![trigger u.keyframes@[i]]
                0 <= i < t.keyframes@.len() ==> {
                    &&& u.keyframes@[i].timestamp == t.keyframes@[i].timestamp
                    &&& u.keyframes@[i].easing == t.keyframes@[i].easing
                    &&& u.keyframes@[i].value == double::product(t.keyframes@[i].value, full)
                }
        },
        _ => v matches AnimatedValue::Static(w) && w == double::product(
            F64 { bits: values::ONE },
            full,
        ),
    }
}

/// The chain that a clip runs is as authored. First come the keyframed turn, on black, and the
/// keyframed scale of the canvas, width by the horizontal axis and height by the vertical one;
/// then the framing to the canvas that the clip's fit asks for; then the colour correction with
/// the clip's own three numbers, where one of them is not neutral; then the steps attached by
/// hand, as they are; and the effects.
#[verifier::rlimit(60)]
pub proof fn chain_is_as_authored(
    clip: Clip,
    a: TrackAutomation,
    width: u32,
    height: u32,
    starts: Seq<F64>,
    steps: Seq<FilterStep<AnimatedValue>>,
)
    requires
        crate::derive::is_preview_chain(clip, a, width, height, starts, steps),
        clip.rotation.finite() && clip.scale.finite(),
        clip.brightness.finite() && clip.contrast.finite() && clip.saturation.finite(),
    ensures
        ({
            let r = if turning(clip, a) is Some {
                1int
            } else {
                0
            };
            let g = r + (if scaling(clip, a) {
                1int
            } else {
                0
            });
            let f = g + (if clip.fit is Native || width == 0 || height == 0 {
                0int
            } else {
                1
            });
            let c = f + (if colored(clip) {
                1int
            } else {
                0
            });
            let h = c + clip.video_effects@.len();
            &&& h <= steps.len()
            &&& turning(clip, a) matches Some(t) ==> (steps[0] matches FilterStep::RotateAnimated {
                angle,
                fill_color,
            } && angle == AnimatedValue::Track(t) && fill_color@ == "black"@)
            &&& scaling(clip, a) ==> (steps[r] matches FilterStep::ScaleAnimated {
                width: w,
                height: h,
                algorithm,
            } && side(clip.scale_track, a.scale_x, width, w) && side(
                clip.scale_track,
                a.scale_y,
                height,
                h,
            ) && algorithm is Bicubic)
            &&& f == g + 1 && clip.fit is Stretch ==> steps[g] == (FilterStep::<
                AnimatedValue,
            >::Scale { width, height, algorithm: ScaleAlgorithm::Bilinear })
            &&& f == g + 1 && clip.fit is Fit ==> (steps[g] matches FilterStep::FitToAspect {
                width: w,
                height: h,
                color,
            } && w == width && h == height && color@ == "black"@)
            &&& f == g + 1 && clip.fit is Fill ==> steps[g] == (FilterStep::<
                AnimatedValue,
            >::FillToAspect { width, height })
            &&& colored(clip) ==> (steps[f] matches FilterStep::Eq {
                brightness,
                contrast,
                saturation,
                temperature,
                tint,
            } && brightness == clip.brightness && contrast == clip.contrast && saturation
                == clip.saturation && temperature.units() == 0 && tint.units() == 0)
            &&& steps.subrange(c, h) == clip.video_effects@
            &&& crate::clip::compiled_effects(
                clip.effects@,
                crate::effect::EffectDomain::Video,
                starts,
                steps.skip(h),
            )
        }),
{
    accuracy::lemma_powers();
    accuracy::singles_are_their_numbers();
    accuracy::doubles_are_their_numbers();
    double::order_is_numeric(clip.rotation, F64 { bits: values::ZERO });
    double::order_is_numeric(clip.scale, F64 { bits: values::ONE });
    single::order_is_numeric(clip.brightness, F32 { bits: values::S_ZERO });
    single::order_is_numeric(clip.contrast, F32 { bits: values::S_ONE });
    single::order_is_numeric(clip.saturation, F32 { bits: values::S_ONE });
    let t = crate::derive::transform(clip, a);
    let g = crate::derive::geometry_len(t);
    let f = g + crate::derive::framing_len(clip, width, height);
    let lead = steps.subrange(0, g);
    let chain = steps.subrange(f, steps.len() as int);
    let head = crate::clip::color_steps(clip) + clip.video_effects@;
    let n = head.len() as int;
    let c = crate::clip::color_steps(clip).len() as int;
    assert(g > 0 ==> lead[0] == steps[0] && lead.last() == steps[g - 1]);
    assert(colored(clip) <==> !crate::clip::neutral_color(clip));
    assert(chain.take(n) == head);
    assert(c == 1 ==> chain.take(n)[0] == head[0]);
    assert(chain.take(n).subrange(c, n) =~= clip.video_effects@);
    assert(steps.subrange(f + c, f + n) =~= chain.take(n).subrange(c, n));
    assert(steps.skip(f + n) =~= chain.skip(n));
    if scaling(clip, a) {
        lemma_sides(clip, a, width, height, steps[g - 1]);
    }
}

/// The two sides of a keyframed scale.
proof fn lemma_sides(
    clip: Clip,
    a: TrackAutomation,
    width: u32,
    height: u32,
    step: FilterStep<AnimatedValue>,
)
    requires
        scaling(clip, a),
        clip.scale.finite(),
        crate::derive::scales(step, crate::derive::transform(clip, a), width, height),
    ensures
        step matches FilterStep::ScaleAnimated { width: w, height: h, algorithm } && side(
            clip.scale_track,
            a.scale_x,
            width,
            w,
        ) && side(clip.scale_track, a.scale_y, height, h) && algorithm is Bicubic,
{
    accuracy::doubles_are_their_numbers();
    double::order_is_numeric(clip.scale, F64 { bits: values::ONE });
}

/// Whether a track plays: it is enabled and not muted, and where a track of its list is soloed it
/// is soloed itself.
pub open spec fn audible(tracks: Seq<TrackState>, k: int) -> bool {
    &&& tracks[k].enabled
    &&& !tracks[k].mute
    &&& tracks[k].solo || forall|j: int| 0 <= j < tracks.len() ==> !(#[trigger] tracks[j]).solo
}

/// Whether a volume is the merge of a clip's: keyframes above a constant.
pub open spec fn plays_at(
    clip: Clip,
    a: TrackAutomation,
    level: F64,
    keys: Option<AnimationTrack>,
) -> bool {
    &&& keys == (if clip.volume_track is Some {
        clip.volume_track
    } else if clip.volume_db.units() == 0 {
        a.volume
    } else {
        None
    })
    &&& level.finite() && level.units() == clip.volume_db.units()
}

proof fn lemma_plays_at(clip: Clip, a: TrackAutomation)
    requires
        clip.volume_db.finite(),
    ensures
        plays_at(clip, a, scene::volume_at_rest(clip, a), scene::volume_keys(clip, a)),
{
    accuracy::doubles_are_their_numbers();
    double::order_is_numeric(clip.volume_db, F64 { bits: values::ZERO });
}

/// The preview plays each clip of an audible audio track where the clip says: on the timeline at
/// its own offset, in the source from its in-point, or from the start where it has none, to its
/// out-point, with its own fades, volume, pan and pitch; and it plays no clip of any other track.
pub proof fn scene_sounds_as_authored<F: Fn(&AnimatedValue) -> F64>(
    d: Document,
    eval: F,
    s: Scene,
    k: int,
    i: int,
)
    requires
        scene::is_scene(d, eval, s),
        0 <= k < d.audio.len(),
    ensures
        s.audio_tracks@.len() == d.audio.len(),
        s.audio_tracks@[k].placements@.len() == (if audible(d.audio, k) {
            d.audio[k].clips.len()
        } else {
            0
        }),
        audible(d.audio, k) && 0 <= i < d.audio[k].clips.len() ==> {
            let c = d.audio[k].clips[i];
            let a = d.audio[k].automation;
            let p = s.audio_tracks@[k].placements@[i];
            &&& p.source == c.source
            &&& p.timeline_offset.nanos == c.offset.nanos
            &&& c.in_point matches Some(from) ==> p.in_point.nanos == from.nanos
            &&& c.in_point is None ==> p.in_point.nanos == 0
            &&& p.out_point == c.out_point
            &&& p.fade_in.nanos == c.fade_in.nanos && p.fade_out.nanos == c.fade_out.nanos
            &&& c.volume_db.finite() ==> plays_at(c, a, p.volume_db, p.volume_track)
            &&& c.pan.finite() ==> merges(None, c.pan, 0, a.pan, p.pan)
            &&& c.pitch_track is None ==> p.pitch == c.pitch
            &&& c.pitch_track matches Some(t) ==> eval.ensures((&AnimatedValue::Track(t),), p.pitch)
        },
{
    let t = s.audio_tracks@[k];
    assert(scene::audio_track_plays(d, k, eval, t));
    lemma_audible(d.audio, k);
    if audible(d.audio, k) && 0 <= i < d.audio[k].clips.len() {
        let c = d.audio[k].clips[i];
        let a = d.audio[k].automation;
        assert(scene::heard_as(c, a, eval, t.placements@[i]));
        if c.volume_db.finite() {
            lemma_plays_at(c, a);
        }
        if c.pan.finite() {
            lemma_merges(None, c.pan, a.pan);
        }
    }
}

pub proof fn lemma_audible(tracks: Seq<TrackState>, k: int)
    requires
        0 <= k < tracks.len(),
    ensures
        audible(tracks, k) <==> track::active(tracks[k], track::any_solo(tracks)),
{
}

/// The preview plays each clip of an audible video track where the clip says: on the timeline at
/// its own offset, in the source from its in-point, or from the start where it has none, to its
/// out-point, at its own speed, which counts as a hundredth at least, with its own fades and
/// volume and its opacity held between zero and one. The bottom track alone runs transitions, for
/// as long as they were authored.
pub proof fn scene_shows_as_authored<F: Fn(&AnimatedValue) -> F64>(
    d: Document,
    eval: F,
    s: Scene,
    k: int,
    i: int,
)
    requires
        scene::is_scene(d, eval, s),
        0 <= k < d.video.len(),
    ensures
        s.video_tracks@.len() == d.video.len(),
        s.video_tracks@[k].placements@.len() == (if audible(d.video, k) {
            d.video[k].clips.len()
        } else {
            0
        }),
        audible(d.video, k) && 0 <= i < d.video[k].clips.len() ==> {
            let c = d.video[k].clips[i];
            let a = d.video[k].automation;
            let p = s.video_tracks@[k].placements@[i];
            &&& p.source == c.source
            &&& p.timeline_offset.nanos == c.offset.nanos
            &&& c.in_point matches Some(from) ==> p.in_point.nanos == from.nanos
            &&& c.in_point is None ==> p.in_point.nanos == 0
            &&& p.out_point == c.out_point
            &&& c.speed.finite() && 100 * c.speed.units() >= accuracy::unit() ==> p.speed == c.speed
            &&& c.speed.finite() && 100 * c.speed.units() < accuracy::unit() ==> p.speed == (F64 {
                bits: values::HUNDREDTH,
            })
            &&& k == 0 && c.transition is Some ==> p.transition_dur.nanos
                == c.transition_duration.nanos
            &&& k > 0 || c.transition is None ==> p.transition_dur.nanos == 0
            &&& p.fade_in.nanos == c.fade_in.nanos && p.fade_out.nanos == c.fade_out.nanos
            &&& c.volume_db.finite() ==> plays_at(c, a, p.volume_db, p.volume_track)
            &&& c.opacity.finite() ==> p.opacity.finite() && p.opacity.units() == (
            if c.opacity.units() < 0 {
                0
            } else if c.opacity.units() > accuracy::single_unit() {
                accuracy::single_unit()
            } else {
                c.opacity.units()
            })
        },
{
    let t = s.video_tracks@[k];
    assert(scene::video_track_plays(d, k, eval, t));
    lemma_audible(d.video, k);
    if audible(d.video, k) && 0 <= i < d.video[k].clips.len() {
        let c = d.video[k].clips[i];
        let a = d.video[k].automation;
        let p = t.placements@[i];
        assert(scene::plays_as(
            c,
            k == 0,
            a,
            (d.canvas_width, d.canvas_height),
            eval,
            p,
        ));
        if c.volume_db.finite() {
            lemma_plays_at(c, a);
        }
        if c.speed.finite() {
            timing::lemma_hundredth(c.speed);
        }
        if c.opacity.finite() {
            crate::planning::lemma_unit_part(c.opacity);
        }
    }
}

/// The scene runs at the timeline's frame rate, one frame a second at least, on the canvas that
/// was set, if one was.
pub proof fn scene_runs_as_set<F: Fn(&AnimatedValue) -> F64>(d: Document, eval: F, s: Scene)
    requires
        scene::is_scene(d, eval, s),
        d.frame_rate.finite(),
    ensures
        d.frame_rate.units() >= accuracy::unit() ==> s.fps == d.frame_rate,
        d.frame_rate.units() < accuracy::unit() ==> s.fps.finite() && s.fps.units()
            == accuracy::unit(),
        d.canvas_explicit ==> s.canvas == Some((d.canvas_width, d.canvas_height)),
        !d.canvas_explicit ==> s.canvas is None,
{
    accuracy::doubles_are_their_numbers();
    double::order_is_numeric(d.frame_rate, F64 { bits: values::ONE });
}

/// Preview and mix put a clip at the same moment and read the same part of its source: the mix
/// delays it by the whole milliseconds of where the preview has it, and trims it from where the
/// preview starts in the source to where the preview ends.
pub proof fn preview_and_mix_play_together<F: Fn(&AnimatedValue) -> F64>(
    clip: Clip,
    automation: TrackAutomation,
    eval: F,
    p: SceneAudioPlacement,
    length: Option<Duration>,
    start: F64,
    starts: Seq<F64>,
    m: AudioTrack,
)
    requires
        scene::heard_as(clip, automation, eval, p),
        crate::derive::is_audio_track(clip, automation, length, start, starts, m),
        clip.speed.finite() && clip.pitch.finite() && start.finite(),
        is_span(clip.in_point) && is_span(clip.out_point) && is_span(length),
        clip.offset.nanos < 9_007_199_254_740_992_000_000,
        clip.fade_in.nanos <= time::MAX_NANOS && clip.fade_out.nanos <= time::MAX_NANOS,
    ensures
        p.timeline_offset.nanos > 0 ==> (m.effects@[trims(clip)] matches FilterStep::AudioDelay {
            ms,
        } && whole_millis(ms, p.timeline_offset)),
        p.out_point is Some || p.in_point.nanos > 0 ==> (m.effects@[0] matches FilterStep::ATrim {
            start: from,
            end: to,
        } && tells_at(to, p.out_point) && (from is None ==> p.in_point.nanos == 0) && (
        from is Some ==> timing::tells(from->0, p.in_point))),
{
    mix_is_timed(clip, automation, length, start, starts, m);
}

} // verus!

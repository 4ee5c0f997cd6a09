//! The decisions of the GPU export: which timelines it takes, how a source's frames conform to
//! the timeline's rate, and in which order clips run and blend.
//!
//! Decoding, compositing and encoding happen outside; they hand what they find to the functions
//! here, and do what these decide.

use vstd::prelude::*;

use crate::clip;
use crate::clip::Clip;
use crate::derive::{effect_starts, video_layer, VideoLayer};
use crate::error::TimelineError;
use crate::filter::{AnimatedValue, XfadeTransition};
use crate::float::double;
use crate::float::double::F64;
use crate::float::single;
use crate::float::single::F32;
use crate::float::values;
use crate::gpu;
use crate::gpu::{GpuEffect, GpuLayerPlan, GpuLayerSource, RenderBlendMode};
use crate::gpu_transition;
use crate::gpu_transition::{map_transition, GpuTransition};
use crate::time;
use crate::time::Duration;
use crate::track;
use crate::track::{Track, TrackAutomation, TrackState};
use crate::transition;
use crate::transition::effective_duration;

verus! {

/// Whether the GPU export renders a kind itself: every kind with a node but the dissolve, whose
/// noise differs between the two routes.
pub open spec fn exported(kind: XfadeTransition) -> bool {
    kind != XfadeTransition::Dissolve && gpu_transition::node_of(kind) is Some
}

/// Whether the GPU export renders `kind` itself, or leaves the whole export to the CPU.
pub fn export_maps_to_gpu(kind: XfadeTransition) -> (r: bool)
    ensures
        r == exported(kind),
{
    match kind {
        XfadeTransition::Dissolve => false,
        _ => map_transition(kind).is_some(),
    }
}

/// How many output frames a span of time takes: its seconds times the rate, to the nearest
/// whole number.
pub open spec fn frames_in(d: Duration, frame_rate: F64) -> u64 {
    double::rounded(double::product(time::seconds(d), frame_rate), u64::MAX as nat) as u64
}

/// The length of a transition in output frames.
pub fn window_frames(d: Duration, frame_rate: F64) -> (r: u64)
    ensures
        r == frames_in(d, frame_rate),
{
    d.as_secs_f64().times(frame_rate).round_at_most(u64::MAX)
}

/// A clip's length in output frames, where it is known.
pub open spec fn budget_of(clip: Clip, frame_rate: F64) -> Option<u64> {
    match clip::source_span(clip) {
        Some(d) => Some(frames_in(d, frame_rate)),
        None => None,
    }
}

/// A clip's length in output frames, or `None` where it runs to the end of its file.
pub fn budget_frames(clip: &Clip, frame_rate: F64) -> (r: Option<u64>)
    ensures
        r == budget_of(*clip, frame_rate),
{
    match clip.duration() {
        Some(d) => Some(window_frames(d, frame_rate)),
        None => None,
    }
}

/// The export layer of a clip without any transition, which the export runs by itself.
pub fn transitionless_layer(
    clip: &Clip,
    automation: &TrackAutomation,
    canvas: (u32, u32),
    starts: &Vec<F64>,
) -> (r: VideoLayer<AnimatedValue>)
    requires
        starts@.len() == clip.effects@.len(),
    ensures
        crate::derive::is_export_layer(
            *clip,
            *automation,
            canvas.0,
            canvas.1,
            None,
            None,
            starts@,
            r,
        ),
{
    video_layer(clip, automation, canvas.0, canvas.1, None, None, starts)
}

/// Whether a value is constantly within a billionth of zero.
pub open spec fn still_zero(v: AnimatedValue) -> bool {
    v matches AnimatedValue::Static(x) && double::less(
        x.unsigned(),
        F64 { bits: values::BILLIONTH },
    )
}

/// Whether a value is constantly within a billionth of one.
pub open spec fn still_one(v: AnimatedValue) -> bool {
    v matches AnimatedValue::Static(x) && double::less(
        double::difference(x, F64 { bits: values::ONE }).unsigned(),
        F64 { bits: values::BILLIONTH },
    )
}

/// Whether a layer stays where it is at every time: no offset, scale or rotation.
pub open spec fn stays_put(layer: VideoLayer<AnimatedValue>) -> bool {
    still_zero(layer.x) && still_zero(layer.y) && still_one(layer.scale_x) && still_one(
        layer.scale_y,
    ) && still_zero(layer.rotation)
}

fn is_still_zero(v: &AnimatedValue) -> (r: bool)
    ensures
        r == still_zero(*v),
{
    match v {
        AnimatedValue::Static(x) => x.abs().below(F64 { bits: values::BILLIONTH }),
        AnimatedValue::Track(_) => false,
    }
}

fn is_still_one(v: &AnimatedValue) -> (r: bool)
    ensures
        r == still_one(*v),
{
    match v {
        AnimatedValue::Static(x) => x.minus(F64 { bits: values::ONE }).abs().below(
            F64 { bits: values::BILLIONTH },
        ),
        AnimatedValue::Track(_) => false,
    }
}

/// Whether a layer's placement is constant and changes nothing.
pub fn is_static_neutral_transform(layer: &VideoLayer<AnimatedValue>) -> (r: bool)
    ensures
        r == stays_put(*layer),
{
    is_still_zero(&layer.x) && is_still_zero(&layer.y) && is_still_one(&layer.scale_x)
        && is_still_one(&layer.scale_y) && is_still_zero(&layer.rotation)
}

/// Whether an effect's node carries state from one frame to the next.
pub fn is_stateful_effect(effect: &GpuEffect) -> (r: bool)
    ensures
        r == (effect is MotionBlur),
{
    match effect {
        GpuEffect::MotionBlur { .. } => true,
        _ => false,
    }
}

/// Whether a layer composites alone as if it were not there: opaque, to a millionth, and with
/// the normal blend mode.
pub open spec fn neutral_composite(opacity: F32, blend: RenderBlendMode) -> bool {
    gpu::near(opacity, values::S_ONE) && blend == RenderBlendMode::Normal
}

/// Whether a layer composited alone onto the empty canvas comes out unchanged, so that
/// blending after the composite gives what blending before it does.
pub fn is_neutral_composite(plan: &GpuLayerPlan) -> (r: bool)
    ensures
        r == neutral_composite(plan.opacity, plan.blend_mode),
{
    let near_one = plan.opacity.minus(F32 { bits: values::S_ONE }).abs().below(
        F32 { bits: values::S_MILLIONTH },
    );
    near_one && plan.blend_mode == RenderBlendMode::Normal
}

/// What the mapping of a clip's layer says of it.
#[derive(Clone, Copy, Debug, PartialEq, Eq, Structural)]
pub struct ClipShape {
    /// The layer maps to the GPU at time zero.
    pub mapped: bool,
    /// Its placement is constant and changes nothing.
    pub still: bool,
    /// It may take part in a transition: it composites alone unchanged, and none of its effects
    /// carries state.
    pub blendable: bool,
}

/// Whether some effect carries state.
pub open spec fn any_stateful(effects: Seq<GpuEffect>) -> bool {
    exists|i: int| 0 <= i < effects.len() && (#[trigger] effects[i]) is MotionBlur
}

/// What the mapping of a layer says of it, given the layer at time zero.
pub open spec fn shape_from(
    layer: VideoLayer<AnimatedValue>,
    at: VideoLayer<F64>,
) -> ClipShape {
    let zero = Duration { nanos: 0 };
    let shown = at.shown();
    let mapped = gpu::refusal(shown, zero) is None;
    ClipShape {
        mapped,
        still: stays_put(layer),
        blendable: mapped && neutral_composite(
            gpu::unit_part(double::narrowed(shown.opacity)),
            gpu::effective_blend(shown),
        ) && !any_stateful(gpu::effects_of(shown.effects, zero)),
    }
}

/// Whether `shape` is what the mapping of a clip says of it; `eval` gives animations' values at
/// time zero.
pub open spec fn shape_of<F: Fn(&AnimatedValue) -> F64>(
    clip: Clip,
    automation: TrackAutomation,
    canvas: (u32, u32),
    eval: F,
    shape: ClipShape,
) -> bool {
    exists|starts: Seq<F64>, layer: VideoLayer<AnimatedValue>, at: VideoLayer<F64>|
        {
            &&& #[trigger] crate::derive::starts_sampled(clip, eval, starts)
            &&& crate::derive::is_export_layer(
                clip,
                automation,
                canvas.0,
                canvas.1,
                None,
                None,
                starts,
                layer,
            )
            &&& #[trigger] crate::derive::layer_sampled(layer, eval, at)
            &&& shape == shape_from(layer, at)
        }
}

/// What the mapping of a clip says of it; `eval` gives animations' values at time zero.
pub fn clip_shape<F: Fn(&AnimatedValue) -> F64>(
    clip: &Clip,
    automation: &TrackAutomation,
    canvas: (u32, u32),
    eval: &F,
) -> (r: ClipShape)
    requires
        forall|v: AnimatedValue| #[trigger] eval.requires((&v,)),
    ensures
        shape_of(*clip, *automation, canvas, *eval, r),
{
    let starts = effect_starts(clip, eval);
    let layer = transitionless_layer(clip, automation, canvas, &starts);
    let at = layer.at(eval);
    let still = is_static_neutral_transform(&layer);
    let shape = match gpu::map_layer(&at, 0, Duration::zero()) {
        Err(_) => ClipShape { mapped: false, still, blendable: false },
        Ok(plan) => {
            let mut stateful = false;
            let mut i: usize = 0;
            while i < plan.effects.len()
                invariant
                    i <= plan.effects@.len(),
                    stateful == exists|j: int|
                        0 <= j < i && (#[trigger] plan.effects@[j]) is MotionBlur,
                decreases plan.effects@.len() - i,
            {
                if is_stateful_effect(&plan.effects[i]) {
                    stateful = true;
                }
                i = i + 1;
            }
            ClipShape {
                mapped: true,
                still,
                blendable: is_neutral_composite(&plan) && !stateful,
            }
        },
    };
    assert(crate::derive::starts_sampled(*clip, *eval, starts@));
    assert(crate::derive::layer_sampled(layer, *eval, at));
    assert(shape == shape_from(layer, at));
    shape
}

/// What opening a clip's source tells: how long it is, and its frame rate.
#[derive(Clone, Copy, Debug, PartialEq, Eq, Structural)]
pub struct SourceFacts {
    /// The source's length, or `None` where it cannot be read.
    pub length: Option<Duration>,
    /// The source's frame rate, or `None` where it cannot be decoded.
    pub rate: Option<F64>,
}

/// Whether a frame rate can be used: there is one, it is finite, and more than zero.
pub open spec fn usable(rate: Option<F64>) -> bool {
    rate matches Some(f) && f.finite() && !double::at_most(f, F64 { bits: values::ZERO })
}

/// Whether the GPU export renders the transition into `incoming`: both clips are blendable and
/// of known length, the kind is rendered, the window takes at least one frame and no more than
/// the incoming clip has, and the outgoing handle covers all of it.
pub open spec fn transition_accepted(
    outgoing: Clip,
    incoming: Clip,
    blendable: bool,
    frame_rate: F64,
    source: Option<Duration>,
) -> bool {
    &&& blendable
    &&& incoming.transition matches Some(kind) && exported(kind)
    &&& budget_of(outgoing, frame_rate) is Some
    &&& budget_of(incoming, frame_rate) matches Some(budget) && 1 <= frames_in(
        incoming.transition_duration,
        frame_rate,
    ) <= budget
    &&& frames_in(transition::effective(outgoing, incoming, source), frame_rate) == frames_in(
        incoming.transition_duration,
        frame_rate,
    )
}

/// Whether the GPU export renders the transition into `incoming`; `source` is the length of the
/// outgoing clip's source.
pub fn eligible_transition(
    outgoing: &Clip,
    incoming: &Clip,
    blendable: bool,
    frame_rate: F64,
    source: Option<Duration>,
) -> (r: bool)
    requires
        incoming.transition is Some ==> transition::tail_fits(*outgoing, source),
    ensures
        r == transition_accepted(*outgoing, *incoming, blendable, frame_rate, source),
{
    if !blendable {
        return false;
    }
    let kind = match incoming.transition {
        Some(kind) => kind,
        None => {
            return false;
        },
    };
    if !export_maps_to_gpu(kind) {
        return false;
    }
    let budget: u64 = match (
        budget_frames(incoming, frame_rate),
        budget_frames(outgoing, frame_rate),
    ) {
        (Some(b), Some(_)) => b,
        _ => {
            return false;
        },
    };
    let authored: u64 = window_frames(incoming.transition_duration, frame_rate);
    if authored < 1 || authored > budget {
        return false;
    }
    window_frames(effective_duration(outgoing, incoming, source), frame_rate) == authored
}

/// The lengths of the first `n` clips together, in nanoseconds; an unknown one counts nothing.
pub open spec fn length_before(clips: Seq<Clip>, n: int) -> int
    decreases n,
{
    if n <= 0 {
        0
    } else {
        length_before(clips, n - 1) + (match clip::source_span(clips[n - 1]) {
            Some(d) => d.nanos as int,
            None => 0,
        })
    }
}

/// Whether clips tile the timeline: each starts where the one before ends, and every one but
/// the last has a known length.
pub open spec fn tiled(clips: Seq<Clip>) -> bool {
    &&& forall|i: int|
        0 <= i < clips.len() ==> (#[trigger] clips[i]).offset.nanos == length_before(clips, i)
    &&& forall|i: int|
        0 <= i < clips.len() - 1 ==> clip::source_span(#[trigger] clips[i]) is Some
}

/// Whether a clip plays at unity speed, within a billionth. An undefined speed is none.
pub open spec fn at_unity(clip: Clip) -> bool {
    double::at_most(
        double::difference(clip.speed, F64 { bits: values::ONE }).unsigned(),
        F64 { bits: values::BILLIONTH },
    )
}

/// Whether a clip by itself can be exported: a file at unity speed whose layer maps and stays
/// where it is.
pub open spec fn clip_accepted(clip: Clip, shape: ClipShape) -> bool {
    clip::file_of(clip) is Some && at_unity(clip) && shape.mapped && shape.still
}

/// Whether the GPU export takes a track.
pub open spec fn track_accepted(
    clips: Seq<Clip>,
    shapes: Seq<ClipShape>,
    sources: Seq<SourceFacts>,
    frame_rate: F64,
) -> bool {
    &&& clips.len() > 0
    &&& forall|i: int| 0 <= i < clips.len() ==> clip_accepted(#[trigger] clips[i], shapes[i])
    &&& forall|i: int|
        1 <= i < clips.len() && (#[trigger] clips[i]).transition is Some ==> transition_accepted(
            clips[i - 1],
            clips[i],
            shapes[i - 1].blendable && shapes[i].blendable,
            frame_rate,
            sources[i - 1].length,
        )
    &&& tiled(clips)
    &&& forall|i: int| 0 <= i < clips.len() ==> usable((#[trigger] sources[i]).rate)
}

fn clips_accepted(clips: &Vec<Clip>, shapes: &Vec<ClipShape>) -> (r: bool)
    requires
        shapes@.len() == clips@.len(),
    ensures
        r == forall|i: int|
            0 <= i < clips@.len() ==> clip_accepted(#[trigger] clips@[i], shapes@[i]),
{
    let mut i: usize = 0;
    while i < clips.len()
        invariant
            i <= clips@.len(),
            shapes@.len() == clips@.len(),
            forall|j: int| 0 <= j < i ==> clip_accepted(#[trigger] clips@[j], shapes@[j]),
        decreases clips@.len() - i,
    {
        let c = &clips[i];
        let away = c.speed.minus(F64 { bits: values::ONE }).abs();
        let unity = away.at_most(F64 { bits: values::BILLIONTH });
        let fine = c.source_path().is_some() && unity && shapes[i].mapped
            && shapes[i].still;
        if !fine {
            assert(!clip_accepted(clips@[i as int], shapes@[i as int]));
            return false;
        }
        i = i + 1;
    }
    true
}

/// The lengths of sources.
pub open spec fn lengths(sources: Seq<SourceFacts>) -> Seq<Option<Duration>> {
    Seq::new(sources.len(), |i: int| sources[i].length)
}

fn transitions_accepted(
    clips: &Vec<Clip>,
    shapes: &Vec<ClipShape>,
    sources: &Vec<SourceFacts>,
    frame_rate: F64,
) -> (r: bool)
    requires
        shapes@.len() == clips@.len(),
        sources@.len() == clips@.len(),
        transition::tails_fit(clips@, lengths(sources@)),
    ensures
        r == forall|i: int|
            1 <= i < clips@.len() && (#[trigger] clips@[i]).transition is Some
                ==> transition_accepted(
                clips@[i - 1],
                clips@[i],
                shapes@[i - 1].blendable && shapes@[i].blendable,
                frame_rate,
                sources@[i - 1].length,
            ),
{
    let mut i: usize = 1;
    while i < clips.len()
        invariant
            1 <= i,
            shapes@.len() == clips@.len(),
            sources@.len() == clips@.len(),
            transition::tails_fit(clips@, lengths(sources@)),
            forall|j: int|
                1 <= j < i && j < clips@.len() && (#[trigger] clips@[j]).transition is Some
                    ==> transition_accepted(
                    clips@[j - 1],
                    clips@[j],
                    shapes@[j - 1].blendable && shapes@[j].blendable,
                    frame_rate,
                    sources@[j - 1].length,
                ),
        decreases clips@.len() - i,
    {
        if clips[i].transition.is_some() {
            let blendable = shapes[i - 1].blendable && shapes[i].blendable;
            assert(clips@[i as int].transition is Some);
            assert(lengths(sources@)[i - 1] == sources@[i - 1].length);
            if !eligible_transition(
                &clips[i - 1],
                &clips[i],
                blendable,
                frame_rate,
                sources[i - 1].length,
            ) {
                assert(!transition_accepted(
                    clips@[i as int - 1],
                    clips@[i as int],
                    blendable,
                    frame_rate,
                    sources@[i as int - 1].length,
                ));
                return false;
            }
        }
        i = i + 1;
    }
    true
}

fn clips_tile(clips: &Vec<Clip>) -> (r: bool)
    ensures
        r == tiled(clips@),
{
    let n: usize = clips.len();
    let mut expected: Option<u128> = Some(0);
    let mut i: usize = 0;
    while i < n
        invariant
            i <= n,
            n == clips@.len(),
            match expected {
                Some(e) => e == length_before(clips@, i as int),
                None => length_before(clips@, i as int) > u128::MAX,
            },
            forall|j: int|
                0 <= j < i ==> (#[trigger] clips@[j]).offset.nanos == length_before(clips@, j),
            forall|j: int|
                0 <= j < i && j < n - 1 ==> clip::source_span(#[trigger] clips@[j]) is Some,
        decreases n - i,
    {
        let c = &clips[i];
        let on_time = match expected {
            Some(e) => c.offset.nanos == e,
            None => false,
        };
        if !on_time {
            assert(clips@[i as int].offset.nanos != length_before(clips@, i as int));
            return false;
        }
        match c.duration() {
            Some(d) => {
                expected = match expected {
                    Some(e) => e.checked_add(d.nanos),
                    None => None,
                };
            },
            None => {
                if i != n - 1 {
                    assert(clip::source_span(clips@[i as int]) is None);
                    return false;
                }
            },
        }
        i = i + 1;
    }
    true
}

fn rates_usable(sources: &Vec<SourceFacts>) -> (r: bool)
    ensures
        r == forall|i: int| 0 <= i < sources@.len() ==> usable((#[trigger] sources@[i]).rate),
{
    let mut i: usize = 0;
    while i < sources.len()
        invariant
            i <= sources@.len(),
            forall|j: int| 0 <= j < i ==> usable((#[trigger] sources@[j]).rate),
        decreases sources@.len() - i,
    {
        let fine = match sources[i].rate {
            Some(f) => f.is_finite() && !f.at_most(F64 { bits: values::ZERO }),
            None => false,
        };
        if !fine {
            assert(!usable(sources@[i as int].rate));
            return false;
        }
        i = i + 1;
    }
    true
}

/// Whether the GPU export takes a track, given what the mapping says of each clip and what
/// opening each source tells.
pub fn track_is_eligible(
    clips: &Vec<Clip>,
    shapes: &Vec<ClipShape>,
    sources: &Vec<SourceFacts>,
    frame_rate: F64,
) -> (r: bool)
    requires
        shapes@.len() == clips@.len(),
        sources@.len() == clips@.len(),
        transition::tails_fit(clips@, lengths(sources@)),
    ensures
        r == track_accepted(clips@, shapes@, sources@, frame_rate),
{
    clips.len() > 0 && clips_accepted(clips, shapes) && transitions_accepted(
        clips,
        shapes,
        sources,
        frame_rate,
    ) && clips_tile(clips) && rates_usable(sources)
}

/// Whether the track at `k` is the only active one.
pub open spec fn is_sole(tracks: Seq<TrackState>, any_solo: bool, k: int) -> bool {
    &&& 0 <= k < tracks.len()
    &&& track::active(tracks[k], any_solo)
    &&& forall|j: int|
        0 <= j < tracks.len() && j != k ==> !track::active(#[trigger] tracks[j], any_solo)
}

/// The only active track, or `None` where there is none or more than one.
pub fn sole_track(video_tracks: &Vec<Track>, any_video_solo: bool) -> (r: Option<usize>)
    ensures
        match r {
            Some(k) => is_sole(track::states(video_tracks@), any_video_solo, k as int),
            None => forall|k: int| !is_sole(track::states(video_tracks@), any_video_solo, k),
        },
{
    let ghost all = track::states(video_tracks@);
    let mut found: Option<usize> = None;
    let mut i: usize = 0;
    while i < video_tracks.len()
        invariant
            i <= video_tracks@.len(),
            all == track::states(video_tracks@),
            match found {
                Some(k) => k < i && track::active(all[k as int], any_video_solo) && forall|j: int|
                    0 <= j < i && j != k ==> !track::active(#[trigger] all[j], any_video_solo),
                None => forall|j: int|
                    0 <= j < i ==> !track::active(#[trigger] all[j], any_video_solo),
            },
        decreases video_tracks@.len() - i,
    {
        assert(all[i as int] == video_tracks@[i as int]@);
        if video_tracks[i].is_active(any_video_solo) {
            if let Some(k) = found {
                proof {
                    assert forall|m: int| !is_sole(all, any_video_solo, m) by {
                        assert(track::active(all[k as int], any_video_solo));
                        assert(track::active(all[i as int], any_video_solo));
                    }
                }
                return None;
            }
            found = Some(i);
        }
        i = i + 1;
    }
    found
}

/// Whether `shapes` holds what the mapping says of each clip of the only active track.
pub open spec fn shapes_given<F: Fn(&AnimatedValue) -> F64>(
    tracks: Seq<TrackState>,
    any_solo: bool,
    canvas: (u32, u32),
    eval: F,
    shapes: Seq<ClipShape>,
) -> bool {
    forall|k: int| #[trigger]
        is_sole(tracks, any_solo, k) ==> shapes.len() == tracks[k].clips.len() && forall|i: int|
            #![trigger shapes[i]]
            0 <= i < shapes.len() ==> shape_of(
                tracks[k].clips[i],
                tracks[k].automation,
                canvas,
                eval,
                shapes[i],
            )
}

/// Whether `r` is the track that the GPU export takes: the only active one, where there is no
/// overlay and the track is accepted; else none.
pub open spec fn decides(
    tracks: Seq<TrackState>,
    overlay: bool,
    any_solo: bool,
    shapes: Seq<ClipShape>,
    sources: Seq<SourceFacts>,
    frame_rate: F64,
    r: Option<usize>,
) -> bool {
    match r {
        Some(k) => !overlay && is_sole(tracks, any_solo, k as int) && track_accepted(
            tracks[k as int].clips,
            shapes,
            sources,
            frame_rate,
        ),
        None => overlay || forall|k: int| #[trigger]
            is_sole(tracks, any_solo, k) ==> !track_accepted(
                tracks[k].clips,
                shapes,
                sources,
                frame_rate,
            ),
    }
}

/// The track that the GPU export takes, or `None` to leave the whole export to the CPU.
///
/// `sources[i]` is what opening the source of clip `i` of the only active track tells (see
/// [`sole_track`]), and `eval` gives the value of an animation at time zero.
pub fn eligible_track<F: Fn(&AnimatedValue) -> F64>(
    video_tracks: &Vec<Track>,
    lavfi_overlay: Option<&str>,
    any_video_solo: bool,
    canvas: (u32, u32),
    frame_rate: F64,
    sources: &Vec<SourceFacts>,
    eval: &F,
) -> (r: Option<usize>)
    requires
        forall|v: AnimatedValue| #[trigger] eval.requires((&v,)),
        forall|k: int| #[trigger]
            is_sole(track::states(video_tracks@), any_video_solo, k) ==> sources@.len()
                == video_tracks@[k].clips@.len() && transition::tails_fit(
                video_tracks@[k].clips@,
                lengths(sources@),
            ),
    ensures
        exists|shapes: Seq<ClipShape>| #[trigger]
            shapes_given(
                track::states(video_tracks@),
                any_video_solo,
                canvas,
                *eval,
                shapes,
            ) && decides(
                track::states(video_tracks@),
                lavfi_overlay is Some,
                any_video_solo,
                shapes,
                sources@,
                frame_rate,
                r,
            ),
{
    let ghost all = track::states(video_tracks@);
    let mut shapes: Vec<ClipShape> = Vec::new();
    let k: usize = match sole_track(video_tracks, any_video_solo) {
        Some(k) => k,
        None => {
            assert(shapes_given(all, any_video_solo, canvas, *eval, shapes@));
            return None;
        },
    };
    assert(all[k as int] == video_tracks@[k as int]@);
    assert forall|m: int| #[trigger] is_sole(all, any_video_solo, m) implies m == k by {
        assert(track::active(all[k as int], any_video_solo));
    }
    let clips = &video_tracks[k].clips;
    let automation = &video_tracks[k].automation;
    let mut i: usize = 0;
    while i < clips.len()
        invariant
            i <= clips@.len(),
            forall|v: AnimatedValue| #[trigger] eval.requires((&v,)),
            shapes@.len() == i,
            forall|j: int|
                #![trigger shapes@[j]]
                0 <= j < i ==> shape_of(clips@[j], *automation, canvas, *eval, shapes@[j]),
        decreases clips@.len() - i,
    {
        shapes.push(clip_shape(&clips[i], automation, canvas, eval));
        i = i + 1;
    }
    assert(shapes_given(all, any_video_solo, canvas, *eval, shapes@));
    if lavfi_overlay.is_some() {
        return None;
    }
    assert(is_sole(all, any_video_solo, k as int));
    if track_is_eligible(clips, &shapes, sources, frame_rate) {
        Some(k)
    } else {
        None
    }
}

/// A cross-fade kind by name.
pub open spec fn kind_word(kind: XfadeTransition) -> Seq<char> {
    match kind {
        XfadeTransition::Fade => "Fade"@,
        XfadeTransition::Dissolve => "Dissolve"@,
        XfadeTransition::WipeLeft => "WipeLeft"@,
        XfadeTransition::WipeRight => "WipeRight"@,
        XfadeTransition::WipeUp => "WipeUp"@,
        XfadeTransition::WipeDown => "WipeDown"@,
        XfadeTransition::SlideLeft => "SlideLeft"@,
        XfadeTransition::SlideRight => "SlideRight"@,
        XfadeTransition::SlideUp => "SlideUp"@,
        XfadeTransition::SlideDown => "SlideDown"@,
        XfadeTransition::CircleOpen => "CircleOpen"@,
        XfadeTransition::CircleClose => "CircleClose"@,
        XfadeTransition::FadeGrays => "FadeGrays"@,
        XfadeTransition::FadeBlack => "FadeBlack"@,
        XfadeTransition::FadeWhite => "FadeWhite"@,
        XfadeTransition::Pixelize => "Pixelize"@,
        XfadeTransition::Other(_) => "Other"@,
    }
}

fn kind_text(kind: XfadeTransition) -> (r: &'static str)
    ensures
        r@ == kind_word(kind),
{
    match kind {
        XfadeTransition::Fade => "Fade",
        XfadeTransition::Dissolve => "Dissolve",
        XfadeTransition::WipeLeft => "WipeLeft",
        XfadeTransition::WipeRight => "WipeRight",
        XfadeTransition::WipeUp => "WipeUp",
        XfadeTransition::WipeDown => "WipeDown",
        XfadeTransition::SlideLeft => "SlideLeft",
        XfadeTransition::SlideRight => "SlideRight",
        XfadeTransition::SlideUp => "SlideUp",
        XfadeTransition::SlideDown => "SlideDown",
        XfadeTransition::CircleOpen => "CircleOpen",
        XfadeTransition::CircleClose => "CircleClose",
        XfadeTransition::FadeGrays => "FadeGrays",
        XfadeTransition::FadeBlack => "FadeBlack",
        XfadeTransition::FadeWhite => "FadeWhite",
        XfadeTransition::Pixelize => "Pixelize",
        XfadeTransition::Other(_) => "Other",
    }
}

/// Why the export met a transition that it cannot render.
pub open spec fn no_node(kind: XfadeTransition) -> Seq<char> {
    "gpu export: transition "@ + kind_word(kind)
        + " has no GPU node (precluded by eligibility)"@
}

/// The window of the transition into `incoming` in output frames: nothing where it carries
/// none, and an error where the export cannot render it. `effective` is how long the transition
/// really lasts.
///
/// The window comes out of neither clip: the outgoing handle and the incoming head feed it.
pub fn transition_window(incoming: &Clip, effective: Duration, frame_rate: F64) -> (r: Result<
    u64,
    TimelineError,
>)
    ensures
        match incoming.transition {
            None => r == Ok::<u64, TimelineError>(0),
            Some(kind) => {
                if exported(kind) {
                    r == Ok::<u64, TimelineError>(frames_in(effective, frame_rate))
                } else {
                    r matches Err(TimelineError::TimelineRenderFailed { reason }) && reason@
                        == no_node(kind)
                }
            },
        },
{
    let kind = match incoming.transition {
        None => {
            return Ok(0);
        },
        Some(kind) => kind,
    };
    if !export_maps_to_gpu(kind) {
        let mut reason = "gpu export: transition ".to_owned();
        reason.append(kind_text(kind));
        reason.append(" has no GPU node (precluded by eligibility)");
        return Err(TimelineError::TimelineRenderFailed { reason });
    }
    Ok(window_frames(effective, frame_rate))
}

/// The time of frame `k` at a frame rate, or `None` where it is no span of time.
pub open spec fn frame_time(k: u64, frame_rate: F64) -> Option<Duration> {
    time::span(double::quotient(double::whole(k as nat), frame_rate))
}

/// The time of output frame `k`, or `None` where it is no span of time: at a frame rate of
/// zero, say.
pub fn output_time(k: u64, frame_rate: F64) -> (r: Option<Duration>)
    ensures
        r == frame_time(k, frame_rate),
{
    Duration::try_from_secs_f64(F64::from_whole(k as u128).over(frame_rate))
}

/// A decoded frame: its number in order of decoding, and its time from the clip's in-point.
#[derive(Clone, Copy, Debug, PartialEq, Eq, Structural)]
pub struct SourceFrame {
    pub number: u64,
    pub at: Duration,
}

/// What a clip's source needs or gives for its next output.
#[derive(Clone, Copy, Debug, PartialEq, Eq, Structural)]
pub enum Pull {
    /// The clip is finished.
    Done,
    /// Decode one more frame, and say what came.
    Decode,
    /// Show the frame with this number. Frames with lower numbers are needed no more.
    Show(u64),
}

/// Where one clip stands in its source: which decoded frame the next output shows.
///
/// A source at the timeline's rate gives one frame for each output. Any other conforms by its
/// own timestamps: each output shows the newest frame at or before its time, so that a slower
/// source repeats frames and a faster one skips some.
#[derive(Clone, Copy, Debug, PartialEq, Eq, Structural)]
pub struct SourceClock {
    /// Output frames that the clip gives, or `None` to run to the end of its file.
    pub budget: Option<u64>,
    /// Output frames given so far.
    pub produced: u64,
    /// The timeline's frame rate.
    pub frame_rate: F64,
    /// Whether the source's rate is the timeline's.
    pub one_to_one: bool,
    /// The clip's in-point, from which frames are timed.
    pub base: Duration,
    /// Frames decoded so far.
    pub decoded: u64,
    /// The newest frame at or before the current output.
    pub held: Option<SourceFrame>,
    /// A frame decoded ahead, for a later output.
    pub pending: Option<SourceFrame>,
    /// Whether the source has ended.
    pub eof: bool,
}

/// Whether a clock has given its whole budget.
pub open spec fn spent(c: SourceClock) -> bool {
    c.budget matches Some(b) && c.produced >= b
}

/// What a conforming clock does once no further frame decides its output at `want`: it is
/// finished where it holds nothing, or where its source has ended before `want`; else it shows
/// what it holds.
pub open spec fn decided(c: SourceClock, want: Duration) -> (SourceClock, Pull) {
    match c.held {
        None => (c, Pull::Done),
        Some(h) => {
            if c.eof && c.pending is None && want.nanos > h.at.nanos {
                (c, Pull::Done)
            } else {
                (
                    SourceClock { produced: (c.produced + 1) as u64, ..c },
                    Pull::Show(h.number),
                )
            }
        },
    }
}

/// A conforming clock that holds its pending frame where that one is due at `want`, or where it
/// holds none yet.
pub open spec fn caught_up(c: SourceClock, want: Duration) -> SourceClock {
    match c.pending {
        Some(p) if c.held is None || p.at.nanos <= want.nanos => SourceClock {
            held: Some(p),
            pending: None,
            ..c
        },
        _ => c,
    }
}

/// What a conforming clock does for its output at `want`.
pub open spec fn settled(c: SourceClock, want: Duration) -> (SourceClock, Pull) {
    let c = caught_up(c, want);
    if c.pending is None && !c.eof {
        (c, Pull::Decode)
    } else {
        decided(c, want)
    }
}

/// The time of a clock's next output.
pub open spec fn wanted(c: SourceClock) -> Duration {
    match frame_time(c.produced, c.frame_rate) {
        Some(t) => t,
        None => Duration { nanos: 0 },
    }
}

/// What a clock does for its next output.
pub open spec fn begun(c: SourceClock) -> (SourceClock, Pull) {
    if spent(c) {
        (c, Pull::Done)
    } else if c.one_to_one {
        (c, Pull::Decode)
    } else {
        settled(c, wanted(c))
    }
}

/// What a clock does once a frame with the given timestamp has come.
pub open spec fn fed(c: SourceClock, timestamp: Duration) -> (SourceClock, Pull) {
    let frame = SourceFrame { number: c.decoded, at: time::earlier(timestamp, c.base) };
    let more = SourceClock { decoded: (c.decoded + 1) as u64, ..c };
    if c.one_to_one {
        (SourceClock { produced: (c.produced + 1) as u64, ..more }, Pull::Show(frame.number))
    } else {
        settled(SourceClock { pending: Some(frame), ..more }, wanted(c))
    }
}

/// What a clock does once its source has ended.
pub open spec fn drained(c: SourceClock) -> (SourceClock, Pull) {
    if c.one_to_one {
        (c, Pull::Done)
    } else {
        settled(SourceClock { eof: true, ..c }, wanted(c))
    }
}

/// The clock of a clip that has just been opened.
pub open spec fn opened(clip: Clip, frame_rate: F64, source_rate: F64) -> SourceClock {
    let rate = if usable(Some(source_rate)) {
        source_rate
    } else {
        frame_rate
    };
    SourceClock {
        budget: budget_of(clip, frame_rate),
        produced: 0,
        frame_rate,
        one_to_one: double::at_most(
            double::difference(rate, frame_rate).unsigned(),
            F64 { bits: values::THOUSANDTH },
        ),
        base: match clip.in_point {
            Some(p) => p,
            None => Duration { nanos: 0 },
        },
        decoded: 0,
        held: None,
        pending: None,
        eof: false,
    }
}

impl SourceClock {
    /// The clock of a clip whose source has just been opened at its in-point, or an error where
    /// the clip shows no file. A source without a usable rate counts as one at the timeline's.
    pub fn open(clip: &Clip, frame_rate: F64, source_rate: F64) -> (r: Result<
        SourceClock,
        TimelineError,
    >)
        ensures
            match clip::file_of(*clip) {
                Some(_) => r == Ok::<SourceClock, TimelineError>(
                    opened(*clip, frame_rate, source_rate),
                ),
                None => r matches Err(TimelineError::TimelineRenderFailed { reason }) && reason@
                    == "gpu export: clip lost its file source"@,
            },
    {
        if clip.source_path().is_none() {
            return Err(
                TimelineError::TimelineRenderFailed {
                    reason: "gpu export: clip lost its file source".to_owned(),
                },
            );
        }
        let usable_rate = source_rate.is_finite() && !source_rate.at_most(
            F64 { bits: values::ZERO },
        );
        let rate = if usable_rate {
            source_rate
        } else {
            frame_rate
        };
        Ok(
            SourceClock {
                budget: budget_frames(clip, frame_rate),
                produced: 0,
                frame_rate,
                one_to_one: rate.minus(frame_rate).abs().at_most(
                    F64 { bits: values::THOUSANDTH },
                ),
                base: match clip.in_point {
                    Some(p) => p,
                    None => Duration::zero(),
                },
                decoded: 0,
                held: None,
                pending: None,
                eof: false,
            },
        )
    }

    /// Lets the clip give `frames` more than its length, so that a transition can read its
    /// handle.
    pub fn allow_handle(&mut self, frames: u64)
        ensures
            *final(self) == (SourceClock {
                budget: match old(self).budget {
                    Some(b) => Some(
                        if b + frames <= u64::MAX {
                            (b + frames) as u64
                        } else {
                            u64::MAX
                        },
                    ),
                    None => None,
                },
                ..*old(self)
            }),
    {
        if let Some(b) = self.budget {
            self.budget = Some(b.saturating_add(frames));
        }
    }

    fn want(&self) -> (r: Duration)
        ensures
            r == wanted(*self),
    {
        match output_time(self.produced, self.frame_rate) {
            Some(t) => t,
            None => Duration::zero(),
        }
    }

    fn settle(&mut self, want: Duration) -> (r: Pull)
        requires
            old(self).produced < u64::MAX,
        ensures
            (*final(self), r) == settled(*old(self), want),
    {
        if let Some(p) = self.pending {
            if self.held.is_none() || p.at.nanos <= want.nanos {
                self.held = Some(p);
                self.pending = None;
            }
        }
        if self.pending.is_none() && !self.eof {
            return Pull::Decode;
        }
        match self.held {
            None => Pull::Done,
            Some(h) => {
                if self.eof && self.pending.is_none() && want.nanos > h.at.nanos {
                    return Pull::Done;
                }
                self.produced = self.produced + 1;
                Pull::Show(h.number)
            },
        }
    }

    /// Begins the clip's next output. The time of that output must be a span of time, unless
    /// the source is at the timeline's rate.
    pub fn next(&mut self) -> (r: Pull)
        requires
            old(self).produced < u64::MAX,
            !old(self).one_to_one ==> frame_time(old(self).produced, old(self).frame_rate)
                is Some,
        ensures
            (*final(self), r) == begun(*old(self)),
    {
        if let Some(b) = self.budget {
            if self.produced >= b {
                return Pull::Done;
            }
        }
        if self.one_to_one {
            return Pull::Decode;
        }
        let want = self.want();
        self.settle(want)
    }

    /// Goes on once the frame that was asked for has come.
    pub fn feed(&mut self, timestamp: Duration) -> (r: Pull)
        requires
            old(self).produced < u64::MAX,
            old(self).decoded < u64::MAX,
            !old(self).one_to_one ==> frame_time(old(self).produced, old(self).frame_rate)
                is Some,
        ensures
            (*final(self), r) == fed(*old(self), timestamp),
    {
        let number: u64 = self.decoded;
        self.decoded = self.decoded + 1;
        if self.one_to_one {
            self.produced = self.produced + 1;
            return Pull::Show(number);
        }
        let want = self.want();
        self.pending = Some(SourceFrame { number, at: timestamp.saturating_sub(self.base) });
        self.settle(want)
    }

    /// Goes on once the source has ended in place of giving the frame that was asked for.
    pub fn end(&mut self) -> (r: Pull)
        requires
            old(self).produced < u64::MAX,
            !old(self).one_to_one ==> frame_time(old(self).produced, old(self).frame_rate)
                is Some,
        ensures
            (*final(self), r) == drained(*old(self)),
    {
        if self.one_to_one {
            return Pull::Done;
        }
        self.eof = true;
        let want = self.want();
        self.settle(want)
    }
}

/// Whether a conforming clock has read the first frames of a source whose frames stand at
/// `times`, from the in-point: what it holds and what is pending are the last ones read.
pub open spec fn follows(c: SourceClock, times: Seq<Duration>) -> bool {
    let ahead = if c.pending is Some {
        1int
    } else {
        0
    };
    &&& !c.one_to_one
    &&& c.decoded <= times.len()
    &&& c.eof ==> c.decoded == times.len()
    &&& c.pending matches Some(p) ==> c.decoded > 0 && p.number == c.decoded - 1 && p.at
        == times[p.number as int]
    &&& match c.held {
        Some(h) => h.number == c.decoded - ahead - 1 && h.at == times[h.number as int],
        None => c.decoded == ahead,
    }
}

/// Whether times never go back.
pub open spec fn in_order(times: Seq<Duration>) -> bool {
    forall|i: int, j: int|
        0 <= i <= j < times.len() ==> (#[trigger] times[i]).nanos <= (#[trigger] times[j]).nanos
}

/// Whether what a clock holds was due by `want`, or is the first frame.
pub open spec fn due(c: SourceClock, want: Duration) -> bool {
    c.held matches Some(h) ==> h.number == 0 || h.at.nanos <= want.nanos
}

/// A clock goes on following its source, whatever it is asked and told.
pub proof fn clock_follows_its_source(c: SourceClock, times: Seq<Duration>, timestamp: Duration)
    requires
        follows(c, times),
        times.len() <= u64::MAX,
    ensures
        follows(begun(c).0, times),
        c.decoded < times.len() && c.pending is None && times[c.decoded as int] == time::earlier(
            timestamp,
            c.base,
        ) ==> follows(fed(c, timestamp).0, times),
        c.decoded == times.len() ==> follows(drained(c).0, times),
{
}

/// A conforming output shows the newest frame at or before its time, or the first frame where
/// none is: a slower source repeats frames, a faster one skips some, and the clip keeps its
/// length whatever rate its file reports.
pub proof fn output_shows_the_newest_frame(c: SourceClock, times: Seq<Duration>, want: Duration)
    requires
        follows(c, times),
        in_order(times),
        due(c, want),
        settled(c, want).1 is Show,
    ensures
        ({
            let n = settled(c, want).1->Show_0;
            &&& n < times.len()
            &&& n == 0 || times[n as int].nanos <= want.nanos
            &&& forall|j: int|
                n < j < times.len() ==> (#[trigger] times[j]).nanos > want.nanos
        }),
        due(settled(c, want).0, want),
{
    let d = caught_up(c, want);
    let n = settled(c, want).1->Show_0;
    assert forall|j: int| n < j < times.len() implies (#[trigger] times[j]).nanos
        > want.nanos by {
        if let Some(p) = d.pending {
            assert(times[p.number as int].nanos <= times[j].nanos);
        }
    }
}

/// A clip gives no more outputs than its budget.
pub proof fn budget_is_kept(c: SourceClock)
    requires
        c.budget is Some,
        c.produced <= c.budget->0,
    ensures
        begun(c).0.produced <= c.budget->0,
        begun(c).1 is Show ==> begun(c).0.produced == c.produced + 1,
        begun(c).1 is Done && !c.eof ==> c.produced == c.budget->0,
{
}

/// A transition as the export runs it.
#[derive(Clone, Copy, Debug, PartialEq, Eq, Structural)]
pub struct Boundary {
    /// How many outputs it blends, or `None` where the export cannot render its kind.
    pub window: Option<u64>,
    /// The node that blends.
    pub node: Option<GpuTransition>,
}

/// Where the export of a track stands.
#[derive(Clone, Copy, Debug, PartialEq, Eq, Structural)]
pub enum Stage {
    /// Nothing is open yet.
    Fresh,
    /// A frame of the clip that runs alone was asked for.
    Solo { clip: usize },
    /// A frame of the clip that runs alone was sent to the encoder.
    SoloPush { clip: usize },
    /// The clip after this one is being opened.
    Opening { clip: usize },
    /// In output `j` of a window, a frame of the outgoing clip was asked for.
    Outgoing { clip: usize, j: u64 },
    /// In output `j` of a window, a frame of the incoming clip was asked for.
    Incoming { clip: usize, j: u64 },
    /// In output `j` of a window, the two frames are being blended.
    Blending { clip: usize, j: u64 },
    /// In output `j` of a window, the blended frame was sent to the encoder.
    BlendPush { clip: usize, j: u64 },
    /// Nothing more is to be done.
    Over,
}

/// What happened outside since the last action.
#[derive(Clone, Copy, Debug, PartialEq, Eq, Structural)]
pub enum Happened {
    /// The source that was to be opened is open.
    Opened,
    /// The frame that was asked for has come and is composited.
    Composited,
    /// The clip that was asked for a frame is finished.
    Spent,
    /// The frame that was asked for has come, and its composite fell back.
    FellBack,
    /// The two frames are blended.
    Blended,
    /// The blend failed.
    BlendFailed,
    /// The encoder has taken the frame, and the caller wants to go on.
    Pushed,
    /// The encoder has taken the frame, and the caller wants to stop.
    Stopped,
}

/// Why the export of a track ends early.
#[derive(Clone, Copy, Debug, PartialEq, Eq, Structural)]
pub enum DrainFailure {
    /// The transition into this clip has a kind that the export cannot render.
    NoNode { clip: usize },
    /// A window was reached without a node to blend it.
    LostNode,
    /// A clip that runs alone fell back.
    FrameFellBack,
    /// The outgoing clip of a window fell back.
    OutgoingFellBack,
    /// The incoming clip of a window fell back.
    IncomingFellBack,
    /// The blend failed at this progress.
    BlendFailed { progress: F32 },
    /// The caller wants to stop.
    Cancelled,
}

/// What to do outside.
#[derive(Clone, Copy, Debug, PartialEq, Eq, Structural)]
pub enum Act {
    /// Open the source of `clip`, let the clip before it give `handle` frames more, and drop
    /// every cached effect graph.
    Open { clip: usize, handle: u64 },
    /// Ask `clip` for its next frame and composite it. Clips before it are needed no more,
    /// unless a window asks for the outgoing one.
    Pull { clip: usize },
    /// Blend the two composited frames.
    Blend { node: GpuTransition, progress: F32 },
    /// Send the frame to the encoder.
    Push,
    /// End the export with success.
    Finish,
    /// End the export with a failure.
    Fail(DrainFailure),
}

/// The export of one track: each clip runs for its whole length, and a window between two clips
/// blends the outgoing one's handle with the incoming one's head.
#[derive(Debug)]
pub struct Drain {
    /// Entry `i` is the transition into clip `i`.
    pub boundaries: Vec<Boundary>,
    /// Where the export stands.
    pub stage: Stage,
    /// How many frames the encoder has taken.
    pub video_idx: u32,
}

/// The window into clip `i`; nothing past the last one.
pub open spec fn window_into(boundaries: Seq<Boundary>, i: int) -> u64 {
    if i < boundaries.len() {
        match boundaries[i].window {
            Some(w) => w,
            None => 0,
        }
    } else {
        0
    }
}

/// What begins a clip that runs alone: its next frame, or a failure where the transition after
/// it cannot be rendered.
pub open spec fn begin_clip(boundaries: Seq<Boundary>, clip: usize) -> (Stage, Act) {
    if clip + 1 < boundaries.len() && boundaries[clip + 1].window is None {
        (Stage::Over, Act::Fail(DrainFailure::NoNode { clip: (clip + 1) as usize }))
    } else {
        (Stage::Solo { clip }, Act::Pull { clip })
    }
}

/// What begins output `j` of the window out of `clip`: the outgoing frame, a failure without a
/// node, or past the window's end the next clip.
pub open spec fn begin_blend(boundaries: Seq<Boundary>, clip: usize, j: u64) -> (Stage, Act) {
    if j >= window_into(boundaries, clip + 1) {
        begin_clip(boundaries, (clip + 1) as usize)
    } else if boundaries[clip + 1].node is None {
        (Stage::Over, Act::Fail(DrainFailure::LostNode))
    } else {
        (Stage::Outgoing { clip, j }, Act::Pull { clip })
    }
}

/// How far a window has come at output `j`: from nothing up to, and without, all of it.
pub open spec fn progress_at(j: u64, window: u64) -> F32 {
    single::quotient(single::whole(j as nat), single::whole(window as nat))
}

/// Whether something can happen at a stage.
pub open spec fn can_happen(stage: Stage, h: Happened) -> bool {
    match stage {
        Stage::Fresh => h == Happened::Opened,
        Stage::Solo { .. } => h == Happened::Composited || h == Happened::Spent || h
            == Happened::FellBack,
        Stage::SoloPush { .. } => h == Happened::Pushed || h == Happened::Stopped,
        Stage::Opening { .. } => h == Happened::Opened,
        Stage::Outgoing { .. } => h == Happened::Composited || h == Happened::Spent || h
            == Happened::FellBack,
        Stage::Incoming { .. } => h == Happened::Composited || h == Happened::Spent || h
            == Happened::FellBack,
        Stage::Blending { .. } => h == Happened::Blended || h == Happened::BlendFailed,
        Stage::BlendPush { .. } => h == Happened::Pushed || h == Happened::Stopped,
        Stage::Over => false,
    }
}

/// The clip that a stage is about.
pub open spec fn clip_at(stage: Stage) -> int {
    match stage {
        Stage::Fresh => 0,
        Stage::Solo { clip } => clip as int,
        Stage::SoloPush { clip } => clip as int,
        Stage::Opening { clip } => clip + 1,
        Stage::Outgoing { clip, .. } => clip + 1,
        Stage::Incoming { clip, .. } => clip + 1,
        Stage::Blending { clip, .. } => clip + 1,
        Stage::BlendPush { clip, .. } => clip + 1,
        Stage::Over => -1,
    }
}

/// Whether a stage fits a track: its clips exist, and within a window its output and its node
/// do.
pub open spec fn fits(boundaries: Seq<Boundary>, stage: Stage) -> bool {
    &&& clip_at(stage) < boundaries.len()
    &&& match stage {
        Stage::Outgoing { clip, j } => j < window_into(boundaries, clip + 1)
            && boundaries[clip + 1].node is Some,
        Stage::Incoming { clip, j } => j < window_into(boundaries, clip + 1)
            && boundaries[clip + 1].node is Some,
        Stage::Blending { clip, j } => j < window_into(boundaries, clip + 1)
            && boundaries[clip + 1].node is Some,
        Stage::BlendPush { clip, j } => j < window_into(boundaries, clip + 1)
            && boundaries[clip + 1].node is Some,
        _ => true,
    }
}

/// What the export does next, and where it then stands.
pub open spec fn stepped(boundaries: Seq<Boundary>, stage: Stage, h: Happened) -> (Stage, Act) {
    match stage {
        Stage::Fresh => begin_clip(boundaries, 0),
        Stage::Solo { clip } => match h {
            Happened::Composited => (Stage::SoloPush { clip }, Act::Push),
            Happened::Spent => {
                if clip + 1 >= boundaries.len() {
                    (Stage::Over, Act::Finish)
                } else {
                    (
                        Stage::Opening { clip },
                        Act::Open {
                            clip: (clip + 1) as usize,
                            handle: window_into(boundaries, clip + 1),
                        },
                    )
                }
            },
            _ => (Stage::Over, Act::Fail(DrainFailure::FrameFellBack)),
        },
        Stage::SoloPush { clip } => match h {
            Happened::Pushed => (Stage::Solo { clip }, Act::Pull { clip }),
            _ => (Stage::Over, Act::Fail(DrainFailure::Cancelled)),
        },
        Stage::Opening { clip } => begin_blend(boundaries, clip, 0),
        Stage::Outgoing { clip, j } => match h {
            Happened::Composited => (
                Stage::Incoming { clip, j },
                Act::Pull { clip: (clip + 1) as usize },
            ),
            Happened::Spent => begin_clip(boundaries, (clip + 1) as usize),
            _ => (Stage::Over, Act::Fail(DrainFailure::OutgoingFellBack)),
        },
        Stage::Incoming { clip, j } => match h {
            Happened::Composited => match boundaries[clip + 1].node {
                Some(node) => (
                    Stage::Blending { clip, j },
                    Act::Blend {
                        node,
                        progress: progress_at(j, window_into(boundaries, clip + 1)),
                    },
                ),
                None => (Stage::Over, Act::Fail(DrainFailure::LostNode)),
            },
            Happened::Spent => begin_clip(boundaries, (clip + 1) as usize),
            _ => (Stage::Over, Act::Fail(DrainFailure::IncomingFellBack)),
        },
        Stage::Blending { clip, j } => match h {
            Happened::Blended => (Stage::BlendPush { clip, j }, Act::Push),
            _ => (
                Stage::Over,
                Act::Fail(
                    DrainFailure::BlendFailed {
                        progress: progress_at(j, window_into(boundaries, clip + 1)),
                    },
                ),
            ),
        },
        Stage::BlendPush { clip, j } => match h {
            Happened::Pushed => begin_blend(boundaries, clip, (j + 1) as u64),
            _ => (Stage::Over, Act::Fail(DrainFailure::Cancelled)),
        },
        Stage::Over => (Stage::Over, Act::Finish),
    }
}

/// How many frames the encoder has taken once something has happened.
pub open spec fn counted(idx: u32, h: Happened) -> u32 {
    if (h == Happened::Pushed || h == Happened::Stopped) && idx < u32::MAX {
        (idx + 1) as u32
    } else {
        idx
    }
}

/// The boundaries of a track: each transition's window and node.
pub open spec fn boundary_of(clip: Clip, effective: Duration, frame_rate: F64) -> Boundary {
    match clip.transition {
        None => Boundary { window: Some(0), node: None },
        Some(kind) => Boundary {
            window: if exported(kind) {
                Some(frames_in(effective, frame_rate))
            } else {
                None
            },
            node: gpu_transition::node_of(kind),
        },
    }
}

impl Drain {
    /// The export of a track that has not begun. `effective[i]` is how long the transition into
    /// clip `i` really lasts.
    pub fn new(clips: &Vec<Clip>, effective: &Vec<Duration>, frame_rate: F64) -> (r: Drain)
        requires
            effective@.len() == clips@.len(),
        ensures
            r.stage == Stage::Fresh,
            r.video_idx == 0,
            r.boundaries@.len() == clips@.len(),
            forall|i: int|
                #![trigger r.boundaries@[i]]
                0 <= i < clips@.len() ==> r.boundaries@[i] == boundary_of(
                    clips@[i],
                    effective@[i],
                    frame_rate,
                ),
    {
        let mut boundaries: Vec<Boundary> = Vec::new();
        let mut i: usize = 0;
        while i < clips.len()
            invariant
                i <= clips@.len(),
                effective@.len() == clips@.len(),
                boundaries@.len() == i,
                forall|j: int|
                    #![trigger boundaries@[j]]
                    0 <= j < i ==> boundaries@[j] == boundary_of(
                        clips@[j],
                        effective@[j],
                        frame_rate,
                    ),
            decreases clips@.len() - i,
        {
            let window = match transition_window(&clips[i], effective[i], frame_rate) {
                Ok(w) => Some(w),
                Err(_) => None,
            };
            let node = match clips[i].transition {
                Some(kind) => map_transition(kind),
                None => None,
            };
            boundaries.push(Boundary { window, node });
            i = i + 1;
        }
        Drain { boundaries, stage: Stage::Fresh, video_idx: 0 }
    }

    /// The first thing to do: open the first clip, or finish where the track has none.
    pub fn start(&self) -> (r: Act)
        ensures
            r == (if self.boundaries@.len() == 0 {
                Act::Finish
            } else {
                Act::Open { clip: 0, handle: 0 }
            }),
    {
        if self.boundaries.len() == 0 {
            Act::Finish
        } else {
            Act::Open { clip: 0, handle: 0 }
        }
    }

    fn window(&self, clip: usize) -> (r: u64)
        ensures
            r == window_into(self.boundaries@, clip as int),
    {
        if clip < self.boundaries.len() {
            match self.boundaries[clip].window {
                Some(w) => w,
                None => 0,
            }
        } else {
            0
        }
    }

    fn enter_clip(&self, clip: usize) -> (r: (Stage, Act))
        requires
            clip < self.boundaries@.len(),
        ensures
            r == begin_clip(self.boundaries@, clip),
    {
        if clip < self.boundaries.len() - 1 && self.boundaries[clip + 1].window.is_none() {
            (Stage::Over, Act::Fail(DrainFailure::NoNode { clip: clip + 1 }))
        } else {
            (Stage::Solo { clip }, Act::Pull { clip })
        }
    }

    fn enter_blend(&self, clip: usize, j: u64) -> (r: (Stage, Act))
        requires
            clip + 1 < self.boundaries@.len(),
        ensures
            r == begin_blend(self.boundaries@, clip, j),
    {
        let n: usize = self.boundaries.len();
        assert(clip + 1 < n);
        if j >= self.window(clip + 1) {
            self.enter_clip(clip + 1)
        } else if self.boundaries[clip + 1].node.is_none() {
            (Stage::Over, Act::Fail(DrainFailure::LostNode))
        } else {
            (Stage::Outgoing { clip, j }, Act::Pull { clip })
        }
    }

    fn progress(&self, clip: usize, j: u64) -> (r: F32)
        requires
            clip + 1 < self.boundaries@.len(),
        ensures
            r == progress_at(j, window_into(self.boundaries@, clip + 1)),
    {
        let n: usize = self.boundaries.len();
        assert(clip + 1 < n);
        F32::from_whole(j as u128).over(F32::from_whole(self.window(clip + 1) as u128))
    }

    fn decide(&self, h: Happened) -> (r: (Stage, Act))
        requires
            can_happen(self.stage, h),
            fits(self.boundaries@, self.stage),
        ensures
            r == stepped(self.boundaries@, self.stage, h),
    {
        let n: usize = self.boundaries.len();
        assert(clip_at(self.stage) < n);
        match self.stage {
            Stage::Fresh => self.enter_clip(0),
            Stage::Solo { clip } => match h {
                Happened::Composited => (Stage::SoloPush { clip }, Act::Push),
                Happened::Spent => {
                    if clip >= self.boundaries.len() - 1 {
                        (Stage::Over, Act::Finish)
                    } else {
                        let handle: u64 = self.window(clip + 1);
                        (Stage::Opening { clip }, Act::Open { clip: clip + 1, handle })
                    }
                },
                _ => (Stage::Over, Act::Fail(DrainFailure::FrameFellBack)),
            },
            Stage::SoloPush { clip } => match h {
                Happened::Pushed => (Stage::Solo { clip }, Act::Pull { clip }),
                _ => (Stage::Over, Act::Fail(DrainFailure::Cancelled)),
            },
            Stage::Opening { clip } => self.enter_blend(clip, 0),
            Stage::Outgoing { clip, j } => match h {
                Happened::Composited => (
                    Stage::Incoming { clip, j },
                    Act::Pull { clip: clip + 1 },
                ),
                Happened::Spent => self.enter_clip(clip + 1),
                _ => (Stage::Over, Act::Fail(DrainFailure::OutgoingFellBack)),
            },
            Stage::Incoming { clip, j } => match h {
                Happened::Composited => match self.boundaries[clip + 1].node {
                    Some(node) => {
                        let progress = self.progress(clip, j);
                        (Stage::Blending { clip, j }, Act::Blend { node, progress })
                    },
                    None => (Stage::Over, Act::Fail(DrainFailure::LostNode)),
                },
                Happened::Spent => self.enter_clip(clip + 1),
                _ => (Stage::Over, Act::Fail(DrainFailure::IncomingFellBack)),
            },
            Stage::Blending { clip, j } => match h {
                Happened::Blended => (Stage::BlendPush { clip, j }, Act::Push),
                _ => {
                    let progress = self.progress(clip, j);
                    (Stage::Over, Act::Fail(DrainFailure::BlendFailed { progress }))
                },
            },
            Stage::BlendPush { clip, j } => match h {
                Happened::Pushed => self.enter_blend(clip, j + 1),
                _ => (Stage::Over, Act::Fail(DrainFailure::Cancelled)),
            },
            Stage::Over => (Stage::Over, Act::Finish),
        }
    }

    /// What to do next, given what has happened since the last action.
    pub fn step(&mut self, h: Happened) -> (r: Act)
        requires
            can_happen(old(self).stage, h),
            fits(old(self).boundaries@, old(self).stage),
        ensures
            final(self).boundaries@ == old(self).boundaries@,
            (final(self).stage, r) == stepped(old(self).boundaries@, old(self).stage, h),
            final(self).video_idx == counted(old(self).video_idx, h),
            fits(final(self).boundaries@, final(self).stage),
    {
        let (stage, act) = self.decide(h);
        match h {
            Happened::Pushed => {
                self.video_idx = self.video_idx.saturating_add(1);
            },
            Happened::Stopped => {
                self.video_idx = self.video_idx.saturating_add(1);
            },
            _ => {},
        }
        self.stage = stage;
        act
    }
}

/// Why the export of a track ended early, in words; what the blend's own failure adds is left
/// to the caller.
pub open spec fn failure_words(f: DrainFailure) -> Option<Seq<char>> {
    match f {
        DrainFailure::LostNode => Some("gpu export: transitioned clip lost its GPU node"@),
        DrainFailure::FrameFellBack => Some(
            "gpu export: a frame fell back mid-export (precluded by eligibility)"@,
        ),
        DrainFailure::OutgoingFellBack => Some(
            "gpu export: the outgoing clip fell back mid-export (precluded by eligibility)"@,
        ),
        DrainFailure::IncomingFellBack => Some(
            "gpu export: the incoming clip fell back mid-export (precluded by eligibility)"@,
        ),
        _ => None,
    }
}

/// The reason of a failure that is told by its kind alone.
pub fn failure_reason(f: DrainFailure) -> (r: Option<String>)
    ensures
        match failure_words(f) {
            Some(w) => r matches Some(text) && text@ == w,
            None => r is None,
        },
{
    match f {
        DrainFailure::LostNode => Some(
            "gpu export: transitioned clip lost its GPU node".to_owned(),
        ),
        DrainFailure::FrameFellBack => Some(
            "gpu export: a frame fell back mid-export (precluded by eligibility)".to_owned(),
        ),
        DrainFailure::OutgoingFellBack => Some(
            "gpu export: the outgoing clip fell back mid-export (precluded by eligibility)".to_owned(),
        ),
        DrainFailure::IncomingFellBack => Some(
            "gpu export: the incoming clip fell back mid-export (precluded by eligibility)".to_owned(),
        ),
        _ => None,
    }
}

/// The first `n` budgets together.
pub open spec fn frames_before(budgets: Seq<nat>, n: int) -> nat
    decreases n,
{
    if n <= 0 {
        0
    } else {
        frames_before(budgets, n - 1) + budgets[n - 1]
    }
}

/// A run in which every source gives just what it should: `pulled[i]` is how many frames clip
/// `i` has given, `idx` how many the encoder has taken. Clip `i` gives its budget, and the
/// window after it in addition.
pub open spec fn on_track(
    boundaries: Seq<Boundary>,
    stage: Stage,
    budgets: Seq<nat>,
    pulled: Seq<nat>,
    idx: nat,
) -> bool {
    &&& pulled.len() == boundaries.len()
    &&& stage != Stage::Over ==> forall|i: int|
        clip_at(stage) < i < boundaries.len() ==> #[trigger] pulled[i] == 0
    &&& match stage {
        Stage::Fresh => idx == 0 && (boundaries.len() > 0 ==> pulled[0] == 0),
        Stage::Solo { clip } => idx == frames_before(budgets, clip as int) + pulled[clip as int]
            && pulled[clip as int] <= budgets[clip as int],
        Stage::SoloPush { clip } => idx + 1 == frames_before(budgets, clip as int)
            + pulled[clip as int] && pulled[clip as int] <= budgets[clip as int],
        Stage::Opening { clip } => idx == frames_before(budgets, clip + 1) && pulled[clip as int]
            == budgets[clip as int] && pulled[clip + 1] == 0,
        Stage::Outgoing { clip, j } => idx == frames_before(budgets, clip + 1) + j
            && pulled[clip as int] == budgets[clip as int] + j && pulled[clip + 1] == j,
        Stage::Incoming { clip, j } => idx == frames_before(budgets, clip + 1) + j
            && pulled[clip as int] == budgets[clip as int] + j + 1 && pulled[clip + 1] == j,
        Stage::Blending { clip, j } => idx == frames_before(budgets, clip + 1) + j
            && pulled[clip as int] == budgets[clip as int] + j + 1 && pulled[clip + 1] == j + 1,
        Stage::BlendPush { clip, j } => idx == frames_before(budgets, clip + 1) + j
            && pulled[clip as int] == budgets[clip as int] + j + 1 && pulled[clip + 1] == j + 1,
        Stage::Over => true,
    }
}

/// What an untroubled run answers: a source gives a frame while it has one, and everything else
/// succeeds.
pub open spec fn untroubled(
    boundaries: Seq<Boundary>,
    stage: Stage,
    budgets: Seq<nat>,
    pulled: Seq<nat>,
) -> Happened {
    match stage {
        Stage::Solo { clip } => {
            if pulled[clip as int] < budgets[clip as int] {
                Happened::Composited
            } else {
                Happened::Spent
            }
        },
        Stage::Outgoing { clip, .. } => {
            if pulled[clip as int] < budgets[clip as int] + window_into(boundaries, clip + 1) {
                Happened::Composited
            } else {
                Happened::Spent
            }
        },
        Stage::Incoming { clip, .. } => {
            if pulled[clip + 1] < budgets[clip + 1] {
                Happened::Composited
            } else {
                Happened::Spent
            }
        },
        Stage::SoloPush { .. } => Happened::Pushed,
        Stage::BlendPush { .. } => Happened::Pushed,
        Stage::Blending { .. } => Happened::Blended,
        _ => Happened::Opened,
    }
}

/// What the sources have given once something has happened.
pub open spec fn given(stage: Stage, pulled: Seq<nat>, h: Happened) -> Seq<nat> {
    match stage {
        Stage::Solo { clip } if h == Happened::Composited => pulled.update(
            clip as int,
            pulled[clip as int] + 1,
        ),
        Stage::Outgoing { clip, .. } if h == Happened::Composited => pulled.update(
            clip as int,
            pulled[clip as int] + 1,
        ),
        Stage::Incoming { clip, .. } if h == Happened::Composited => pulled.update(
            clip + 1,
            pulled[clip + 1] + 1,
        ),
        _ => pulled,
    }
}

/// How much of one output a stage still has before it.
pub open spec fn effort(stage: Stage) -> int {
    match stage {
        Stage::Fresh => 7,
        Stage::Opening { .. } => 6,
        Stage::Outgoing { .. } => 5,
        Stage::Incoming { .. } => 4,
        Stage::Blending { .. } => 3,
        Stage::BlendPush { .. } => 2,
        Stage::Solo { .. } => 1,
        Stage::SoloPush { .. } => 0,
        Stage::Over => 0,
    }
}

/// A transition costs the track nothing: an untroubled run, whatever its windows, sends the
/// encoder as many frames as the clips' lengths together, and finishes.
///
/// Each step of the run keeps the count and leaves less to be done; the run ends only by
/// finishing, and then with every frame sent.
pub proof fn every_frame_is_sent(
    boundaries: Seq<Boundary>,
    stage: Stage,
    budgets: Seq<nat>,
    pulled: Seq<nat>,
    idx: u32,
)
    requires
        budgets.len() == boundaries.len() <= usize::MAX,
        forall|i: int|
            1 <= i < boundaries.len() ==> (#[trigger] boundaries[i]).window is Some && (
            boundaries[i].window->0 > 0 ==> boundaries[i].node is Some),
        forall|i: int|
            1 <= i < boundaries.len() ==> window_into(boundaries, i) <= #[trigger] budgets[i],
        frames_before(budgets, budgets.len() as int) < u32::MAX,
        stage != Stage::Over,
        fits(boundaries, stage),
        on_track(boundaries, stage, budgets, pulled, idx as nat),
    ensures
        ({
            let h = untroubled(boundaries, stage, budgets, pulled);
            let (next, act) = stepped(boundaries, stage, h);
            let sent = counted(idx, h);
            &&& can_happen(stage, h)
            &&& fits(boundaries, next)
            &&& on_track(boundaries, next, budgets, given(stage, pulled, h), sent as nat)
            &&& next == Stage::Over ==> act == Act::Finish && sent == frames_before(
                budgets,
                budgets.len() as int,
            )
            &&& next != Stage::Over ==> decreases_to!(
                boundaries.len() - clip_at(stage),
                frames_before(budgets, budgets.len() as int) - idx,
                effort(stage)
                => boundaries.len() - clip_at(next),
                frames_before(budgets, budgets.len() as int) - sent,
                effort(next)
            )
        }),
{
    let n = budgets.len() as int;
    let clip = match stage {
        Stage::Fresh => 0int,
        Stage::Solo { clip } => clip as int,
        Stage::SoloPush { clip } => clip as int,
        Stage::Opening { clip } => clip as int,
        Stage::Outgoing { clip, .. } => clip as int,
        Stage::Incoming { clip, .. } => clip as int,
        Stage::Blending { clip, .. } => clip as int,
        Stage::BlendPush { clip, .. } => clip as int,
        Stage::Over => 0int,
    };
    if clip > 0 {
        assert(window_into(boundaries, clip) <= budgets[clip]);
        assert(boundaries[clip].window is Some);
    }
    frames_grow(budgets, clip, n);
    if clip + 1 < n {
        assert(window_into(boundaries, clip + 1) <= budgets[clip + 1]);
        assert(boundaries[clip + 1].window is Some);
        frames_grow(budgets, clip + 1, n);
        assert(frames_before(budgets, clip + 1) == frames_before(budgets, clip) + budgets[clip]);
        frames_grow(budgets, clip + 2, n);
        assert(frames_before(budgets, clip + 2) == frames_before(budgets, clip + 1) + budgets[clip
            + 1]);
        if clip + 2 < n {
            assert(boundaries[clip + 2].window is Some);
        }
    }
    let h = untroubled(boundaries, stage, budgets, pulled);
    let more = given(stage, pulled, h);
    let next = stepped(boundaries, stage, h).0;
    if next != Stage::Over {
        assert forall|i: int| clip_at(next) < i < boundaries.len() implies #[trigger] more[i]
            == 0 by {
            assert(pulled[i] == 0);
        }
    }
}

proof fn frames_grow(budgets: Seq<nat>, a: int, b: int)
    requires
        0 <= a,
    ensures
        a <= b ==> frames_before(budgets, a) <= frames_before(budgets, b),
    decreases b - a,
{
    if a < b {
        frames_grow(budgets, a, b - 1);
    }
}

} // verus!

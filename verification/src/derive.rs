//! From a clip to what renders it.
//!
//! One interpretation of a clip's editorial fields feeds both the export and the preview: the
//! merge of keyframes, constants and track automation, the framing to the canvas and the
//! effect chain. The export adds the temporal steps around it.

use vstd::prelude::*;

use crate::clip;
use crate::clip::{Clip, ClipSource, FitMode};
use crate::effect;
use crate::filter;
use crate::filter::{
    AnimatedValue, AnimationTrack, BlendMode, Color, CompositeOp, FilterStep, Keyframe, PitchAlgo,
    ScaleAlgorithm, TextSpec,
};
use crate::float::double;
use crate::float::double::F64;
use crate::float::single;
use crate::float::single::F32;
use crate::float::values;
use crate::time;
use crate::time::Duration;
use crate::track::TrackAutomation;

verus! {

/// What a layer reads its frames from.
#[derive(Debug, PartialEq)]
pub enum LayerSource {
    /// A media file.
    File(String),
    /// A generated title.
    Text(TextSpec),
    /// A generated colour.
    Solid(Color),
    /// A filter graph that makes its own frames.
    Lavfi(String),
}

impl Clone for LayerSource {
    fn clone(&self) -> (r: Self)
        ensures
            r == *self,
    {
        match self {
            LayerSource::File(path) => LayerSource::File(path.clone()),
            LayerSource::Text(spec) => LayerSource::Text(spec.clone()),
            LayerSource::Solid(color) => LayerSource::Solid(*color),
            LayerSource::Lavfi(graph) => LayerSource::Lavfi(graph.clone()),
        }
    }
}

/// A stand-in file and the size that its frames are scaled back up to.
#[derive(Debug, PartialEq)]
pub struct ProxySource {
    pub path: String,
    pub width: u32,
    pub height: u32,
}

impl Clone for ProxySource {
    fn clone(&self) -> (r: Self)
        ensures
            r == *self,
    {
        ProxySource { path: self.path.clone(), width: self.width, height: self.height }
    }
}

/// One layer of the export. `V` stands for an animated value.
#[derive(Debug, PartialEq)]
pub struct VideoLayer<V> {
    pub source: LayerSource,
    pub proxy: Option<ProxySource>,
    pub x: V,
    pub y: V,
    pub scale_x: V,
    pub scale_y: V,
    pub rotation: V,
    pub opacity: V,
    pub blend_mode: BlendMode,
    pub composite_op: CompositeOp,
    pub effects: Vec<FilterStep<V>>,
}

/// One layer of the preview. `V` stands for an animated value.
#[derive(Debug, PartialEq)]
pub struct RealtimeLayerDescriptor<V> {
    pub effects: Vec<FilterStep<V>>,
    pub opacity: V,
    pub x: V,
    pub y: V,
    pub scale_x: V,
    pub scale_y: V,
    pub rotation: V,
    pub blend_mode: BlendMode,
    pub composite_op: CompositeOp,
}

/// Speaker layouts of the mix.
#[derive(Clone, Copy, Debug, PartialEq, Eq, Structural)]
pub enum ChannelLayout {
    Stereo,
}

/// One track of the mix.
#[derive(Debug, PartialEq)]
pub struct AudioTrack {
    pub source: String,
    pub volume: AnimatedValue,
    pub pan: AnimatedValue,
    pub effects: Vec<FilterStep<AnimatedValue>>,
    pub sample_rate: u32,
    pub channel_layout: ChannelLayout,
}

/// The placement and mixing of a clip, merged.
#[derive(Debug, PartialEq)]
pub struct VideoTransform {
    pub opacity: AnimatedValue,
    pub x: AnimatedValue,
    pub y: AnimatedValue,
    pub scale_x: AnimatedValue,
    pub scale_y: AnimatedValue,
    pub rotation: AnimatedValue,
    pub blend_mode: BlendMode,
    pub composite_op: CompositeOp,
}

/// The constant with the given pattern.
pub open spec fn constant(bits: u64) -> AnimatedValue {
    AnimatedValue::Static(F64 { bits })
}

/// A track's automation slot, or the constant `neutral` where it is empty.
pub open spec fn automated(slot: Option<AnimationTrack>, neutral: u64) -> AnimatedValue {
    match slot {
        Some(t) => AnimatedValue::Track(t),
        None => constant(neutral),
    }
}

/// The merge of a property: the clip's keyframes win, then a constant that is not neutral,
/// then the track's automation.
pub open spec fn merged(
    keyframes: Option<AnimationTrack>,
    value: F64,
    neutral: u64,
    slot: Option<AnimationTrack>,
) -> AnimatedValue {
    match keyframes {
        Some(t) => AnimatedValue::Track(t),
        None => {
            if !double::equal(value, F64 { bits: neutral }) {
                AnimatedValue::Static(value)
            } else {
                automated(slot, neutral)
            }
        },
    }
}

/// The merged opacity, which the clip holds in single precision.
pub open spec fn merged_opacity(clip: Clip, automation: TrackAutomation) -> AnimatedValue {
    match clip.opacity_track {
        Some(t) => AnimatedValue::Track(t),
        None => {
            if !single::equal(clip.opacity, F32 { bits: values::S_ONE }) {
                AnimatedValue::Static(double::widened(clip.opacity))
            } else {
                automated(automation.opacity, values::ONE)
            }
        },
    }
}

/// The merged placement and mixing of a clip.
pub open spec fn transform(clip: Clip, a: TrackAutomation) -> VideoTransform {
    VideoTransform {
        opacity: merged_opacity(clip, a),
        x: merged(clip.x_track, clip.x, values::ZERO, a.x),
        y: merged(clip.y_track, clip.y, values::ZERO, a.y),
        scale_x: merged(clip.scale_track, clip.scale, values::ONE, a.scale_x),
        scale_y: merged(clip.scale_track, clip.scale, values::ONE, a.scale_y),
        rotation: merged(clip.rotation_track, clip.rotation, values::ZERO, a.rotation),
        blend_mode: clip.blend_mode,
        composite_op: clip.composite_op,
    }
}

fn track_anim(slot: &Option<AnimationTrack>, neutral: u64) -> (r: AnimatedValue)
    ensures
        r == automated(*slot, neutral),
{
    match slot {
        Some(t) => AnimatedValue::Track(t.clone()),
        None => AnimatedValue::Static(F64 { bits: neutral }),
    }
}

fn merge(
    keyframes: &Option<AnimationTrack>,
    value: F64,
    neutral: u64,
    slot: &Option<AnimationTrack>,
) -> (r: AnimatedValue)
    ensures
        r == merged(*keyframes, value, neutral, *slot),
{
    match keyframes {
        Some(t) => AnimatedValue::Track(t.clone()),
        None => {
            if !value.same(F64 { bits: neutral }) {
                AnimatedValue::Static(value)
            } else {
                track_anim(slot, neutral)
            }
        },
    }
}

/// Merges a clip's placement and mixing: per-clip keyframes win, then a constant that is not
/// neutral, then the track's automation.
pub fn video_transform(clip: &Clip, automation: &TrackAutomation) -> (r: VideoTransform)
    ensures
        r == transform(*clip, *automation),
{
    let opacity = match &clip.opacity_track {
        Some(t) => AnimatedValue::Track(t.clone()),
        None => {
            if !clip.opacity.same(F32 { bits: values::S_ONE }) {
                AnimatedValue::Static(F64::from_single(clip.opacity))
            } else {
                track_anim(&automation.opacity, values::ONE)
            }
        },
    };
    VideoTransform {
        opacity,
        x: merge(&clip.x_track, clip.x, values::ZERO, &automation.x),
        y: merge(&clip.y_track, clip.y, values::ZERO, &automation.y),
        scale_x: merge(&clip.scale_track, clip.scale, values::ONE, &automation.scale_x),
        scale_y: merge(&clip.scale_track, clip.scale, values::ONE, &automation.scale_y),
        rotation: merge(
            &clip.rotation_track,
            clip.rotation,
            values::ZERO,
            &automation.rotation,
        ),
        blend_mode: clip.blend_mode,
        composite_op: clip.composite_op,
    }
}

/// Whether `out` is a scale factor in pixels: every value times `dim`, with times and easings
/// as they were.
pub open spec fn in_pixels(factor: AnimatedValue, dim: u32, out: AnimatedValue) -> bool {
    match (factor, out) {
        (AnimatedValue::Static(v), AnimatedValue::Static(w)) => w == double::product(
            v,
            double::whole(dim as nat),
        ),
        (AnimatedValue::Track(t), AnimatedValue::Track(u)) => {
            &&& u.keyframes@.len() == t.keyframes@.len()
            &&& forall|i: int|
                #![trigger u.keyframes@[i]]
                0 <= i < t.keyframes@.len() ==> {
                    &&& u.keyframes@[i].timestamp == t.keyframes@[i].timestamp
                    &&& u.keyframes@[i].value == double::product(
                        t.keyframes@[i].value,
                        double::whole(dim as nat),
                    )
                    &&& u.keyframes@[i].easing == t.keyframes@[i].easing
                }
        },
        _ => false,
    }
}

fn scale_track_pixels(track: &AnimationTrack, dim: u32) -> (r: AnimationTrack)
    ensures
        in_pixels(AnimatedValue::Track(*track), dim, AnimatedValue::Track(r)),
{
    let scale = F64::from_whole(dim as u128);
    let mut out: Vec<Keyframe> = Vec::new();
    let mut i: usize = 0;
    while i < track.keyframes.len()
        invariant
            i <= track.keyframes@.len(),
            out@.len() == i,
            scale == double::whole(dim as nat),
            forall|j: int|
                #![trigger out@[j]]
                0 <= j < i ==> {
                    &&& out@[j].timestamp == track.keyframes@[j].timestamp
                    &&& out@[j].value == double::product(track.keyframes@[j].value, scale)
                    &&& out@[j].easing == track.keyframes@[j].easing
                },
        decreases track.keyframes@.len() - i,
    {
        let k = &track.keyframes[i];
        out.push(
            Keyframe {
                timestamp: k.timestamp,
                value: k.value.times(scale),
                easing: k.easing.clone(),
            },
        );
        i = i + 1;
    }
    AnimationTrack::new(out)
}

fn to_pixels(value: &AnimatedValue, dim: u32) -> (r: AnimatedValue)
    ensures
        in_pixels(*value, dim, r),
{
    match value {
        AnimatedValue::Static(v) => AnimatedValue::Static(v.times(F64::from_whole(dim as u128))),
        AnimatedValue::Track(t) => AnimatedValue::Track(scale_track_pixels(t, dim)),
    }
}

/// Whether either axis of the scale is animated.
pub open spec fn scale_animated(t: VideoTransform) -> bool {
    t.scale_x is Track || t.scale_y is Track
}

/// How many steps the animated geometry takes.
pub open spec fn geometry_len(t: VideoTransform) -> int {
    (if t.rotation is Track {
        1int
    } else {
        0
    }) + (if scale_animated(t) {
        1int
    } else {
        0
    })
}

/// Whether `step` rotates by `angle` on black.
pub open spec fn rotates(step: FilterStep<AnimatedValue>, angle: AnimatedValue) -> bool {
    step matches FilterStep::RotateAnimated { angle: a, fill_color } && a == angle && fill_color@
        == "black"@
}

/// Whether `step` scales by the factors of `t` against the canvas.
pub open spec fn scales(
    step: FilterStep<AnimatedValue>,
    t: VideoTransform,
    width: u32,
    height: u32,
) -> bool {
    step matches FilterStep::ScaleAnimated { width: w, height: h, algorithm } && in_pixels(
        t.scale_x,
        width,
        w,
    ) && in_pixels(t.scale_y, height, h) && algorithm == ScaleAlgorithm::Bicubic
}

/// Whether `steps` is the animated geometry: the rotation and then the scale, each where it is
/// animated.
pub open spec fn is_geometry(
    t: VideoTransform,
    width: u32,
    height: u32,
    steps: Seq<FilterStep<AnimatedValue>>,
) -> bool {
    &&& steps.len() == geometry_len(t)
    &&& t.rotation is Track ==> rotates(steps[0], t.rotation)
    &&& scale_animated(t) ==> scales(steps.last(), t, width, height)
}

/// A scale factor, or one where a step animates the scale.
pub open spec fn still_scale(t: VideoTransform, axis: AnimatedValue) -> AnimatedValue {
    if scale_animated(t) {
        constant(values::ONE)
    } else {
        axis
    }
}

/// The rotation, or zero where a step animates it.
pub open spec fn still_rotation(t: VideoTransform) -> AnimatedValue {
    if t.rotation is Track {
        constant(values::ZERO)
    } else {
        t.rotation
    }
}

/// The steps that animate scale and rotation, and the scalars left for the static transform:
/// neutral where a step animates them, so that nothing is applied twice.
pub fn animated_geometry(t: &VideoTransform, canvas_width: u32, canvas_height: u32) -> (r: (
    Vec<FilterStep<AnimatedValue>>,
    AnimatedValue,
    AnimatedValue,
    AnimatedValue,
))
    ensures
        is_geometry(*t, canvas_width, canvas_height, r.0@),
        r.1 == still_scale(*t, t.scale_x),
        r.2 == still_scale(*t, t.scale_y),
        r.3 == still_rotation(*t),
{
    let mut steps: Vec<FilterStep<AnimatedValue>> = Vec::new();
    let mut scale_x = t.scale_x.clone();
    let mut scale_y = t.scale_y.clone();
    let mut rotation = t.rotation.clone();
    if let AnimatedValue::Track(_) = &t.rotation {
        steps.push(
            FilterStep::RotateAnimated {
                angle: t.rotation.clone(),
                fill_color: "black".to_owned(),
            },
        );
        rotation = AnimatedValue::Static(F64 { bits: values::ZERO });
    }
    let animated = match (&t.scale_x, &t.scale_y) {
        (AnimatedValue::Static(_), AnimatedValue::Static(_)) => false,
        _ => true,
    };
    if animated {
        steps.push(
            FilterStep::ScaleAnimated {
                width: to_pixels(&t.scale_x, canvas_width),
                height: to_pixels(&t.scale_y, canvas_height),
                algorithm: ScaleAlgorithm::Bicubic,
            },
        );
        scale_x = AnimatedValue::Static(F64 { bits: values::ONE });
        scale_y = AnimatedValue::Static(F64 { bits: values::ONE });
    }
    (steps, scale_x, scale_y, rotation)
}

/// Whether `step` frames a clip to the canvas; a canvas with no area frames nothing.
pub open spec fn frames(
    clip: Clip,
    width: u32,
    height: u32,
    step: Option<FilterStep<AnimatedValue>>,
) -> bool {
    if width == 0 || height == 0 {
        step is None
    } else {
        match clip.fit {
            FitMode::Native => step is None,
            FitMode::Stretch => step == Some(
                FilterStep::<AnimatedValue>::Scale {
                    width,
                    height,
                    algorithm: ScaleAlgorithm::Bilinear,
                },
            ),
            FitMode::Fit => step matches Some(
                FilterStep::FitToAspect { width: w, height: h, color },
            )
                && w == width && h == height && color@ == "black"@,
            FitMode::Fill => step == Some(
                FilterStep::<AnimatedValue>::FillToAspect { width, height },
            ),
        }
    }
}

/// How many steps the framing takes.
pub open spec fn framing_len(clip: Clip, width: u32, height: u32) -> int {
    if width == 0 || height == 0 || clip.fit == FitMode::Native {
        0
    } else {
        1
    }
}

/// The step that frames a clip to the canvas, or `None` where nothing does.
pub fn fit_step(clip: &Clip, cw: u32, ch: u32) -> (r: Option<FilterStep<AnimatedValue>>)
    ensures
        frames(*clip, cw, ch, r),
        (r is Some) == (framing_len(*clip, cw, ch) == 1),
{
    if cw == 0 || ch == 0 {
        return None;
    }
    match clip.fit {
        FitMode::Native => None,
        FitMode::Stretch => Some(
            FilterStep::Scale { width: cw, height: ch, algorithm: ScaleAlgorithm::Bilinear },
        ),
        FitMode::Fit => Some(
            FilterStep::FitToAspect { width: cw, height: ch, color: "black".to_owned() },
        ),
        FitMode::Fill => Some(FilterStep::FillToAspect { width: cw, height: ch }),
    }
}

/// Optional seconds.
pub open spec fn seconds_at(d: Option<Duration>) -> Option<F64> {
    match d {
        Some(d) => Some(time::seconds(d)),
        None => None,
    }
}

fn opt_seconds(d: Option<Duration>) -> (r: Option<F64>)
    ensures
        r == seconds_at(d),
{
    match d {
        Some(d) => Some(d.as_secs_f64()),
        None => None,
    }
}

/// Whether a clip plays at another speed than one, by more than a billionth.
pub open spec fn resped(clip: Clip) -> bool {
    double::less(
        F64 { bits: values::BILLIONTH },
        double::difference(clip.speed, F64 { bits: values::ONE }).unsigned(),
    )
}

fn is_resped(clip: &Clip) -> (r: bool)
    ensures
        r == resped(*clip),
{
    F64 { bits: values::BILLIONTH }.below(clip.speed.minus(F64 { bits: values::ONE }).abs())
}

/// The temporal steps that lead an export layer: trim, placement and speed.
pub open spec fn temporal(clip: Clip) -> Seq<FilterStep<AnimatedValue>> {
    let trim = if clip.in_point is Some || clip.out_point is Some {
        seq![
            FilterStep::Trim {
                start: seconds_at(clip.in_point),
                end: seconds_at(clip.out_point),
            },
            FilterStep::ResetPts,
        ]
    } else {
        Seq::empty()
    };
    let place = if clip.offset.nanos > 0 {
        seq![FilterStep::OffsetPts { seconds: time::seconds(clip.offset) }]
    } else {
        Seq::empty()
    };
    trim + place + speed_change(clip)
}

/// The cross-fade that ends an export layer, where the clip has one and a clip before it.
/// `prev_end` is where that one ends, in seconds.
pub open spec fn cross_fade(clip: Clip, prev_end: Option<F64>) -> Seq<FilterStep<AnimatedValue>> {
    match (clip.transition, prev_end) {
        (Some(kind), Some(end)) => seq![
            FilterStep::XFade {
                transition: kind,
                duration: time::seconds(clip.transition_duration),
                offset: double::greater_of(
                    double::difference(end, time::seconds(clip.transition_duration)),
                    F64 { bits: values::ZERO },
                ),
            },
        ],
        _ => Seq::empty(),
    }
}

/// Whether `steps` is what a preview layer runs: the animated geometry, the framing, and the
/// clip's video chain.
pub open spec fn is_preview_chain(
    clip: Clip,
    automation: TrackAutomation,
    width: u32,
    height: u32,
    starts: Seq<F64>,
    steps: Seq<FilterStep<AnimatedValue>>,
) -> bool {
    let t = transform(clip, automation);
    let g = geometry_len(t);
    let f = g + framing_len(clip, width, height);
    &&& f <= steps.len()
    &&& is_geometry(t, width, height, steps.subrange(0, g))
    &&& framing_len(clip, width, height) == 1 ==> frames(clip, width, height, Some(steps[g]))
    &&& clip::is_video_chain(clip, starts, steps.subrange(f, steps.len() as int))
}

/// Whether `steps` is what an export layer runs: the temporal steps, what the preview runs, and
/// the cross-fade.
pub open spec fn is_export_chain(
    clip: Clip,
    automation: TrackAutomation,
    width: u32,
    height: u32,
    prev_end: Option<F64>,
    starts: Seq<F64>,
    steps: Seq<FilterStep<AnimatedValue>>,
) -> bool {
    let lead = temporal(clip);
    let tail = cross_fade(clip, prev_end);
    let end = steps.len() - tail.len();
    &&& lead.len() <= end
    &&& steps.subrange(0, lead.len() as int) == lead
    &&& is_preview_chain(
        clip,
        automation,
        width,
        height,
        starts,
        steps.subrange(lead.len() as int, end),
    )
    &&& steps.subrange(end, steps.len() as int) == tail
}

/// What a layer reads its frames from.
pub open spec fn layer_source(source: ClipSource) -> LayerSource {
    match source {
        ClipSource::File(path) => LayerSource::File(path),
        ClipSource::Text(spec) => LayerSource::Text(spec),
        ClipSource::Solid(color) => LayerSource::Solid(color),
    }
}

fn push_preview(
    chain: &mut Vec<FilterStep<AnimatedValue>>,
    clip: &Clip,
    geometry: &Vec<FilterStep<AnimatedValue>>,
    width: u32,
    height: u32,
    starts: &Vec<F64>,
    Ghost(automation): Ghost<TrackAutomation>,
)
    requires
        starts@.len() == clip.effects@.len(),
        is_geometry(transform(*clip, automation), width, height, geometry@),
    ensures
        final(chain)@.len() >= old(chain)@.len(),
        final(chain)@.subrange(0, old(chain)@.len() as int) == old(chain)@,
        is_preview_chain(
            *clip,
            automation,
            width,
            height,
            starts@,
            final(chain)@.subrange(old(chain)@.len() as int, final(chain)@.len() as int),
        ),
{
    let ghost lead = chain@;
    clip::append_steps(chain, geometry);
    if let Some(step) = fit_step(clip, width, height) {
        chain.push(step);
    }
    let ghost before = chain@;
    let effects = clip.video_effect_chain(starts);
    clip::append_steps(chain, &effects);
    proof {
        let t = transform(*clip, automation);
        let g = geometry_len(t);
        let f = g + framing_len(*clip, width, height);
        let all = chain@;
        let part = all.subrange(lead.len() as int, all.len() as int);
        assert(all.subrange(0, lead.len() as int) =~= lead);
        assert(part.subrange(0, g) =~= geometry@);
        assert(part.subrange(f, part.len() as int) =~= effects@);
    }
}

/// The export layer of a clip.
///
/// `prev_end` is where the preceding clip of the track ends, in seconds, or `None` for the
/// first clip, whose transition is ignored. `starts[i]` is the value at time zero of the track
/// that effect `i` names.
pub fn video_layer(
    clip: &Clip,
    automation: &TrackAutomation,
    canvas_width: u32,
    canvas_height: u32,
    prev_end: Option<F64>,
    proxy: Option<ProxySource>,
    starts: &Vec<F64>,
) -> (r: VideoLayer<AnimatedValue>)
    requires
        starts@.len() == clip.effects@.len(),
    ensures
        is_export_layer(
            *clip,
            *automation,
            canvas_width,
            canvas_height,
            prev_end,
            proxy,
            starts@,
            r,
        ),
{
    let mut chain: Vec<FilterStep<AnimatedValue>> = Vec::new();
    if clip.in_point.is_some() || clip.out_point.is_some() {
        chain.push(
            FilterStep::Trim {
                start: opt_seconds(clip.in_point),
                end: opt_seconds(clip.out_point),
            },
        );
        chain.push(FilterStep::ResetPts);
    }
    if clip.offset.nanos > 0 {
        chain.push(FilterStep::OffsetPts { seconds: clip.offset.as_secs_f64() });
    }
    if is_resped(clip) {
        chain.push(FilterStep::Speed { factor: clip.speed });
    }
    let ghost lead = temporal(*clip);
    assert(chain@ =~= lead);
    let t = video_transform(clip, automation);
    let (geometry, scale_x, scale_y, rotation) = animated_geometry(&t, canvas_width, canvas_height);
    push_preview(
        &mut chain,
        clip,
        &geometry,
        canvas_width,
        canvas_height,
        starts,
        Ghost(*automation),
    );
    let ghost before = chain@;
    if let Some(kind) = clip.transition {
        if let Some(end) = prev_end {
            let length = clip.transition_duration.as_secs_f64();
            chain.push(
                FilterStep::XFade {
                    transition: kind,
                    duration: length,
                    offset: end.minus(length).max(F64 { bits: values::ZERO }),
                },
            );
        }
    }
    proof {
        let tail = cross_fade(*clip, prev_end);
        let all = chain@;
        let end = all.len() - tail.len();
        assert(all =~= before + tail);
        assert(all.subrange(0, lead.len() as int) =~= before.subrange(0, lead.len() as int));
        assert(all.subrange(lead.len() as int, end) =~= before.subrange(
            lead.len() as int,
            before.len() as int,
        ));
        assert(all.subrange(end, all.len() as int) =~= tail);
    }
    let source = match &clip.source {
        ClipSource::File(path) => LayerSource::File(path.clone()),
        ClipSource::Text(spec) => LayerSource::Text(spec.clone()),
        ClipSource::Solid(color) => LayerSource::Solid(*color),
    };
    VideoLayer {
        source,
        proxy,
        x: t.x,
        y: t.y,
        scale_x,
        scale_y,
        rotation,
        opacity: t.opacity,
        blend_mode: t.blend_mode,
        composite_op: t.composite_op,
        effects: chain,
    }
}

/// The preview layer of a clip: the same as the export layer but for the temporal steps and
/// the cross-fade, which the preview runs by itself.
pub fn realtime_descriptor(
    clip: &Clip,
    automation: &TrackAutomation,
    canvas_width: u32,
    canvas_height: u32,
    starts: &Vec<F64>,
) -> (r: RealtimeLayerDescriptor<AnimatedValue>)
    requires
        starts@.len() == clip.effects@.len(),
    ensures
        is_preview_layer(*clip, *automation, canvas_width, canvas_height, starts@, r),
{
    let t = video_transform(clip, automation);
    let (geometry, scale_x, scale_y, rotation) = animated_geometry(&t, canvas_width, canvas_height);
    let mut effects: Vec<FilterStep<AnimatedValue>> = Vec::new();
    push_preview(
        &mut effects,
        clip,
        &geometry,
        canvas_width,
        canvas_height,
        starts,
        Ghost(*automation),
    );
    assert(effects@.subrange(0, effects@.len() as int) =~= effects@);
    RealtimeLayerDescriptor {
        effects,
        opacity: t.opacity,
        x: t.x,
        y: t.y,
        scale_x,
        scale_y,
        rotation,
        blend_mode: t.blend_mode,
        composite_op: t.composite_op,
    }
}

/// Whether `r` is the export layer of a clip.
pub open spec fn is_export_layer(
    clip: Clip,
    automation: TrackAutomation,
    width: u32,
    height: u32,
    prev_end: Option<F64>,
    proxy: Option<ProxySource>,
    starts: Seq<F64>,
    r: VideoLayer<AnimatedValue>,
) -> bool {
    let t = transform(clip, automation);
    &&& r.source == layer_source(clip.source)
    &&& r.proxy == proxy
    &&& r.x == t.x && r.y == t.y && r.opacity == t.opacity
    &&& r.scale_x == still_scale(t, t.scale_x) && r.scale_y == still_scale(t, t.scale_y)
    &&& r.rotation == still_rotation(t)
    &&& r.blend_mode == clip.blend_mode && r.composite_op == clip.composite_op
    &&& is_export_chain(clip, automation, width, height, prev_end, starts, r.effects@)
}

/// Whether `r` is the preview layer of a clip.
pub open spec fn is_preview_layer(
    clip: Clip,
    automation: TrackAutomation,
    width: u32,
    height: u32,
    starts: Seq<F64>,
    r: RealtimeLayerDescriptor<AnimatedValue>,
) -> bool {
    let t = transform(clip, automation);
    &&& r.x == t.x && r.y == t.y && r.opacity == t.opacity
    &&& r.scale_x == still_scale(t, t.scale_x) && r.scale_y == still_scale(t, t.scale_y)
    &&& r.rotation == still_rotation(t)
    &&& r.blend_mode == clip.blend_mode && r.composite_op == clip.composite_op
    &&& is_preview_chain(clip, automation, width, height, starts, r.effects@)
}

/// The merged volume in decibels.
pub open spec fn volume_of(clip: Clip, automation: TrackAutomation) -> AnimatedValue {
    merged(clip.volume_track, clip.volume_db, values::ZERO, automation.volume)
}

/// The merged pan.
pub open spec fn pan_of(clip: Clip, automation: TrackAutomation) -> AnimatedValue {
    merged(None, clip.pan, values::ZERO, automation.pan)
}

/// The pitch: that of the keyframes at time zero, or the constant.
pub open spec fn pitch_of(clip: Clip, start: F64) -> F64 {
    match clip.pitch_track {
        Some(_) => start,
        None => clip.pitch,
    }
}

/// Merges the volume.
pub fn audio_volume(clip: &Clip, automation: &TrackAutomation) -> (r: AnimatedValue)
    ensures
        r == volume_of(*clip, *automation),
{
    merge(&clip.volume_track, clip.volume_db, values::ZERO, &automation.volume)
}

/// Merges the pan.
pub fn audio_pan(clip: &Clip, automation: &TrackAutomation) -> (r: AnimatedValue)
    ensures
        r == pan_of(*clip, *automation),
{
    merge(&None, clip.pan, values::ZERO, &automation.pan)
}

/// The pitch of a clip; `start` is the value at time zero of its pitch keyframes.
pub fn audio_pitch(clip: &Clip, start: F64) -> (r: F64)
    ensures
        r == pitch_of(*clip, start),
{
    match &clip.pitch_track {
        Some(_) => start,
        None => clip.pitch,
    }
}

/// The trim that leads an audio track.
pub open spec fn audio_trim(clip: Clip) -> Seq<FilterStep<AnimatedValue>> {
    if clip.in_point is Some || clip.out_point is Some {
        seq![
            FilterStep::ATrim {
                start: seconds_at(clip.in_point),
                end: seconds_at(clip.out_point),
            },
            FilterStep::AResetPts,
        ]
    } else {
        Seq::empty()
    }
}

/// The delay, in whole milliseconds, that places an audio track.
pub open spec fn audio_place(clip: Clip) -> Seq<FilterStep<AnimatedValue>> {
    if clip.offset.nanos > 0 {
        seq![
            FilterStep::AudioDelay {
                ms: double::whole((clip.offset.nanos / time::NANOS_PER_MILLI) as nat),
            },
        ]
    } else {
        Seq::empty()
    }
}

/// The change of speed, where there is one.
pub open spec fn speed_change(clip: Clip) -> Seq<FilterStep<AnimatedValue>> {
    if resped(clip) {
        seq![FilterStep::Speed { factor: clip.speed }]
    } else {
        Seq::empty()
    }
}

/// The shift of pitch, where it is more than a billionth of a semitone.
pub open spec fn pitch_change(pitch: F64) -> Seq<FilterStep<AnimatedValue>> {
    if double::less(F64 { bits: values::BILLIONTH }, pitch.unsigned()) {
        seq![
            FilterStep::PitchShift { semitones: double::narrowed(pitch), algo: PitchAlgo::Signal },
        ]
    } else {
        Seq::empty()
    }
}

/// The fade-in, where there is one.
pub open spec fn audio_rise(clip: Clip) -> Seq<FilterStep<AnimatedValue>> {
    if clip.fade_in.nanos > 0 {
        seq![
            FilterStep::AFadeIn {
                start: F64 { bits: values::ZERO },
                duration: time::seconds(clip.fade_in),
            },
        ]
    } else {
        Seq::empty()
    }
}

/// The fade-out, where there is one that fits into `length`.
pub open spec fn audio_fall(clip: Clip, length: Option<Duration>) -> Seq<
    FilterStep<AnimatedValue>,
> {
    match length {
        Some(d) if clip.fade_out.nanos > 0 && d.nanos > clip.fade_out.nanos => seq![
            FilterStep::AFadeOut {
                start: time::seconds(time::earlier(d, clip.fade_out)),
                duration: time::seconds(clip.fade_out),
            },
        ],
        _ => Seq::empty(),
    }
}

/// The steps that lead an audio track: trim, placement, speed, pitch and fades. `length` is how
/// long the clip sounds, where that is known; a fade-out that does not fit is left out.
pub open spec fn audio_lead(clip: Clip, pitch: F64, length: Option<Duration>) -> Seq<
    FilterStep<AnimatedValue>,
> {
    audio_trim(clip) + audio_place(clip) + speed_change(clip) + pitch_change(pitch) + audio_rise(
        clip,
    ) + audio_fall(clip, length)
}

fn audio_lead_steps(clip: &Clip, pitch: F64, length: Option<Duration>) -> (r: Vec<
    FilterStep<AnimatedValue>,
>)
    requires
        clip.offset.nanos <= time::MAX_NANOS,
    ensures
        r@ == audio_lead(*clip, pitch, length),
{
    let mut steps: Vec<FilterStep<AnimatedValue>> = Vec::new();
    if clip.in_point.is_some() || clip.out_point.is_some() {
        steps.push(
            FilterStep::ATrim {
                start: opt_seconds(clip.in_point),
                end: opt_seconds(clip.out_point),
            },
        );
        steps.push(FilterStep::AResetPts);
    }
    let ghost timed = audio_trim(*clip);
    assert(steps@ =~= timed);
    if clip.offset.nanos > 0 {
        steps.push(FilterStep::AudioDelay { ms: F64::from_whole(clip.offset.as_millis()) });
    }
    let ghost placed = timed + audio_place(*clip);
    assert(steps@ =~= placed);
    if is_resped(clip) {
        steps.push(FilterStep::Speed { factor: clip.speed });
    }
    let ghost sped = placed + speed_change(*clip);
    assert(steps@ =~= sped);
    if (F64 { bits: values::BILLIONTH }).below(pitch.abs()) {
        steps.push(
            FilterStep::PitchShift { semitones: pitch.to_single(), algo: PitchAlgo::Signal },
        );
    }
    let ghost pitched = sped + pitch_change(pitch);
    assert(steps@ =~= pitched);
    if clip.fade_in.nanos > 0 {
        steps.push(
            FilterStep::AFadeIn {
                start: F64 { bits: values::ZERO },
                duration: clip.fade_in.as_secs_f64(),
            },
        );
    }
    let ghost risen = pitched + audio_rise(*clip);
    assert(steps@ =~= risen);
    if clip.fade_out.nanos > 0 {
        if let Some(d) = length {
            if d.nanos > clip.fade_out.nanos {
                steps.push(
                    FilterStep::AFadeOut {
                        start: d.saturating_sub(clip.fade_out).as_secs_f64(),
                        duration: clip.fade_out.as_secs_f64(),
                    },
                );
            }
        }
    }
    assert(steps@ =~= risen + audio_fall(*clip, length));
    steps
}

/// Whether `r` is the mix track of a clip.
pub open spec fn is_audio_track(
    clip: Clip,
    automation: TrackAutomation,
    length: Option<Duration>,
    pitch_start: F64,
    starts: Seq<F64>,
    r: AudioTrack,
) -> bool {
    let lead = audio_lead(clip, pitch_of(clip, pitch_start), length);
    &&& r.volume == volume_of(clip, automation)
    &&& r.pan == pan_of(clip, automation)
    &&& r.sample_rate == 48_000
    &&& r.channel_layout == ChannelLayout::Stereo
    &&& match clip::file_of(clip) {
        Some(path) => r.source == path,
        None => r.source@ == Seq::<char>::empty(),
    }
    &&& lead.len() <= r.effects@.len()
    &&& r.effects@.subrange(0, lead.len() as int) == lead
    &&& clip::is_audio_chain(
        clip,
        starts,
        r.effects@.subrange(lead.len() as int, r.effects@.len() as int),
    )
}

/// The mix track of a clip.
///
/// `fade_out_eff_dur` is how long the clip sounds, or `None` where that cannot be told. A
/// generated source carries no audio and gets an empty path. `starts[i]` is the value at time
/// zero of the track that effect `i` names, `pitch_start` that of the pitch keyframes.
pub fn audio_track(
    clip: &Clip,
    automation: &TrackAutomation,
    fade_out_eff_dur: Option<Duration>,
    pitch_start: F64,
    starts: &Vec<F64>,
) -> (r: AudioTrack)
    requires
        starts@.len() == clip.effects@.len(),
        clip.offset.nanos <= time::MAX_NANOS,
    ensures
        is_audio_track(*clip, *automation, fade_out_eff_dur, pitch_start, starts@, r),
{
    let source = match clip.source_path() {
        Some(path) => path,
        None => String::new(),
    };
    let pitch = audio_pitch(clip, pitch_start);
    let mut effects = audio_lead_steps(clip, pitch, fade_out_eff_dur);
    let ghost lead = effects@;
    let chain = clip.audio_effect_chain(starts);
    clip::append_steps(&mut effects, &chain);
    proof {
        assert(effects@.subrange(0, lead.len() as int) =~= lead);
        assert(effects@.subrange(lead.len() as int, effects@.len() as int) =~= chain@);
    }
    AudioTrack {
        source,
        volume: audio_volume(clip, automation),
        pan: audio_pan(clip, automation),
        effects,
        sample_rate: 48_000,
        channel_layout: ChannelLayout::Stereo,
    }
}

/// Whether `starts` holds, for each effect of a clip that reads its animation at time zero,
/// what `eval` gives for it there.
pub open spec fn starts_sampled<F: Fn(&AnimatedValue) -> F64>(
    clip: Clip,
    eval: F,
    starts: Seq<F64>,
) -> bool {
    &&& starts.len() == clip.effects@.len()
    &&& forall|i: int|
        #![trigger starts[i]]
        0 <= i < starts.len() ==> (effect::start_track_of(clip.effects@[i].kind) matches Some(t)
            ==> eval.ensures((&AnimatedValue::Track(t),), starts[i]))
}

/// The values at time zero that a clip's effects read; `eval` gives the value of an animation
/// there.
pub fn effect_starts<F: Fn(&AnimatedValue) -> F64>(clip: &Clip, eval: &F) -> (r: Vec<F64>)
    requires
        forall|v: AnimatedValue| #[trigger] eval.requires((&v,)),
    ensures
        starts_sampled(*clip, *eval, r@),
{
    let mut starts: Vec<F64> = Vec::new();
    let mut i: usize = 0;
    while i < clip.effects.len()
        invariant
            i <= clip.effects@.len(),
            forall|v: AnimatedValue| #[trigger] eval.requires((&v,)),
            starts@.len() == i,
            forall|j: int|
                #![trigger starts@[j]]
                0 <= j < i ==> (effect::start_track_of(clip.effects@[j].kind) matches Some(t)
                    ==> eval.ensures((&AnimatedValue::Track(t),), starts@[j])),
        decreases clip.effects@.len() - i,
    {
        match clip.effects[i].kind.start_track() {
            Some(t) => {
                let animation = AnimatedValue::Track(t);
                starts.push(eval(&animation));
            },
            None => {
                starts.push(F64 { bits: values::ZERO });
            },
        }
        i = i + 1;
    }
    starts
}

/// Whether each step of `at` is the authored one at a moment.
pub open spec fn steps_sampled<F: Fn(&AnimatedValue) -> F64>(
    authored: Seq<FilterStep<AnimatedValue>>,
    eval: F,
    at: Seq<FilterStep<F64>>,
) -> bool {
    &&& at.len() == authored.len()
    &&& forall|i: int|
        #![trigger at[i]]
        0 <= i < at.len() ==> filter::step_sampled(authored[i], eval, at[i])
}

fn steps_at<F: Fn(&AnimatedValue) -> F64>(
    steps: &Vec<FilterStep<AnimatedValue>>,
    eval: &F,
) -> (r: Vec<FilterStep<F64>>)
    requires
        forall|v: AnimatedValue| #[trigger] eval.requires((&v,)),
    ensures
        steps_sampled(steps@, *eval, r@),
{
    let mut at: Vec<FilterStep<F64>> = Vec::new();
    let mut i: usize = 0;
    while i < steps.len()
        invariant
            i <= steps@.len(),
            forall|v: AnimatedValue| #[trigger] eval.requires((&v,)),
            at@.len() == i,
            forall|j: int|
                #![trigger at@[j]]
                0 <= j < i ==> filter::step_sampled(steps@[j], *eval, at@[j]),
        decreases steps@.len() - i,
    {
        at.push(steps[i].at(eval));
        i = i + 1;
    }
    at
}

impl RealtimeLayerDescriptor<AnimatedValue> {
    /// The layer at one moment: each animated value replaced by what `eval` gives for it.
    pub fn at<F: Fn(&AnimatedValue) -> F64>(&self, eval: &F) -> (r: RealtimeLayerDescriptor<F64>)
        requires
            forall|v: AnimatedValue| #[trigger] eval.requires((&v,)),
        ensures
            steps_sampled(self.effects@, *eval, r.effects@),
            eval.ensures((&self.opacity,), r.opacity),
            eval.ensures((&self.x,), r.x),
            eval.ensures((&self.y,), r.y),
            eval.ensures((&self.scale_x,), r.scale_x),
            eval.ensures((&self.scale_y,), r.scale_y),
            eval.ensures((&self.rotation,), r.rotation),
            r.blend_mode == self.blend_mode,
            r.composite_op == self.composite_op,
    {
        RealtimeLayerDescriptor {
            effects: steps_at(&self.effects, eval),
            opacity: eval(&self.opacity),
            x: eval(&self.x),
            y: eval(&self.y),
            scale_x: eval(&self.scale_x),
            scale_y: eval(&self.scale_y),
            rotation: eval(&self.rotation),
            blend_mode: self.blend_mode,
            composite_op: self.composite_op,
        }
    }
}

/// Whether `at` is an export layer at one moment.
pub open spec fn layer_sampled<F: Fn(&AnimatedValue) -> F64>(
    layer: VideoLayer<AnimatedValue>,
    eval: F,
    at: VideoLayer<F64>,
) -> bool {
    &&& at.source == layer.source
    &&& at.proxy == layer.proxy
    &&& steps_sampled(layer.effects@, eval, at.effects@)
    &&& eval.ensures((&layer.opacity,), at.opacity)
    &&& eval.ensures((&layer.x,), at.x)
    &&& eval.ensures((&layer.y,), at.y)
    &&& eval.ensures((&layer.scale_x,), at.scale_x)
    &&& eval.ensures((&layer.scale_y,), at.scale_y)
    &&& eval.ensures((&layer.rotation,), at.rotation)
    &&& at.blend_mode == layer.blend_mode
    &&& at.composite_op == layer.composite_op
}

impl VideoLayer<AnimatedValue> {
    /// The layer at one moment: each animated value replaced by what `eval` gives for it.
    pub fn at<F: Fn(&AnimatedValue) -> F64>(&self, eval: &F) -> (r: VideoLayer<F64>)
        requires
            forall|v: AnimatedValue| #[trigger] eval.requires((&v,)),
        ensures
            layer_sampled(*self, *eval, r),
    {
        VideoLayer {
            source: self.source.clone(),
            proxy: match &self.proxy {
                Some(p) => Some(p.clone()),
                None => None,
            },
            effects: steps_at(&self.effects, eval),
            opacity: eval(&self.opacity),
            x: eval(&self.x),
            y: eval(&self.y),
            scale_x: eval(&self.scale_x),
            scale_y: eval(&self.scale_y),
            rotation: eval(&self.rotation),
            blend_mode: self.blend_mode,
            composite_op: self.composite_op,
        }
    }
}

/// Export and preview cannot disagree: whatever the preview runs for a clip, the export runs
/// with the temporal steps before it and the cross-fade after it.
pub proof fn export_is_preview_in_time(
    clip: Clip,
    automation: TrackAutomation,
    width: u32,
    height: u32,
    prev_end: Option<F64>,
    starts: Seq<F64>,
    preview: Seq<FilterStep<AnimatedValue>>,
)
    requires
        is_preview_chain(clip, automation, width, height, starts, preview),
    ensures
        is_export_chain(
            clip,
            automation,
            width,
            height,
            prev_end,
            starts,
            temporal(clip) + preview + cross_fade(clip, prev_end),
        ),
{
    let lead = temporal(clip);
    let tail = cross_fade(clip, prev_end);
    let all = lead + preview + tail;
    let end = all.len() - tail.len();
    assert(all.subrange(0, lead.len() as int) =~= lead);
    assert(all.subrange(lead.len() as int, end) =~= preview);
    assert(all.subrange(end, all.len() as int) =~= tail);
}

/// A factor has one form in pixels only.
proof fn lemma_pixels_alike(factor: AnimatedValue, dim: u32, v: AnimatedValue, w: AnimatedValue)
    requires
        in_pixels(factor, dim, v),
        in_pixels(factor, dim, w),
    ensures
        filter::values_alike(v, w),
{
    if let (AnimatedValue::Track(t), AnimatedValue::Track(u)) = (v, w) {
        assert forall|i: int| 0 <= i < t.keyframes@.len() implies #[trigger] t.keyframes@[i]
            == u.keyframes@[i] by {
            let k = u.keyframes@[i];
        }
        assert(t.keyframes@ =~= u.keyframes@);
    }
}

/// Any two geometries of a transform do the same.
proof fn lemma_geometry_alike(
    t: VideoTransform,
    width: u32,
    height: u32,
    p: Seq<FilterStep<AnimatedValue>>,
    q: Seq<FilterStep<AnimatedValue>>,
)
    requires
        is_geometry(t, width, height, p),
        is_geometry(t, width, height, q),
    ensures
        filter::chains_alike(p, q),
{
    if scale_animated(t) {
        if let (
            FilterStep::ScaleAnimated { width: w, height: h, .. },
            FilterStep::ScaleAnimated { width: x, height: i, .. },
        ) = (p.last(), q.last()) {
            lemma_pixels_alike(t.scale_x, width, w, x);
            lemma_pixels_alike(t.scale_y, height, h, i);
        }
        assert(filter::steps_alike(p.last(), q.last()));
    }
    assert forall|i: int| #![trigger p[i]] 0 <= i < p.len() implies filter::steps_alike(
        p[i],
        q[i],
    ) by {
        if t.rotation is Track && i == 0 {
            assert(rotates(p[0], t.rotation) && rotates(q[0], t.rotation));
        }
    }
}

/// A clip has one preview chain only: any two do the same.
pub proof fn preview_chain_is_one(
    clip: Clip,
    automation: TrackAutomation,
    width: u32,
    height: u32,
    starts: Seq<F64>,
    p: Seq<FilterStep<AnimatedValue>>,
    q: Seq<FilterStep<AnimatedValue>>,
)
    requires
        is_preview_chain(clip, automation, width, height, starts, p),
        is_preview_chain(clip, automation, width, height, starts, q),
    ensures
        filter::chains_alike(p, q),
{
    let t = transform(clip, automation);
    let g = geometry_len(t);
    let f = g + framing_len(clip, width, height);
    let (a, b) = (p.subrange(0, g), q.subrange(0, g));
    let (c, d) = (p.subrange(f, p.len() as int), q.subrange(f, q.len() as int));
    lemma_geometry_alike(t, width, height, a, b);
    clip::video_chain_is_one(clip, starts, c, d);
    assert forall|i: int| #![trigger p[i]] 0 <= i < p.len() implies filter::steps_alike(
        p[i],
        q[i],
    ) by {
        if i < g {
            assert(filter::steps_alike(a[i], b[i]));
        } else if i < f {
            assert(frames(clip, width, height, Some(p[g])));
            assert(frames(clip, width, height, Some(q[g])));
        } else {
            assert(filter::steps_alike(c[i - f], d[i - f]));
        }
    }
}

/// The preview layer and the export layer of one clip, derived from the same values, agree:
/// they are placed and mixed alike, and between the temporal steps and the cross-fade the
/// export runs step by step what the preview runs.
pub proof fn export_and_preview_agree(
    clip: Clip,
    automation: TrackAutomation,
    width: u32,
    height: u32,
    prev_end: Option<F64>,
    proxy: Option<ProxySource>,
    starts: Seq<F64>,
    export: VideoLayer<AnimatedValue>,
    preview: RealtimeLayerDescriptor<AnimatedValue>,
)
    requires
        is_export_layer(clip, automation, width, height, prev_end, proxy, starts, export),
        is_preview_layer(clip, automation, width, height, starts, preview),
    ensures
        export.x == preview.x && export.y == preview.y,
        export.scale_x == preview.scale_x && export.scale_y == preview.scale_y,
        export.rotation == preview.rotation,
        export.opacity == preview.opacity,
        export.blend_mode == preview.blend_mode,
        export.composite_op == preview.composite_op,
        ({
            let lead = temporal(clip);
            let tail = cross_fade(clip, prev_end);
            let steps = export.effects@;
            let end = lead.len() + preview.effects@.len();
            &&& steps.len() == end + tail.len()
            &&& steps.subrange(0, lead.len() as int) == lead
            &&& filter::chains_alike(
                steps.subrange(lead.len() as int, end as int),
                preview.effects@,
            )
            &&& steps.subrange(end as int, steps.len() as int) == tail
        }),
{
    let lead = temporal(clip);
    let tail = cross_fade(clip, prev_end);
    let steps = export.effects@;
    let middle = steps.subrange(lead.len() as int, steps.len() - tail.len());
    preview_chain_is_one(clip, automation, width, height, starts, middle, preview.effects@);
    assert(steps.len() - tail.len() == lead.len() + preview.effects@.len());
}

/// A clip whose scale and rotation are not animated runs no geometry step, and keeps both on
/// the layer; an animated one runs exactly one step for each and leaves the scalar neutral.
pub proof fn geometry_is_applied_once(
    t: VideoTransform,
    width: u32,
    height: u32,
    steps: Seq<FilterStep<AnimatedValue>>,
)
    requires
        is_geometry(t, width, height, steps),
    ensures
        t.rotation is Static ==> still_rotation(t) == t.rotation,
        t.rotation is Track ==> still_rotation(t) == constant(values::ZERO) && rotates(
            steps[0],
            t.rotation,
        ),
        !scale_animated(t) ==> still_scale(t, t.scale_x) == t.scale_x && still_scale(t, t.scale_y)
            == t.scale_y,
        scale_animated(t) ==> still_scale(t, t.scale_x) == constant(values::ONE) && still_scale(
            t,
            t.scale_y,
        ) == constant(values::ONE) && scales(steps.last(), t, width, height),
        t.rotation is Static && !scale_animated(t) ==> steps.len() == 0,
{
}

} // verus!

//! The decisions of the export: how long it is, which sources it needs, and the layers and mix
//! tracks that it runs.
//!
//! Opening sources, filtering and encoding happen outside; what they find comes in as plain
//! values.

use std::sync::Arc;

use vstd::prelude::*;

use crate::clip;
use crate::clip::Clip;
use crate::derive::{
    audio_track, effect_starts, video_layer, AudioTrack, LayerSource, ProxySource, VideoLayer,
};
use crate::error::TimelineError;
use crate::filter::{share, AnimatedValue, BlendMode, CompositeOp, FilterStep};
use crate::float::double;
use crate::float::double::F64;
use crate::float::values;
use crate::gpu_export;
use crate::gpu_export::window_frames;
use crate::scene;
use crate::scene::Scene;
use crate::time;
use crate::time::Duration;
use crate::timeline::{Document, Timeline};
use crate::track;
use crate::track::{Track, TrackState};
use crate::transition;
use crate::transition::composited_secs;

verus! {

/// The lengths of clips together in nanoseconds, where every one is known.
pub open spec fn clips_length(clips: Seq<Clip>) -> Option<int>
    decreases clips.len(),
{
    if clips.len() == 0 {
        Some(0)
    } else {
        match (clips_length(clips.drop_last()), clip::source_span(clips.last())) {
            (Some(n), Some(d)) => Some(n + d.nanos),
            _ => None,
        }
    }
}

/// The lengths of all clips of all tracks together in nanoseconds, where every one is known.
pub open spec fn tracks_length(tracks: Seq<TrackState>) -> Option<int>
    decreases tracks.len(),
{
    if tracks.len() == 0 {
        Some(0)
    } else {
        match (tracks_length(tracks.drop_last()), clips_length(tracks.last().clips)) {
            (Some(n), Some(m)) => Some(n + m),
            _ => None,
        }
    }
}

proof fn clips_length_known(clips: Seq<Clip>, n: int)
    requires
        0 <= n <= clips.len(),
    ensures
        clips_length(clips) is Some ==> clips_length(clips.take(n)) is Some && 0 <= clips_length(
            clips.take(n),
        )->0 <= clips_length(clips)->0,
    decreases clips.len() - n,
{
    if n < clips.len() {
        clips_length_known(clips, n + 1);
        assert(clips.take(n + 1).drop_last() =~= clips.take(n));
        clips_length_counts(clips.take(n));
    } else {
        assert(clips.take(n) =~= clips);
        clips_length_counts(clips);
    }
}

proof fn clips_length_counts(clips: Seq<Clip>)
    ensures
        clips_length(clips) is Some ==> clips_length(clips)->0 >= 0,
    decreases clips.len(),
{
    if clips.len() > 0 {
        clips_length_counts(clips.drop_last());
    }
}

proof fn tracks_length_known(tracks: Seq<TrackState>, n: int)
    requires
        0 <= n <= tracks.len(),
    ensures
        tracks_length(tracks) is Some ==> tracks_length(tracks.take(n)) is Some && 0
            <= tracks_length(tracks.take(n))->0 <= tracks_length(tracks)->0,
    decreases tracks.len() - n,
{
    if n < tracks.len() {
        tracks_length_known(tracks, n + 1);
        assert(tracks.take(n + 1).drop_last() =~= tracks.take(n));
        clips_length_counts(tracks[n].clips);
        tracks_length_counts(tracks.take(n));
    } else {
        assert(tracks.take(n) =~= tracks);
        tracks_length_counts(tracks);
    }
}

proof fn tracks_length_counts(tracks: Seq<TrackState>)
    ensures
        tracks_length(tracks) is Some ==> tracks_length(tracks)->0 >= 0,
    decreases tracks.len(),
{
    if tracks.len() > 0 {
        tracks_length_counts(tracks.drop_last());
        clips_length_counts(tracks.last().clips);
    }
}

fn add_clips(clips: &Vec<Clip>, total: u128) -> (r: Option<u128>)
    ensures
        match clips_length(clips@) {
            Some(n) if total + n <= u128::MAX => r matches Some(sum) && sum == total + n,
            _ => r is None,
        },
{
    let mut sum: u128 = total;
    let mut i: usize = 0;
    while i < clips.len()
        invariant
            i <= clips@.len(),
            clips_length(clips@.take(i as int)) matches Some(n) && sum == total + n,
        decreases clips@.len() - i,
    {
        proof {
            let sofar = clips@.take(i as int + 1);
            assert(sofar.drop_last() =~= clips@.take(i as int));
            assert(sofar.last() == clips@[i as int]);
            clips_length_known(clips@, i as int + 1);
        }
        match clips[i].duration() {
            Some(d) => {
                match sum.checked_add(d.nanos) {
                    Some(more) => {
                        sum = more;
                    },
                    None => {
                        return None;
                    },
                }
            },
            None => {
                return None;
            },
        }
        i = i + 1;
    }
    assert(clips@.take(clips@.len() as int) =~= clips@);
    Some(sum)
}

/// How many video frames an export is expected to give: the lengths of all video clips
/// together at the frame rate, or `None` where a clip runs to the end of its file. The lengths
/// together must be a span of time.
pub fn total_frames(video_tracks: &Vec<Track>, frame_rate: F64) -> (r: Option<u64>)
    requires
        tracks_length(track::states(video_tracks@)) matches Some(n) ==> n <= time::MAX_NANOS,
    ensures
        match tracks_length(track::states(video_tracks@)) {
            Some(n) => r == Some(
                gpu_export::frames_in(Duration { nanos: n as u128 }, frame_rate),
            ),
            None => r is None,
        },
{
    let ghost all = track::states(video_tracks@);
    let mut sum: u128 = 0;
    let mut k: usize = 0;
    while k < video_tracks.len()
        invariant
            k <= video_tracks@.len(),
            all == track::states(video_tracks@),
            tracks_length(all) matches Some(n) ==> n <= time::MAX_NANOS,
            tracks_length(all.take(k as int)) matches Some(n) && sum == n,
        decreases video_tracks@.len() - k,
    {
        proof {
            let sofar = all.take(k as int + 1);
            assert(sofar.drop_last() =~= all.take(k as int));
            assert(sofar.last() == video_tracks@[k as int]@);
            tracks_length_known(all, k as int + 1);
        }
        match add_clips(&video_tracks[k].clips, sum) {
            Some(more) => {
                sum = more;
            },
            None => {
                return None;
            },
        }
        k = k + 1;
    }
    assert(all.take(all.len() as int) =~= all);
    Some(window_frames(Duration { nanos: sum }, frame_rate))
}

/// The files of clips, in order; a generated clip has none.
pub open spec fn clip_files(clips: Seq<Clip>) -> Seq<String>
    decreases clips.len(),
{
    if clips.len() == 0 {
        Seq::empty()
    } else {
        let rest = clip_files(clips.drop_last());
        match clip::file_of(clips.last()) {
            Some(path) => rest.push(path),
            None => rest,
        }
    }
}

/// The files of the clips of all tracks, in order.
pub open spec fn track_files(tracks: Seq<TrackState>) -> Seq<String>
    decreases tracks.len(),
{
    if tracks.len() == 0 {
        Seq::empty()
    } else {
        track_files(tracks.drop_last()) + clip_files(tracks.last().clips)
    }
}

fn push_files(files: &mut Vec<String>, clips: &Vec<Clip>)
    ensures
        final(files)@ == old(files)@ + clip_files(clips@),
{
    let ghost before = files@;
    let mut i: usize = 0;
    while i < clips.len()
        invariant
            i <= clips@.len(),
            files@ =~= before + clip_files(clips@.take(i as int)),
        decreases clips@.len() - i,
    {
        proof {
            let sofar = clips@.take(i as int + 1);
            assert(sofar.drop_last() =~= clips@.take(i as int));
            assert(sofar.last() == clips@[i as int]);
        }
        if let Some(path) = clips[i].source_path() {
            files.push(path);
        }
        i = i + 1;
    }
    assert(clips@.take(clips@.len() as int) =~= clips@);
}

fn push_track_files(files: &mut Vec<String>, tracks: &Vec<Track>)
    ensures
        final(files)@ == old(files)@ + track_files(track::states(tracks@)),
{
    let ghost before = files@;
    let ghost all = track::states(tracks@);
    let mut k: usize = 0;
    while k < tracks.len()
        invariant
            k <= tracks@.len(),
            all == track::states(tracks@),
            files@ =~= before + track_files(all.take(k as int)),
        decreases tracks@.len() - k,
    {
        proof {
            let sofar = all.take(k as int + 1);
            assert(sofar.drop_last() =~= all.take(k as int));
            assert(sofar.last() == tracks@[k as int]@);
        }
        push_files(files, &tracks[k].clips);
        k = k + 1;
    }
    assert(all.take(all.len() as int) =~= all);
}

impl Timeline {
    /// The files that an export needs, in the order in which they are looked for: those of the
    /// video tracks, then those of the audio tracks.
    pub fn source_files(&self) -> (r: Vec<String>)
        ensures
            r@ == track_files(self@.video) + track_files(self@.audio),
    {
        let mut files: Vec<String> = Vec::new();
        push_track_files(&mut files, &self.video_tracks);
        push_track_files(&mut files, &self.audio_tracks);
        files
    }
}

/// The error of the first file that is missing, or `None` where all are there. `exists[i]` says
/// whether file `i` is.
pub fn first_missing(files: &Vec<String>, exists: &Vec<bool>) -> (r: Option<TimelineError>)
    requires
        exists@.len() == files@.len(),
    ensures
        match r {
            Some(e) => exists|i: int|
                #![trigger files@[i]]
                0 <= i < files@.len() && !exists@[i] && e == (TimelineError::ClipNotFound {
                    path: files@[i],
                }) && forall|j: int| 0 <= j < i ==> #[trigger] exists@[j],
            None => forall|i: int| 0 <= i < files@.len() ==> #[trigger] exists@[i],
        },
{
    let mut i: usize = 0;
    while i < files.len()
        invariant
            i <= files@.len(),
            exists@.len() == files@.len(),
            forall|j: int| 0 <= j < i ==> #[trigger] exists@[j],
        decreases files@.len() - i,
    {
        if !exists[i] {
            let path = files[i].clone();
            assert(path == files@[i as int]);
            return Some(TimelineError::ClipNotFound { path });
        }
        i = i + 1;
    }
    None
}

/// What opening a clip's source tells the export.
#[derive(Clone, Copy, Debug, PartialEq, Eq)]
pub struct Opened {
    /// The source's length, or `None` where it cannot be opened.
    pub length: Option<Duration>,
    /// The size of the source's frames, or `None` where it cannot be opened.
    pub size: Option<(u32, u32)>,
}

/// The seconds of its source that a clip shows: its own length, or what its source holds from
/// its in-point on; a source that cannot be opened counts nothing.
pub open spec fn added_seconds(clip: Clip, source: Opened) -> F64 {
    match clip::source_span(clip) {
        Some(d) => time::seconds(d),
        None => match source.length {
            None => F64 { bits: values::ZERO },
            Some(total) => match clip.in_point {
                Some(p) => double::greater_of(
                    double::difference(time::seconds(total), time::seconds(p)),
                    F64 { bits: values::ZERO },
                ),
                None => time::seconds(total),
            },
        },
    }
}

/// The seconds of its source that a clip shows.
pub fn end_secs(clip: &Clip, source: Opened) -> (r: F64)
    ensures
        r == added_seconds(*clip, source),
{
    match clip.duration() {
        Some(d) => d.as_secs_f64(),
        None => match source.length {
            None => F64 { bits: values::ZERO },
            Some(total) => match clip.in_point {
                Some(p) => total.as_secs_f64().minus(p.as_secs_f64()).max(
                    F64 { bits: values::ZERO },
                ),
                None => total.as_secs_f64(),
            },
        },
    }
}

/// How long a clip sounds, where a fade-out asks for it: its own length, or what its source
/// holds from its in-point on.
pub open spec fn sounding_length(clip: Clip, source: Opened) -> Option<Duration> {
    if clip.fade_out.nanos == 0 {
        None
    } else {
        match clip::source_span(clip) {
            Some(d) => Some(d),
            None => match source.length {
                None => None,
                Some(total) => match clip.in_point {
                    Some(p) => Some(time::earlier(total, p)),
                    None => Some(total),
                },
            },
        }
    }
}

/// How long a clip sounds, where its fade-out needs to know.
pub fn fade_out_length(clip: &Clip, source: Opened) -> (r: Option<Duration>)
    ensures
        r == sounding_length(*clip, source),
{
    if clip.fade_out.nanos == 0 {
        return None;
    }
    match clip.duration() {
        Some(d) => Some(d),
        None => match source.length {
            None => None,
            Some(total) => match clip.in_point {
                Some(p) => Some(total.saturating_sub(p)),
                None => Some(total),
            },
        },
    }
}

/// The stand-in that a clip's layer reads: the clip's proxy, scaled back to the size of its
/// source; none where the source cannot be opened.
pub open spec fn stand_in(clip: Clip, source: Opened) -> Option<ProxySource> {
    match (clip.proxy, source.size) {
        (Some(path), Some(size)) => Some(ProxySource { path, width: size.0, height: size.1 }),
        _ => None,
    }
}

/// The stand-in that a clip's layer reads.
pub fn proxy_source(clip: &Clip, source: Opened) -> (r: Option<ProxySource>)
    ensures
        r == stand_in(*clip, source),
{
    match &clip.proxy {
        None => None,
        Some(path) => match source.size {
            None => None,
            Some(size) => Some(
                ProxySource { path: path.clone(), width: size.0, height: size.1 },
            ),
        },
    }
}

/// Where the first `i` clips of a track end in its stream: what each shows of its source, at its
/// speed, added up along the track.
pub open spec fn stream_end(clips: Seq<Clip>, sources: Seq<Opened>, i: int) -> F64
    decreases i,
{
    if i <= 0 {
        F64 { bits: values::ZERO }
    } else {
        double::sum(
            stream_end(clips, sources, i - 1),
            double::quotient(
                added_seconds(clips[i - 1], sources[i - 1]),
                transition::floored(clips[i - 1].speed),
            ),
        )
    }
}

/// Where the clip before clip `i` of a track ends; the first clip has none before it.
pub open spec fn prev_end_of(clips: Seq<Clip>, sources: Seq<Opened>, i: int) -> Option<F64> {
    if i <= 0 {
        None
    } else {
        Some(stream_end(clips, sources, i))
    }
}

/// Whether `layer` is the export layer of clip `i` of a track.
pub open spec fn is_clip_layer<F: Fn(&AnimatedValue) -> F64>(
    t: TrackState,
    i: int,
    canvas: (u32, u32),
    sources: Seq<Opened>,
    eval: F,
    layer: VideoLayer<AnimatedValue>,
) -> bool {
    exists|starts: Seq<F64>| #[trigger]
        crate::derive::starts_sampled(t.clips[i], eval, starts) && crate::derive::is_export_layer(
            t.clips[i],
            t.automation,
            canvas.0,
            canvas.1,
            prev_end_of(t.clips, sources, i),
            stand_in(t.clips[i], sources[i]),
            starts,
            layer,
        )
}

/// Whether `layers` are the export layers of a track's clips, in order.
pub open spec fn are_layers<F: Fn(&AnimatedValue) -> F64>(
    t: TrackState,
    canvas: (u32, u32),
    sources: Seq<Opened>,
    eval: F,
    layers: Seq<VideoLayer<AnimatedValue>>,
) -> bool {
    &&& layers.len() == t.clips.len()
    &&& forall|i: int|
        #![trigger layers[i]]
        0 <= i < layers.len() ==> is_clip_layer(t, i, canvas, sources, eval, layers[i])
}

/// The export layers of a track's clips, in order. `sources[i]` is what opening the source of
/// clip `i` tells, and `eval` gives the value of an animation at time zero.
pub fn track_layers<F: Fn(&AnimatedValue) -> F64>(
    t: &Track,
    canvas: (u32, u32),
    sources: &Vec<Opened>,
    eval: &F,
) -> (r: Vec<VideoLayer<AnimatedValue>>)
    requires
        forall|v: AnimatedValue| #[trigger] eval.requires((&v,)),
        sources@.len() == t.clips@.len(),
    ensures
        are_layers(t@, canvas, sources@, *eval, r@),
{
    let mut layers: Vec<VideoLayer<AnimatedValue>> = Vec::new();
    let mut end = F64 { bits: values::ZERO };
    let mut prev_end: Option<F64> = None;
    let mut i: usize = 0;
    while i < t.clips.len()
        invariant
            i <= t.clips@.len(),
            forall|v: AnimatedValue| #[trigger] eval.requires((&v,)),
            sources@.len() == t.clips@.len(),
            end == stream_end(t.clips@, sources@, i as int),
            prev_end == prev_end_of(t.clips@, sources@, i as int),
            layers@.len() == i,
            forall|j: int|
                #![trigger layers@[j]]
                0 <= j < i ==> is_clip_layer(t@, j, canvas, sources@, *eval, layers@[j]),
        decreases t.clips@.len() - i,
    {
        let c = &t.clips[i];
        let starts = effect_starts(c, eval);
        let proxy = proxy_source(c, sources[i]);
        let layer = video_layer(
            c,
            &t.automation,
            canvas.0,
            canvas.1,
            prev_end,
            proxy,
            &starts,
        );
        assert(crate::derive::starts_sampled(t.clips@[i as int], *eval, starts@));
        assert(is_clip_layer(t@, i as int, canvas, sources@, *eval, layer));
        layers.push(layer);
        end = end.plus(composited_secs(end_secs(c, sources[i]), c.speed));
        prev_end = Some(end);
        i = i + 1;
    }
    layers
}

/// The layer of a filter graph that lies over all tracks: at its place, opaque, unchanged.
pub open spec fn overlay_of(graph: String, layer: VideoLayer<AnimatedValue>) -> bool {
    let still = |bits: u64| AnimatedValue::Static(F64 { bits });
    &&& layer.source == LayerSource::Lavfi(graph)
    &&& layer.proxy is None
    &&& layer.x == still(values::ZERO) && layer.y == still(values::ZERO)
    &&& layer.scale_x == still(values::ONE) && layer.scale_y == still(values::ONE)
    &&& layer.rotation == still(values::ZERO) && layer.opacity == still(values::ONE)
    &&& layer.blend_mode == BlendMode::Normal && layer.composite_op == CompositeOp::Over
    &&& layer.effects@.len() == 0
}

/// The layer of a filter graph that lies over all tracks.
pub fn overlay_layer(graph: &String) -> (r: VideoLayer<AnimatedValue>)
    ensures
        overlay_of(*graph, r),
{
    let zero = F64 { bits: values::ZERO };
    let one = F64 { bits: values::ONE };
    VideoLayer {
        source: LayerSource::Lavfi(graph.clone()),
        proxy: None,
        x: AnimatedValue::Static(zero),
        y: AnimatedValue::Static(zero),
        scale_x: AnimatedValue::Static(one),
        scale_y: AnimatedValue::Static(one),
        rotation: AnimatedValue::Static(zero),
        opacity: AnimatedValue::Static(one),
        blend_mode: BlendMode::Normal,
        composite_op: CompositeOp::Over,
        effects: Vec::new(),
    }
}

/// How many layers the first `n` tracks have; one that is not active has none.
pub open spec fn layers_before(tracks: Seq<TrackState>, n: int) -> int
    decreases n,
{
    if n <= 0 {
        0
    } else {
        layers_before(tracks, n - 1) + (if track::active(
            tracks[n - 1],
            track::any_solo(tracks),
        ) {
            tracks[n - 1].clips.len() as int
        } else {
            0
        })
    }
}

pub proof fn layers_grow(tracks: Seq<TrackState>, a: int, b: int)
    requires
        0 <= a <= b,
    ensures
        layers_before(tracks, a) <= layers_before(tracks, b),
        0 <= layers_before(tracks, a),
    decreases b,
{
    if a < b {
        layers_grow(tracks, a, b - 1);
    } else if a > 0 {
        layers_grow(tracks, a - 1, a - 1);
    }
}

/// The layers of the track at `k` among those of all tracks.
pub open spec fn layers_of<L>(tracks: Seq<TrackState>, k: int, layers: Seq<L>) -> Seq<L> {
    layers.subrange(layers_before(tracks, k), layers_before(tracks, k + 1))
}

/// Whether `layers` is the whole stack of an export: the layers of each active track, from the
/// bottom up, and above them all the overlay, where there is one.
pub open spec fn is_stack<F: Fn(&AnimatedValue) -> F64>(
    d: Document,
    sources: Seq<Seq<Opened>>,
    eval: F,
    layers: Seq<VideoLayer<AnimatedValue>>,
) -> bool {
    let tracks_end = layers_before(d.video, d.video.len() as int);
    &&& layers.len() == tracks_end + (if d.lavfi_overlay is Some {
        1int
    } else {
        0
    })
    &&& forall|k: int|
        0 <= k < d.video.len() && track::active(#[trigger] d.video[k], track::any_solo(d.video))
            ==> are_layers(
            d.video[k],
            (d.canvas_width, d.canvas_height),
            sources[k],
            eval,
            layers_of(d.video, k, layers),
        )
    &&& d.lavfi_overlay matches Some(graph) ==> overlay_of(graph, layers.last())
}

/// What opening each clip's source tells, by track.
pub open spec fn opened_all(sources: Seq<Vec<Opened>>) -> Seq<Seq<Opened>> {
    sources.map_values(|v: Vec<Opened>| v@)
}

/// Whether there is one entry for each clip of each track.
pub open spec fn opened_fit(tracks: Seq<TrackState>, sources: Seq<Vec<Opened>>) -> bool {
    &&& sources.len() == tracks.len()
    &&& forall|k: int|
        #![trigger sources[k]]
        0 <= k < sources.len() ==> sources[k]@.len() == tracks[k].clips.len()
}

/// The places of the clips that a mix takes up, in order: those with a file. A generated clip
/// carries no sound.
pub open spec fn heard(clips: Seq<Clip>) -> Seq<int>
    decreases clips.len(),
{
    if clips.len() == 0 {
        Seq::empty()
    } else {
        let before = heard(clips.drop_last());
        match clip::file_of(clips.last()) {
            Some(_) => before.push(clips.len() - 1),
            None => before,
        }
    }
}

/// How many mix tracks the first `n` tracks have; one that is not active has none.
pub open spec fn mixed_before(tracks: Seq<TrackState>, n: int) -> int
    decreases n,
{
    if n <= 0 {
        0
    } else {
        mixed_before(tracks, n - 1) + (if track::active(
            tracks[n - 1],
            track::any_solo(tracks),
        ) {
            heard(tracks[n - 1].clips).len() as int
        } else {
            0
        })
    }
}

proof fn mix_grows(tracks: Seq<TrackState>, a: int, b: int)
    requires
        0 <= a <= b,
    ensures
        mixed_before(tracks, a) <= mixed_before(tracks, b),
        0 <= mixed_before(tracks, a),
    decreases b,
{
    if a < b {
        mix_grows(tracks, a, b - 1);
    } else if a > 0 {
        mix_grows(tracks, a - 1, a - 1);
    }
}

/// The mix tracks of the track at `k` among those of all tracks.
pub open spec fn mix_of(tracks: Seq<TrackState>, k: int, mix: Seq<AudioTrack>) -> Seq<AudioTrack> {
    mix.subrange(mixed_before(tracks, k), mixed_before(tracks, k + 1))
}

/// Whether `tracks` is the whole mix of an export: one mix track for each clip with a file of
/// each active track, in order.
pub open spec fn is_mix<F: Fn(&AnimatedValue) -> F64>(
    d: Document,
    sources: Seq<Seq<Opened>>,
    eval: F,
    mix: Seq<AudioTrack>,
) -> bool {
    &&& mix.len() == mixed_before(d.audio, d.audio.len() as int)
    &&& forall|k: int|
        0 <= k < d.audio.len() && track::active(#[trigger] d.audio[k], track::any_solo(d.audio))
            ==> are_mix_tracks(d.audio[k], sources[k], eval, mix_of(d.audio, k, mix))
}

/// Whether `mix` are the mix tracks of a track's clips with a file, in order.
pub open spec fn are_mix_tracks<F: Fn(&AnimatedValue) -> F64>(
    t: TrackState,
    sources: Seq<Opened>,
    eval: F,
    mix: Seq<AudioTrack>,
) -> bool {
    let from = heard(t.clips);
    &&& mix.len() == from.len()
    &&& forall|j: int|
        #![trigger mix[j]]
        0 <= j < mix.len() ==> is_mix_track(t.clips[from[j]], t, sources[from[j]], eval, mix[j])
}

/// Whether `m` is the mix track of a clip.
pub open spec fn is_mix_track<F: Fn(&AnimatedValue) -> F64>(
    c: Clip,
    t: TrackState,
    source: Opened,
    eval: F,
    m: AudioTrack,
) -> bool {
    exists|starts: Seq<F64>, pitch: F64|
        {
            &&& #[trigger] crate::derive::starts_sampled(c, eval, starts)
            &&& (c.pitch_track matches Some(p) ==> eval.ensures((&AnimatedValue::Track(p),), pitch))
            &&& #[trigger] crate::derive::is_audio_track(
                c,
                t.automation,
                sounding_length(c, source),
                pitch,
                starts,
                m,
            )
        }
}

fn push_layers(
    stack: &mut Vec<VideoLayer<AnimatedValue>>,
    layers: Vec<VideoLayer<AnimatedValue>>,
)
    ensures
        final(stack)@ == old(stack)@ + layers@,
{
    let mut layers = layers;
    stack.append(&mut layers);
}

/// The mix tracks of a track's clips with a file, in order.
pub fn track_mix<F: Fn(&AnimatedValue) -> F64>(
    t: &Track,
    sources: &Vec<Opened>,
    eval: &F,
) -> (r: Vec<AudioTrack>)
    requires
        forall|v: AnimatedValue| #[trigger] eval.requires((&v,)),
        sources@.len() == t.clips@.len(),
        forall|i: int|
            0 <= i < t.clips@.len() ==> (#[trigger] t.clips@[i]).offset.nanos <= time::MAX_NANOS,
    ensures
        are_mix_tracks(t@, sources@, *eval, r@),
{
    let mut mix: Vec<AudioTrack> = Vec::new();
    let mut i: usize = 0;
    while i < t.clips.len()
        invariant
            i <= t.clips@.len(),
            forall|v: AnimatedValue| #[trigger] eval.requires((&v,)),
            sources@.len() == t.clips@.len(),
            forall|j: int|
                0 <= j < t.clips@.len() ==> (#[trigger] t.clips@[j]).offset.nanos
                    <= time::MAX_NANOS,
            mix@.len() == heard(t.clips@.take(i as int)).len(),
            forall|j: int|
                #![trigger mix@[j]]
                0 <= j < mix@.len() ==> {
                    let k = heard(t.clips@.take(i as int))[j];
                    is_mix_track(t.clips@[k], t@, sources@[k], *eval, mix@[j])
                },
        decreases t.clips@.len() - i,
    {
        let c = &t.clips[i];
        proof {
            let part = t.clips@.take(i + 1);
            assert(part.drop_last() =~= t.clips@.take(i as int));
            assert(part.last() == *c);
        }
        if c.source_path().is_some() {
            let starts = effect_starts(c, eval);
            let pitch = match &c.pitch_track {
                Some(p) => {
                    let animation = AnimatedValue::Track(p.clone());
                    eval(&animation)
                },
                None => F64 { bits: values::ZERO },
            };
            let length = fade_out_length(c, sources[i]);
            let m = audio_track(c, &t.automation, length, pitch, &starts);
            assert(crate::derive::starts_sampled(*c, *eval, starts@));
            assert(is_mix_track(*c, t@, sources@[i as int], *eval, m));
            mix.push(m);
        }
        i = i + 1;
    }
    assert(t.clips@.take(i as int) =~= t.clips@);
    mix
}

impl Timeline {
    /// The whole stack of an export, from the bottom up: the layers of each active video track,
    /// and the overlay above them all. `sources[k][i]` is what opening the source of clip `i` of
    /// video track `k` tells, and `eval` gives the value of an animation at time zero.
    pub fn video_stack<F: Fn(&AnimatedValue) -> F64>(
        &self,
        sources: &Vec<Vec<Opened>>,
        eval: &F,
    ) -> (r: Vec<VideoLayer<AnimatedValue>>)
        requires
            forall|v: AnimatedValue| #[trigger] eval.requires((&v,)),
            opened_fit(self@.video, sources@),
        ensures
            is_stack(self@, opened_all(sources@), *eval, r@),
    {
        let ghost d = self@;
        let ghost all = opened_all(sources@);
        let canvas: (u32, u32) = (self.canvas_width, self.canvas_height);
        let solo = track::has_solo(&self.video_tracks);
        let mut stack: Vec<VideoLayer<AnimatedValue>> = Vec::new();
        let mut k: usize = 0;
        while k < self.video_tracks.len()
            invariant
                k <= self.video_tracks@.len(),
                forall|v: AnimatedValue| #[trigger] eval.requires((&v,)),
                d == self@,
                all == opened_all(sources@),
                opened_fit(d.video, sources@),
                canvas == (d.canvas_width, d.canvas_height),
                solo == track::any_solo(d.video),
                stack@.len() == layers_before(d.video, k as int),
                forall|j: int|
                    0 <= j < k && track::active(#[trigger] d.video[j], solo) ==> are_layers(
                        d.video[j],
                        canvas,
                        all[j],
                        *eval,
                        layers_of(d.video, j, stack@),
                    ),
            decreases self.video_tracks@.len() - k,
        {
            let t = &self.video_tracks[k];
            assert(d.video[k as int] == t@);
            assert(all[k as int] == sources@[k as int]@);
            let ghost before = stack@;
            let layers: Vec<VideoLayer<AnimatedValue>> = if t.is_active(solo) {
                track_layers(t, canvas, &sources[k], eval)
            } else {
                Vec::new()
            };
            let ghost new = layers@;
            push_layers(&mut stack, layers);
            proof {
                assert(layers_of(d.video, k as int, stack@) =~= new);
                assert forall|j: int|
                    0 <= j < k && track::active(#[trigger] d.video[j], solo) implies are_layers(
                    d.video[j],
                    canvas,
                    all[j],
                    *eval,
                    layers_of(d.video, j, stack@),
                ) by {
                    layers_grow(d.video, j, j + 1);
                    layers_grow(d.video, j + 1, k as int);
                    assert(layers_of(d.video, j, stack@) =~= layers_of(d.video, j, before));
                }
            }
            k = k + 1;
        }
        let ghost lower = stack@;
        if let Some(graph) = &self.lavfi_overlay {
            stack.push(overlay_layer(graph));
        }
        proof {
            assert forall|j: int|
                0 <= j < d.video.len() && track::active(
                    #[trigger] d.video[j],
                    solo,
                ) implies are_layers(
                d.video[j],
                canvas,
                all[j],
                *eval,
                layers_of(d.video, j, stack@),
            ) by {
                layers_grow(d.video, j, j + 1);
                layers_grow(d.video, j + 1, d.video.len() as int);
                assert(layers_of(d.video, j, stack@) =~= layers_of(d.video, j, lower));
            }
        }
        stack
    }

    /// The whole mix of an export: one mix track for each clip with a file of each active audio
    /// track, in order. `sources[k][i]` is what opening the source of clip `i` of audio track `k`
    /// tells, and `eval` gives the value of an animation at time zero.
    pub fn audio_mix<F: Fn(&AnimatedValue) -> F64>(
        &self,
        sources: &Vec<Vec<Opened>>,
        eval: &F,
    ) -> (r: Vec<AudioTrack>)
        requires
            forall|v: AnimatedValue| #[trigger] eval.requires((&v,)),
            opened_fit(self@.audio, sources@),
            forall|k: int, i: int|
                0 <= k < self@.audio.len() && 0 <= i < self@.audio[k].clips.len() ==> (
                #[trigger] self@.audio[k].clips[i]).offset.nanos <= time::MAX_NANOS,
        ensures
            is_mix(self@, opened_all(sources@), *eval, r@),
    {
        let ghost d = self@;
        let ghost all = opened_all(sources@);
        let solo = track::has_solo(&self.audio_tracks);
        let mut mix: Vec<AudioTrack> = Vec::new();
        let mut k: usize = 0;
        while k < self.audio_tracks.len()
            invariant
                k <= self.audio_tracks@.len(),
                forall|v: AnimatedValue| #[trigger] eval.requires((&v,)),
                d == self@,
                all == opened_all(sources@),
                opened_fit(d.audio, sources@),
                forall|k: int, i: int|
                    0 <= k < d.audio.len() && 0 <= i < d.audio[k].clips.len() ==> (
                    #[trigger] d.audio[k].clips[i]).offset.nanos <= time::MAX_NANOS,
                solo == track::any_solo(d.audio),
                mix@.len() == mixed_before(d.audio, k as int),
                forall|j: int|
                    0 <= j < k && track::active(#[trigger] d.audio[j], solo) ==> are_mix_tracks(
                        d.audio[j],
                        all[j],
                        *eval,
                        mix_of(d.audio, j, mix@),
                    ),
            decreases self.audio_tracks@.len() - k,
        {
            let t = &self.audio_tracks[k];
            assert(d.audio[k as int] == t@);
            assert(all[k as int] == sources@[k as int]@);
            assert forall|i: int| 0 <= i < t.clips@.len() implies (
            #[trigger] t.clips@[i]).offset.nanos <= time::MAX_NANOS by {
                assert(d.audio[k as int].clips[i].offset.nanos <= time::MAX_NANOS);
            }
            let ghost before = mix@;
            let mut tracks: Vec<AudioTrack> = if t.is_active(solo) {
                track_mix(t, &sources[k], eval)
            } else {
                Vec::new()
            };
            let ghost new = tracks@;
            mix.append(&mut tracks);
            proof {
                assert(mix_of(d.audio, k as int, mix@) =~= new);
                assert forall|j: int|
                    0 <= j < k && track::active(
                        #[trigger] d.audio[j],
                        solo,
                    ) implies are_mix_tracks(
                    d.audio[j],
                    all[j],
                    *eval,
                    mix_of(d.audio, j, mix@),
                ) by {
                    mix_grows(d.audio, j, j + 1);
                    mix_grows(d.audio, j + 1, k as int);
                    assert(mix_of(d.audio, j, mix@) =~= mix_of(d.audio, j, before));
                }
            }
            k = k + 1;
        }
        mix
    }
}

/// The part of the mix that one track contributes, and the chain that it runs through before it
/// enters the whole.
#[derive(Debug, PartialEq)]
pub struct MixBus {
    /// The place of the track's first mix track.
    pub first: usize,
    /// How many mix tracks it has.
    pub count: usize,
    /// The track's chain, in order.
    pub effects: Arc<Vec<FilterStep<AnimatedValue>>>,
}

/// What a bus holds.
pub struct Bus {
    pub first: int,
    pub count: int,
    pub effects: Seq<FilterStep<AnimatedValue>>,
}

impl View for MixBus {
    type V = Bus;

    open spec fn view(&self) -> Bus {
        Bus { first: self.first as int, count: self.count as int, effects: self.effects@ }
    }
}

/// The bus of the track at `k`: its mix tracks, through its own chain.
pub open spec fn bus_of(tracks: Seq<TrackState>, k: int) -> Bus {
    Bus {
        first: mixed_before(tracks, k),
        count: heard(tracks[k].clips).len() as int,
        effects: tracks[k].audio_effects,
    }
}

/// The buses of the active ones among the first `n` tracks, in order.
pub open spec fn buses_before(tracks: Seq<TrackState>, n: int) -> Seq<Bus>
    decreases n,
{
    if n <= 0 {
        Seq::empty()
    } else if track::active(tracks[n - 1], track::any_solo(tracks)) {
        buses_before(tracks, n - 1).push(bus_of(tracks, n - 1))
    } else {
        buses_before(tracks, n - 1)
    }
}

/// What several buses hold.
pub open spec fn bus_views(buses: Seq<MixBus>) -> Seq<Bus> {
    buses.map_values(|b: MixBus| b@)
}

fn count_heard(clips: &Vec<Clip>) -> (r: usize)
    ensures
        r == heard(clips@).len(),
{
    let mut n: usize = 0;
    let mut i: usize = 0;
    while i < clips.len()
        invariant
            i <= clips@.len(),
            n <= i,
            n == heard(clips@.take(i as int)).len(),
        decreases clips@.len() - i,
    {
        proof {
            let part = clips@.take(i + 1);
            assert(part.drop_last() =~= clips@.take(i as int));
            assert(part.last() == clips@[i as int]);
        }
        if clips[i].source_path().is_some() {
            n = n + 1;
        }
        i = i + 1;
    }
    assert(clips@.take(i as int) =~= clips@);
    n
}

impl Timeline {
    /// The buses of a mix: for each active audio track, in order, which mix tracks are its own,
    /// and the chain that they run through together before they enter the whole. `mix` is what
    /// [`audio_mix`](Timeline::audio_mix) gave.
    pub fn audio_buses(&self, mix: &Vec<AudioTrack>) -> (r: Vec<MixBus>)
        requires
            mix@.len() == mixed_before(self@.audio, self@.audio.len() as int),
        ensures
            bus_views(r@) == buses_before(self@.audio, self@.audio.len() as int),
    {
        let ghost d = self@;
        let ghost all: int = d.audio.len() as int;
        let solo = track::has_solo(&self.audio_tracks);
        let mut buses: Vec<MixBus> = Vec::new();
        let mut first: usize = 0;
        let mut k: usize = 0;
        assert(bus_views(buses@) =~= Seq::empty());
        while k < self.audio_tracks.len()
            invariant
                k <= self.audio_tracks@.len(),
                d == self@,
                all == d.audio.len(),
                mix@.len() == mixed_before(d.audio, all),
                solo == track::any_solo(d.audio),
                first == mixed_before(d.audio, k as int),
                bus_views(buses@) == buses_before(d.audio, k as int),
            decreases self.audio_tracks@.len() - k,
        {
            let t = &self.audio_tracks[k];
            assert(t@ == d.audio[k as int]);
            if t.is_active(solo) {
                proof {
                    mix_grows(d.audio, k + 1, all);
                    assert(mix.len() == mix@.len());
                }
                let count: usize = count_heard(&t.clips);
                let ghost before = buses@;
                buses.push(MixBus { first, count, effects: share(&t.audio_effects) });
                assert(bus_views(buses@) =~= bus_views(before).push(bus_of(d.audio, k as int)));
                first = first + count;
            }
            k = k + 1;
        }
        buses
    }
}

/// Every active audio track has its bus, with its own chain over its own mix tracks.
pub proof fn every_active_track_has_its_bus(tracks: Seq<TrackState>, k: int)
    requires
        0 <= k < tracks.len(),
        track::active(tracks[k], track::any_solo(tracks)),
    ensures
        buses_before(tracks, tracks.len() as int).contains(bus_of(tracks, k)),
{
    bus_is_there(tracks, tracks.len() as int, k);
}

/// Every bus is that of an active track.
pub proof fn every_bus_has_its_track(tracks: Seq<TrackState>, i: int)
    requires
        0 <= i < buses_before(tracks, tracks.len() as int).len(),
    ensures
        exists|k: int|
            0 <= k < tracks.len() && track::active(tracks[k], track::any_solo(tracks))
                && buses_before(tracks, tracks.len() as int)[i] == #[trigger] bus_of(tracks, k),
{
    bus_is_of_a_track(tracks, tracks.len() as int, i);
}

proof fn bus_is_there(tracks: Seq<TrackState>, n: int, k: int)
    requires
        0 <= k < n <= tracks.len(),
        track::active(tracks[k], track::any_solo(tracks)),
    ensures
        buses_before(tracks, n).contains(bus_of(tracks, k)),
    decreases n,
{
    let all = buses_before(tracks, n);
    let fewer = buses_before(tracks, n - 1);
    if k == n - 1 {
        assert(all[all.len() - 1] == bus_of(tracks, k));
    } else {
        bus_is_there(tracks, n - 1, k);
        let i = fewer.index_of(bus_of(tracks, k));
        assert(all[i] == bus_of(tracks, k));
    }
}

proof fn bus_is_of_a_track(tracks: Seq<TrackState>, n: int, i: int)
    requires
        0 <= n <= tracks.len(),
        0 <= i < buses_before(tracks, n).len(),
    ensures
        exists|j: int|
            0 <= j < n && track::active(tracks[j], track::any_solo(tracks)) && buses_before(
                tracks,
                n,
            )[i] == #[trigger] bus_of(tracks, j),
    decreases n,
{
    if n > 0 {
        let fewer = buses_before(tracks, n - 1);
        if i < fewer.len() {
            bus_is_of_a_track(tracks, n - 1, i);
        } else {
            assert(buses_before(tracks, n)[i] == bus_of(tracks, n - 1));
        }
    }
}

/// A mix takes up every clip with a file, in order, and no other.
pub proof fn clips_with_a_file_are_heard(clips: Seq<Clip>)
    ensures
        forall|j: int|
            #![trigger heard(clips)[j]]
            0 <= j < heard(clips).len() ==> 0 <= heard(clips)[j] < clips.len() && clip::file_of(
                clips[heard(clips)[j]],
            ) is Some,
        forall|j: int, k: int|
            #![trigger heard(clips)[j], heard(clips)[k]]
            0 <= j < k < heard(clips).len() ==> heard(clips)[j] < heard(clips)[k],
        forall|i: int|
            0 <= i < clips.len() && clip::file_of(#[trigger] clips[i]) is Some ==> heard(
                clips,
            ).contains(i),
    decreases clips.len(),
{
    if clips.len() > 0 {
        let rest = clips.drop_last();
        let (before, now) = (heard(rest), heard(clips));
        clips_with_a_file_are_heard(rest);
        assert forall|j: int| #![trigger now[j]] 0 <= j < now.len() implies 0 <= now[j]
            < clips.len() && clip::file_of(clips[now[j]]) is Some by {
            if j < before.len() {
                assert(now[j] == before[j]);
                assert(rest[before[j]] == clips[before[j]]);
            }
        }
        assert forall|j: int, k: int|
            #![trigger now[j], now[k]]
            0 <= j < k < now.len() implies now[j] < now[k] by {
            assert(now[j] == before[j]);
            if k < before.len() {
                assert(now[k] == before[k]);
            }
        }
        assert forall|i: int|
            0 <= i < clips.len() && clip::file_of(#[trigger] clips[i]) is Some implies now.contains(
            i,
        ) by {
            if i < rest.len() {
                assert(rest[i] == clips[i]);
                let j = choose|j: int| 0 <= j < before.len() && before[j] == i;
                assert(now[j] == i);
            } else {
                assert(now[now.len() - 1] == i);
            }
        }
    }
}

/// Every mix track reads the file of its clip.
pub proof fn mix_tracks_read_files<F: Fn(&AnimatedValue) -> F64>(
    t: TrackState,
    sources: Seq<Opened>,
    eval: F,
    mix: Seq<AudioTrack>,
    j: int,
)
    requires
        are_mix_tracks(t, sources, eval, mix),
        0 <= j < mix.len(),
    ensures
        clip::file_of(t.clips[heard(t.clips)[j]]) == Some(mix[j].source),
{
    clips_with_a_file_are_heard(t.clips);
    let k = heard(t.clips)[j];
    assert(is_mix_track(t.clips[k], t, sources[k], eval, mix[j]));
}

/// A video track that is not active adds no layer to the export; any other adds one for each
/// of its clips.
pub proof fn inactive_tracks_add_nothing<F: Fn(&AnimatedValue) -> F64>(
    d: Document,
    sources: Seq<Seq<Opened>>,
    eval: F,
    layers: Seq<VideoLayer<AnimatedValue>>,
    k: int,
)
    requires
        is_stack(d, sources, eval, layers),
        0 <= k < d.video.len(),
    ensures
        layers_of(d.video, k, layers).len() == (if track::active(
            d.video[k],
            track::any_solo(d.video),
        ) {
            d.video[k].clips.len()
        } else {
            0
        }),
{
    layers_grow(d.video, k, k + 1);
    layers_grow(d.video, k + 1, d.video.len() as int);
}

/// Markers are not rendered: preview, picture and sound are those of the document without them.
pub proof fn markers_are_not_rendered<F: Fn(&AnimatedValue) -> F64>(
    d: Document,
    bare: Document,
    eval: F,
    sources: Seq<Seq<Opened>>,
    scene: Scene,
    stack: Seq<VideoLayer<AnimatedValue>>,
    mix: Seq<AudioTrack>,
)
    requires
        bare == (Document { markers: Seq::empty(), ..d }),
    ensures
        scene::is_scene(d, eval, scene) == scene::is_scene(bare, eval, scene),
        is_stack(d, sources, eval, stack) == is_stack(bare, sources, eval, stack),
        is_mix(d, sources, eval, mix) == is_mix(bare, sources, eval, mix),
{
}

/// Where an export stands.
#[derive(Clone, Copy, Debug, PartialEq, Eq, Structural)]
pub enum ExportStage {
    /// The picture is being drained.
    Video,
    /// The sound is being drained.
    Audio,
    /// Nothing more is to be done.
    Over,
}

/// What happened outside since the last action.
#[derive(Clone, Copy, Debug, PartialEq, Eq, Structural)]
pub enum ExportEvent {
    /// A video frame came, the encoder has taken it, and the caller wants to go on.
    Frame,
    /// A video frame came, the encoder has taken it, and the caller wants to stop.
    Stopped,
    /// A chunk of sound of this length came, and the encoder has taken it.
    Chunk(Duration),
    /// The graph that was asked has nothing more to give.
    Drained,
}

/// What to do outside.
#[derive(Clone, Copy, Debug, PartialEq, Eq, Structural)]
pub enum ExportAct {
    /// Set the video graph's clock to the time of output `frame`, and ask for a frame.
    PullVideo { frame: u32 },
    /// Set the audio graph's clock to `at`, and ask for a chunk.
    PullAudio { at: Duration },
    /// Flush the encoder: the export is complete.
    Finish,
    /// Give the export up: the caller stopped it.
    Cancel,
}

/// An export: all of the picture, then all of the sound.
#[derive(Clone, Copy, Debug, PartialEq, Eq, Structural)]
pub struct Export {
    /// Whether there is a sound to drain.
    pub sound: bool,
    /// Where the export stands.
    pub stage: ExportStage,
    /// How many video frames the encoder has taken.
    pub video_idx: u32,
    /// How much sound the encoder has taken.
    pub audio_pts: Duration,
}

/// Whether something can happen at a stage.
pub open spec fn can_come(stage: ExportStage, e: ExportEvent) -> bool {
    match e {
        ExportEvent::Frame => stage == ExportStage::Video,
        ExportEvent::Stopped => stage == ExportStage::Video,
        ExportEvent::Chunk(_) => stage == ExportStage::Audio,
        ExportEvent::Drained => stage != ExportStage::Over,
    }
}

/// An export after something has happened.
pub open spec fn after(export: Export, e: ExportEvent) -> Export {
    Export {
        stage: match e {
            ExportEvent::Stopped => ExportStage::Over,
            ExportEvent::Drained if export.stage == ExportStage::Video && export.sound =>
                ExportStage::Audio,
            ExportEvent::Drained => ExportStage::Over,
            _ => export.stage,
        },
        video_idx: if (e == ExportEvent::Frame || e == ExportEvent::Stopped) && export.video_idx
            < u32::MAX {
            (export.video_idx + 1) as u32
        } else {
            export.video_idx
        },
        audio_pts: match e {
            ExportEvent::Chunk(d) => time::later(export.audio_pts, d),
            _ => export.audio_pts,
        },
        ..export
    }
}

/// What an export that goes on asks for.
pub open spec fn asks(export: Export) -> ExportAct {
    match export.stage {
        ExportStage::Video => ExportAct::PullVideo { frame: export.video_idx },
        ExportStage::Audio => ExportAct::PullAudio { at: export.audio_pts },
        ExportStage::Over => ExportAct::Finish,
    }
}

impl Export {
    /// An export with or without a picture and a sound, and its first action.
    pub fn begin(picture: bool, sound: bool) -> (r: (Export, ExportAct))
        ensures
            r.0 == (Export {
                sound,
                stage: if picture {
                    ExportStage::Video
                } else if sound {
                    ExportStage::Audio
                } else {
                    ExportStage::Over
                },
                video_idx: 0,
                audio_pts: Duration { nanos: 0 },
            }),
            r.1 == asks(r.0),
    {
        let stage = if picture {
            ExportStage::Video
        } else if sound {
            ExportStage::Audio
        } else {
            ExportStage::Over
        };
        let export = Export { sound, stage, video_idx: 0, audio_pts: Duration::zero() };
        (export, export.next())
    }

    fn next(&self) -> (r: ExportAct)
        ensures
            r == asks(*self),
    {
        match self.stage {
            ExportStage::Video => ExportAct::PullVideo { frame: self.video_idx },
            ExportStage::Audio => ExportAct::PullAudio { at: self.audio_pts },
            ExportStage::Over => ExportAct::Finish,
        }
    }

    /// Takes in what happened and says what to do next. The sound together must be a span of
    /// time.
    pub fn step(&mut self, e: ExportEvent) -> (r: ExportAct)
        requires
            can_come(old(self).stage, e),
            e matches ExportEvent::Chunk(d) ==> old(self).audio_pts.nanos + d.nanos
                <= time::MAX_NANOS,
        ensures
            *final(self) == after(*old(self), e),
            r == if e == ExportEvent::Stopped {
                ExportAct::Cancel
            } else {
                asks(*final(self))
            },
    {
        match e {
            ExportEvent::Frame => {
                self.video_idx = self.video_idx.saturating_add(1);
            },
            ExportEvent::Stopped => {
                self.video_idx = self.video_idx.saturating_add(1);
                self.stage = ExportStage::Over;
                return ExportAct::Cancel;
            },
            ExportEvent::Chunk(d) => {
                self.audio_pts = self.audio_pts.saturating_add(d);
            },
            ExportEvent::Drained => {
                self.stage = match self.stage {
                    ExportStage::Video if self.sound => ExportStage::Audio,
                    _ => ExportStage::Over,
                };
            },
        }
        self.next()
    }
}

/// An export after all of some events.
pub open spec fn after_all(export: Export, events: Seq<ExportEvent>) -> Export
    decreases events.len(),
{
    if events.len() == 0 {
        export
    } else {
        after(after_all(export, events.drop_last()), events.last())
    }
}

/// How many of some events are video frames.
pub open spec fn frames_among(events: Seq<ExportEvent>) -> nat
    decreases events.len(),
{
    if events.len() == 0 {
        0
    } else {
        let e = events.last();
        frames_among(events.drop_last()) + if e == ExportEvent::Frame || e
            == ExportEvent::Stopped {
            1nat
        } else {
            0nat
        }
    }
}

/// The nanoseconds of sound among some events.
pub open spec fn sound_among(events: Seq<ExportEvent>) -> nat
    decreases events.len(),
{
    if events.len() == 0 {
        0
    } else {
        sound_among(events.drop_last()) + match events.last() {
            ExportEvent::Chunk(d) => d.nanos as nat,
            _ => 0nat,
        }
    }
}

/// The clocks of an export follow what the encoder took: it has counted every video frame, up
/// to the largest count, and its sound clock stands where the chunks end.
pub proof fn clocks_follow_the_encoder(start: Export, events: Seq<ExportEvent>)
    requires
        start.video_idx == 0,
        start.audio_pts.nanos == 0,
        sound_among(events) <= time::MAX_NANOS,
    ensures
        after_all(start, events).video_idx as nat == if frames_among(events) <= u32::MAX {
            frames_among(events)
        } else {
            u32::MAX as nat
        },
        after_all(start, events).audio_pts.nanos == sound_among(events),
    decreases events.len(),
{
    if events.len() > 0 {
        clocks_follow_the_encoder(start, events.drop_last());
    }
}

/// The sound comes after the picture: once the sound is asked for, or the export is over, no
/// more of the picture can come.
pub proof fn picture_comes_first(export: Export, e: ExportEvent)
    requires
        can_come(export.stage, e),
        after(export, e).stage == ExportStage::Video,
    ensures
        export.stage == ExportStage::Video,
        e == ExportEvent::Frame,
{
}

} // verus!

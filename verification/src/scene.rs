//! The timeline as the real-time preview plays it: a projection of the model that reads no
//! media.

use vstd::prelude::*;

use crate::clip::{Clip, ClipSource};
use crate::derive::{
    audio_pan, audio_pitch, audio_volume, effect_starts, realtime_descriptor, AudioTrack,
    RealtimeLayerDescriptor,
};
use crate::filter::{AnimatedValue, AnimationTrack};
use crate::float::double;
use crate::float::double::F64;
use crate::float::single;
use crate::float::single::F32;
use crate::float::values;
use crate::time::Duration;
use crate::timeline::{Document, Timeline};
use crate::track;
use crate::track::{Track, TrackAutomation, TrackState};

verus! {

/// A video clip as the preview plays it.
#[derive(Debug, PartialEq)]
pub struct ScenePlacement {
    pub source: ClipSource,
    pub timeline_offset: Duration,
    pub in_point: Duration,
    pub out_point: Option<Duration>,
    pub speed: F64,
    pub transition_dur: Duration,
    pub opacity: F32,
    pub layer: RealtimeLayerDescriptor<AnimatedValue>,
    pub fade_in: Duration,
    pub fade_out: Duration,
    pub volume_db: F64,
    pub volume_track: Option<AnimationTrack>,
}

/// An audio clip as the preview plays it.
#[derive(Debug, PartialEq)]
pub struct SceneAudioPlacement {
    pub source: ClipSource,
    pub timeline_offset: Duration,
    pub in_point: Duration,
    pub out_point: Option<Duration>,
    pub fade_in: Duration,
    pub fade_out: Duration,
    pub volume_db: F64,
    pub volume_track: Option<AnimationTrack>,
    pub pan: AnimatedValue,
    pub pitch: F64,
}

/// A video track as the preview plays it.
#[derive(Debug, PartialEq)]
pub struct SceneVideoTrack {
    pub placements: Vec<ScenePlacement>,
}

/// An audio track as the preview plays it.
#[derive(Debug, PartialEq)]
pub struct SceneAudioTrack {
    pub placements: Vec<SceneAudioPlacement>,
}

/// A timeline as the preview plays it.
#[derive(Debug, PartialEq)]
pub struct Scene {
    pub fps: F64,
    pub canvas: Option<(u32, u32)>,
    pub video_tracks: Vec<SceneVideoTrack>,
    pub audio_tracks: Vec<SceneAudioTrack>,
}

/// Where a clip's source starts.
pub open spec fn start_of(clip: Clip) -> Duration {
    match clip.in_point {
        Some(p) => p,
        None => Duration { nanos: 0 },
    }
}

/// The volume of a clip as the preview takes it: a constant, and the keyframes that stand above
/// it, of the same merge that the mix takes.
pub open spec fn volume_at_rest(clip: Clip, automation: TrackAutomation) -> F64 {
    match crate::derive::volume_of(clip, automation) {
        AnimatedValue::Static(v) => v,
        AnimatedValue::Track(_) => clip.volume_db,
    }
}

/// The keyframes of a clip's merged volume, if it has any.
pub open spec fn volume_keys(clip: Clip, automation: TrackAutomation) -> Option<AnimationTrack> {
    match crate::derive::volume_of(clip, automation) {
        AnimatedValue::Static(_) => None,
        AnimatedValue::Track(t) => Some(t),
    }
}

/// The volume that a constant and keyframes above it make.
pub open spec fn played_volume(level: F64, keys: Option<AnimationTrack>) -> AnimatedValue {
    match keys {
        Some(t) => AnimatedValue::Track(t),
        None => AnimatedValue::Static(level),
    }
}

/// Whether `p` is a video clip as the preview plays it. Transitions run on the base track
/// alone.
pub open spec fn plays_as<F: Fn(&AnimatedValue) -> F64>(
    clip: Clip,
    is_base: bool,
    automation: TrackAutomation,
    canvas: (u32, u32),
    eval: F,
    p: ScenePlacement,
) -> bool {
    &&& p.source == clip.source
    &&& p.timeline_offset == clip.offset
    &&& p.in_point == start_of(clip)
    &&& p.out_point == clip.out_point
    &&& p.speed == double::greater_of(clip.speed, F64 { bits: values::HUNDREDTH })
    &&& p.transition_dur == (if is_base && clip.transition is Some {
        clip.transition_duration
    } else {
        Duration { nanos: 0 }
    })
    &&& p.opacity == single::held(
        clip.opacity,
        F32 { bits: values::S_ZERO },
        F32 { bits: values::S_ONE },
    )
    &&& exists|starts: Seq<F64>| #[trigger]
        crate::derive::starts_sampled(clip, eval, starts) && crate::derive::is_preview_layer(
            clip,
            automation,
            canvas.0,
            canvas.1,
            starts,
            p.layer,
        )
    &&& p.fade_in == clip.fade_in
    &&& p.fade_out == clip.fade_out
    &&& p.volume_db == volume_at_rest(clip, automation)
    &&& p.volume_track == volume_keys(clip, automation)
}

/// An audio clip as the preview plays it, where `start` is the value at time zero of its pitch
/// keyframes.
pub open spec fn sounds_as(
    clip: Clip,
    automation: TrackAutomation,
    start: F64,
) -> SceneAudioPlacement {
    SceneAudioPlacement {
        source: clip.source,
        timeline_offset: clip.offset,
        in_point: start_of(clip),
        out_point: clip.out_point,
        fade_in: clip.fade_in,
        fade_out: clip.fade_out,
        volume_db: volume_at_rest(clip, automation),
        volume_track: volume_keys(clip, automation),
        pan: crate::derive::pan_of(clip, automation),
        pitch: crate::derive::pitch_of(clip, start),
    }
}

/// Whether `p` is an audio clip as the preview plays it.
pub open spec fn heard_as<F: Fn(&AnimatedValue) -> F64>(
    clip: Clip,
    automation: TrackAutomation,
    eval: F,
    p: SceneAudioPlacement,
) -> bool {
    exists|start: F64|
        (clip.pitch_track matches Some(t) ==> eval.ensures((&AnimatedValue::Track(t),), start))
            && p == #[trigger] sounds_as(clip, automation, start)
}

/// The clips that a track contributes: all of them, or none where it is not active.
pub open spec fn contributed(tracks: Seq<TrackState>, k: int) -> Seq<Clip> {
    if track::active(tracks[k], track::any_solo(tracks)) {
        tracks[k].clips
    } else {
        Seq::empty()
    }
}

/// Whether `t` is the video track at `k` as the preview plays it.
pub open spec fn video_track_plays<F: Fn(&AnimatedValue) -> F64>(
    d: Document,
    k: int,
    eval: F,
    t: SceneVideoTrack,
) -> bool {
    let clips = contributed(d.video, k);
    &&& t.placements@.len() == clips.len()
    &&& forall|i: int|
        #![trigger t.placements@[i]]
        0 <= i < clips.len() ==> plays_as(
            clips[i],
            k == 0,
            d.video[k].automation,
            (d.canvas_width, d.canvas_height),
            eval,
            t.placements@[i],
        )
}

/// Whether `t` is the audio track at `k` as the preview plays it.
pub open spec fn audio_track_plays<F: Fn(&AnimatedValue) -> F64>(
    d: Document,
    k: int,
    eval: F,
    t: SceneAudioTrack,
) -> bool {
    let clips = contributed(d.audio, k);
    &&& t.placements@.len() == clips.len()
    &&& forall|i: int|
        #![trigger t.placements@[i]]
        0 <= i < clips.len() ==> heard_as(
            clips[i],
            d.audio[k].automation,
            eval,
            t.placements@[i],
        )
}

/// Whether `s` is a timeline as the preview plays it; `eval` gives animations' values at time
/// zero.
pub open spec fn is_scene<F: Fn(&AnimatedValue) -> F64>(d: Document, eval: F, s: Scene) -> bool {
    &&& s.fps == double::greater_of(d.frame_rate, F64 { bits: values::ONE })
    &&& s.canvas == (if d.canvas_explicit {
        Some((d.canvas_width, d.canvas_height))
    } else {
        None
    })
    &&& s.video_tracks@.len() == d.video.len()
    &&& forall|k: int|
        #![trigger s.video_tracks@[k]]
        0 <= k < d.video.len() ==> video_track_plays(d, k, eval, s.video_tracks@[k])
    &&& s.audio_tracks@.len() == d.audio.len()
    &&& forall|k: int|
        #![trigger s.audio_tracks@[k]]
        0 <= k < d.audio.len() ==> audio_track_plays(d, k, eval, s.audio_tracks@[k])
}

fn start(clip: &Clip) -> (r: Duration)
    ensures
        r == start_of(*clip),
{
    match clip.in_point {
        Some(p) => p,
        None => Duration::zero(),
    }
}

fn volume(clip: &Clip, automation: &TrackAutomation) -> (r: (F64, Option<AnimationTrack>))
    ensures
        r.0 == volume_at_rest(*clip, *automation),
        r.1 == volume_keys(*clip, *automation),
{
    match audio_volume(clip, automation) {
        AnimatedValue::Static(v) => (v, None),
        AnimatedValue::Track(t) => (clip.volume_db, Some(t)),
    }
}

/// A video clip as the preview plays it; `is_base` says whether its track is the bottom one.
pub fn video_placement<F: Fn(&AnimatedValue) -> F64>(
    clip: &Clip,
    is_base: bool,
    automation: &TrackAutomation,
    canvas: (u32, u32),
    eval: &F,
) -> (r: ScenePlacement)
    requires
        forall|v: AnimatedValue| #[trigger] eval.requires((&v,)),
    ensures
        plays_as(*clip, is_base, *automation, canvas, *eval, r),
        r.source == clip.source,
        r.timeline_offset == clip.offset,
        r.in_point.nanos == (match clip.in_point {
            Some(p) => p.nanos,
            None => 0,
        }),
        r.out_point == clip.out_point,
        r.fade_in == clip.fade_in,
        r.fade_out == clip.fade_out,
{
    let transition_dur = if is_base && clip.transition.is_some() {
        clip.transition_duration
    } else {
        Duration::zero()
    };
    let starts = effect_starts(clip, eval);
    let layer = realtime_descriptor(clip, automation, canvas.0, canvas.1, &starts);
    let (volume_db, volume_track) = volume(clip, automation);
    ScenePlacement {
        source: clip.source.clone(),
        timeline_offset: clip.offset,
        in_point: start(clip),
        out_point: clip.out_point,
        speed: clip.speed.max(F64 { bits: values::HUNDREDTH }),
        transition_dur,
        opacity: clip.opacity.clamp(
            F32 { bits: values::S_ZERO },
            F32 { bits: values::S_ONE },
        ),
        layer,
        fade_in: clip.fade_in,
        fade_out: clip.fade_out,
        volume_db,
        volume_track,
    }
}

/// An audio clip as the preview plays it.
pub fn audio_placement<F: Fn(&AnimatedValue) -> F64>(
    clip: &Clip,
    automation: &TrackAutomation,
    eval: &F,
) -> (r: SceneAudioPlacement)
    requires
        forall|v: AnimatedValue| #[trigger] eval.requires((&v,)),
    ensures
        heard_as(*clip, *automation, *eval, r),
        r.source == clip.source,
        r.timeline_offset == clip.offset,
        r.in_point.nanos == (match clip.in_point {
            Some(p) => p.nanos,
            None => 0,
        }),
        r.out_point == clip.out_point,
        r.fade_in == clip.fade_in,
        r.fade_out == clip.fade_out,
{
    let at_zero = match &clip.pitch_track {
        Some(t) => {
            let animation = AnimatedValue::Track(t.clone());
            eval(&animation)
        },
        None => F64 { bits: values::ZERO },
    };
    let (volume_db, volume_track) = volume(clip, automation);
    let r = SceneAudioPlacement {
        source: clip.source.clone(),
        timeline_offset: clip.offset,
        in_point: start(clip),
        out_point: clip.out_point,
        fade_in: clip.fade_in,
        fade_out: clip.fade_out,
        volume_db,
        volume_track,
        pan: audio_pan(clip, automation),
        pitch: audio_pitch(clip, at_zero),
    };
    assert(r == sounds_as(*clip, *automation, at_zero));
    r
}

fn video_placements<F: Fn(&AnimatedValue) -> F64>(
    t: &Track,
    is_base: bool,
    canvas: (u32, u32),
    eval: &F,
) -> (r: Vec<ScenePlacement>)
    requires
        forall|v: AnimatedValue| #[trigger] eval.requires((&v,)),
    ensures
        r@.len() == t.clips@.len(),
        forall|i: int|
            #![trigger r@[i]]
            0 <= i < r@.len() ==> plays_as(
                t.clips@[i],
                is_base,
                t.automation,
                canvas,
                *eval,
                r@[i],
            ),
{
    let mut placements: Vec<ScenePlacement> = Vec::new();
    let mut i: usize = 0;
    while i < t.clips.len()
        invariant
            i <= t.clips@.len(),
            forall|v: AnimatedValue| #[trigger] eval.requires((&v,)),
            placements@.len() == i,
            forall|j: int|
                #![trigger placements@[j]]
                0 <= j < i ==> plays_as(
                    t.clips@[j],
                    is_base,
                    t.automation,
                    canvas,
                    *eval,
                    placements@[j],
                ),
        decreases t.clips@.len() - i,
    {
        placements.push(video_placement(&t.clips[i], is_base, &t.automation, canvas, eval));
        i = i + 1;
    }
    placements
}

fn audio_placements<F: Fn(&AnimatedValue) -> F64>(t: &Track, eval: &F) -> (r: Vec<
    SceneAudioPlacement,
>)
    requires
        forall|v: AnimatedValue| #[trigger] eval.requires((&v,)),
    ensures
        r@.len() == t.clips@.len(),
        forall|i: int|
            #![trigger r@[i]]
            0 <= i < r@.len() ==> heard_as(t.clips@[i], t.automation, *eval, r@[i]),
{
    let mut placements: Vec<SceneAudioPlacement> = Vec::new();
    let mut i: usize = 0;
    while i < t.clips.len()
        invariant
            i <= t.clips@.len(),
            forall|v: AnimatedValue| #[trigger] eval.requires((&v,)),
            placements@.len() == i,
            forall|j: int|
                #![trigger placements@[j]]
                0 <= j < i ==> heard_as(t.clips@[j], t.automation, *eval, placements@[j]),
        decreases t.clips@.len() - i,
    {
        placements.push(audio_placement(&t.clips[i], &t.automation, eval));
        i = i + 1;
    }
    placements
}

impl Timeline {
    /// The timeline as the preview plays it; `eval` gives the value of an animation at time
    /// zero.
    ///
    /// Every track keeps its position, and one that is not active plays nothing. The bottom
    /// video track is the base, where transitions run; on the others they are off.
    pub fn to_scene<F: Fn(&AnimatedValue) -> F64>(&self, eval: &F) -> (r: Scene)
        requires
            forall|v: AnimatedValue| #[trigger] eval.requires((&v,)),
        ensures
            is_scene(self@, *eval, r),
    {
        let ghost d = self@;
        let canvas: (u32, u32) = (self.canvas_width, self.canvas_height);
        let video_solo = track::has_solo(&self.video_tracks);
        let mut video_tracks: Vec<SceneVideoTrack> = Vec::new();
        let mut k: usize = 0;
        while k < self.video_tracks.len()
            invariant
                k <= self.video_tracks@.len(),
                forall|v: AnimatedValue| #[trigger] eval.requires((&v,)),
                d == self@,
                canvas == (d.canvas_width, d.canvas_height),
                video_solo == track::any_solo(d.video),
                video_tracks@.len() == k,
                forall|j: int|
                    #![trigger video_tracks@[j]]
                    0 <= j < k ==> video_track_plays(d, j, *eval, video_tracks@[j]),
            decreases self.video_tracks@.len() - k,
        {
            let t = &self.video_tracks[k];
            assert(d.video[k as int] == t@);
            let placements: Vec<ScenePlacement> = if t.is_active(video_solo) {
                video_placements(t, k == 0, canvas, eval)
            } else {
                Vec::new()
            };
            video_tracks.push(SceneVideoTrack { placements });
            k = k + 1;
        }
        let audio_solo = track::has_solo(&self.audio_tracks);
        let mut audio_tracks: Vec<SceneAudioTrack> = Vec::new();
        k = 0;
        while k < self.audio_tracks.len()
            invariant
                k <= self.audio_tracks@.len(),
                forall|v: AnimatedValue| #[trigger] eval.requires((&v,)),
                d == self@,
                audio_solo == track::any_solo(d.audio),
                audio_tracks@.len() == k,
                forall|j: int|
                    #![trigger audio_tracks@[j]]
                    0 <= j < k ==> audio_track_plays(d, j, *eval, audio_tracks@[j]),
            decreases self.audio_tracks@.len() - k,
        {
            let t = &self.audio_tracks[k];
            assert(d.audio[k as int] == t@);
            let placements: Vec<SceneAudioPlacement> = if t.is_active(audio_solo) {
                audio_placements(t, eval)
            } else {
                Vec::new()
            };
            audio_tracks.push(SceneAudioTrack { placements });
            k = k + 1;
        }
        Scene {
            fps: self.frame_rate.max(F64 { bits: values::ONE }),
            canvas: self.explicit_canvas(),
            video_tracks,
            audio_tracks,
        }
    }
}

/// A track that is not active plays nothing, wherever it stands and whatever it holds.
pub proof fn inactive_tracks_are_silent<F: Fn(&AnimatedValue) -> F64>(
    d: Document,
    eval: F,
    s: Scene,
    k: int,
)
    requires
        is_scene(d, eval, s),
    ensures
        0 <= k < d.video.len() && !track::active(d.video[k], track::any_solo(d.video))
            ==> s.video_tracks@[k].placements@.len() == 0,
        0 <= k < d.audio.len() && !track::active(d.audio[k], track::any_solo(d.audio))
            ==> s.audio_tracks@[k].placements@.len() == 0,
{
    if 0 <= k < d.video.len() {
        assert(video_track_plays(d, k, eval, s.video_tracks@[k]));
    }
    if 0 <= k < d.audio.len() {
        assert(audio_track_plays(d, k, eval, s.audio_tracks@[k]));
    }
}

/// Transitions run on the base track alone: on every other track they take no time.
pub proof fn overlays_do_not_transition<F: Fn(&AnimatedValue) -> F64>(
    d: Document,
    eval: F,
    s: Scene,
    k: int,
    i: int,
)
    requires
        is_scene(d, eval, s),
        0 < k < d.video.len(),
        0 <= i < s.video_tracks@[k].placements@.len(),
    ensures
        s.video_tracks@[k].placements@[i].transition_dur == (Duration { nanos: 0 }),
{
    let t = s.video_tracks@[k];
    assert(video_track_plays(d, k, eval, t));
    let p = t.placements@[i];
}

/// Preview and export sound alike: whatever the preview takes for the volume and the pan of a
/// clip, the mix takes; and so for a constant pitch.
pub proof fn preview_and_mix_sound_alike<F: Fn(&AnimatedValue) -> F64>(
    clip: Clip,
    automation: TrackAutomation,
    eval: F,
    p: SceneAudioPlacement,
    length: Option<Duration>,
    start: F64,
    starts: Seq<F64>,
    m: AudioTrack,
)
    requires
        heard_as(clip, automation, eval, p),
        crate::derive::is_audio_track(clip, automation, length, start, starts, m),
    ensures
        played_volume(p.volume_db, p.volume_track) == m.volume,
        p.pan == m.pan,
        clip.pitch_track is None ==> p.pitch == crate::derive::pitch_of(clip, start),
{
}

/// A clip on a video track sounds in the preview as its merged volume says.
pub proof fn preview_takes_the_merged_volume<F: Fn(&AnimatedValue) -> F64>(
    clip: Clip,
    is_base: bool,
    automation: TrackAutomation,
    canvas: (u32, u32),
    eval: F,
    p: ScenePlacement,
)
    requires
        plays_as(clip, is_base, automation, canvas, eval, p),
    ensures
        played_volume(p.volume_db, p.volume_track) == crate::derive::volume_of(clip, automation),
{
}

} // verus!

//! The timeline document: tracks of clips, markers, canvas and frame rate, and the counters
//! that fresh ids come from.

use std::sync::Arc;

use vstd::prelude::*;

use crate::clip::{copy_text, Clip, ClipSource};
use crate::error::TimelineError;
use crate::filter::{share, AnimationTrack};
use crate::float::double::F64;
use crate::float::values;
use crate::ids::{ClipId, TrackId};
use crate::keys;
use crate::keys::NamedAnimation;
use crate::marker::Marker;
use crate::track;
use crate::track::{
    copy_tracks, AudioProperty, Track, TrackAutomation, TrackState, VideoProperty,
};

verus! {

/// An ordered layout of clips across video and audio tracks.
#[derive(Debug, PartialEq)]
pub struct Timeline {
    /// Canvas width in pixels.
    pub canvas_width: u32,
    /// Canvas height in pixels.
    pub canvas_height: u32,
    /// Whether the canvas was asked for, as opposed to read off the first clip.
    pub canvas_explicit: bool,
    /// Frames per second.
    pub frame_rate: F64,
    /// Video tracks, the bottom layer first.
    pub video_tracks: Vec<Track>,
    /// Audio tracks.
    pub audio_tracks: Vec<Track>,
    /// Markers, in the order they were added.
    pub markers: Vec<Marker>,
    /// The video animations by the names they were registered under.
    pub video_animations: Arc<Vec<NamedAnimation>>,
    /// The audio animations by the names they were registered under.
    pub audio_animations: Arc<Vec<NamedAnimation>>,
    /// A filter graph composited above all video tracks.
    pub lavfi_overlay: Option<String>,
    /// The next clip id to hand out.
    pub next_clip_id: u64,
    /// The next track id to hand out.
    pub next_track_id: u64,
    /// The next group id to hand out.
    pub next_group_id: u64,
    /// The next marker id to hand out.
    pub next_marker_id: u64,
}

/// What a timeline holds.
pub struct Document {
    pub canvas_width: u32,
    pub canvas_height: u32,
    pub canvas_explicit: bool,
    pub frame_rate: F64,
    pub video: Seq<TrackState>,
    pub audio: Seq<TrackState>,
    pub markers: Seq<Marker>,
    pub video_animations: Arc<Vec<NamedAnimation>>,
    pub audio_animations: Arc<Vec<NamedAnimation>>,
    pub lavfi_overlay: Option<String>,
    pub next_clip_id: u64,
    pub next_track_id: u64,
    pub next_group_id: u64,
    pub next_marker_id: u64,
}

impl View for Timeline {
    type V = Document;

    open spec fn view(&self) -> Document {
        Document {
            canvas_width: self.canvas_width,
            canvas_height: self.canvas_height,
            canvas_explicit: self.canvas_explicit,
            frame_rate: self.frame_rate,
            video: track::states(self.video_tracks@),
            audio: track::states(self.audio_tracks@),
            markers: self.markers@,
            video_animations: self.video_animations,
            audio_animations: self.audio_animations,
            lavfi_overlay: self.lavfi_overlay,
            next_clip_id: self.next_clip_id,
            next_track_id: self.next_track_id,
            next_group_id: self.next_group_id,
            next_marker_id: self.next_marker_id,
        }
    }
}

/// Every track of a document, video first.
pub open spec fn all_tracks(d: Document) -> Seq<TrackState> {
    d.video + d.audio
}

/// Whether every clip id is set, below `next`, and carried by one clip only.
pub open spec fn clips_numbered(tracks: Seq<TrackState>, next: u64) -> bool {
    &&& forall|a: int, i: int|
        0 <= a < tracks.len() && 0 <= i < tracks[a].clips.len() ==> 0 < (
        #[trigger] tracks[a].clips[i]).id.0 < next
    &&& forall|a: int, i: int, b: int, j: int|
        #![trigger tracks[a].clips[i], tracks[b].clips[j]]
        0 <= a < tracks.len() && 0 <= i < tracks[a].clips.len() && 0 <= b < tracks.len() && 0 <= j
            < tracks[b].clips.len() && tracks[a].clips[i].id == tracks[b].clips[j].id ==> a == b
            && i == j
}

/// Whether every track id is set, below `next`, and carried by one track only.
pub open spec fn tracks_numbered(tracks: Seq<TrackState>, next: u64) -> bool {
    &&& forall|a: int| 0 <= a < tracks.len() ==> 0 < (#[trigger] tracks[a]).id.0 < next
    &&& forall|a: int, b: int|
        0 <= a < tracks.len() && 0 <= b < tracks.len() && (#[trigger] tracks[a]).id == (
        #[trigger] tracks[b]).id ==> a == b
}

/// Whether every marker id is set, below `next`, and carried by one marker only.
pub open spec fn markers_numbered(markers: Seq<Marker>, next: u64) -> bool {
    &&& forall|a: int| 0 <= a < markers.len() ==> 0 < (#[trigger] markers[a]).id.0 < next
    &&& forall|a: int, b: int|
        0 <= a < markers.len() && 0 <= b < markers.len() && (#[trigger] markers[a]).id == (
        #[trigger] markers[b]).id ==> a == b
}

/// The identity invariant of a document: ids are set, unique and below their counters.
pub open spec fn well_numbered(d: Document) -> bool {
    &&& clips_numbered(all_tracks(d), d.next_clip_id)
    &&& tracks_numbered(all_tracks(d), d.next_track_id)
    &&& markers_numbered(d.markers, d.next_marker_id)
    &&& d.next_clip_id > 0 && d.next_track_id > 0 && d.next_group_id > 0 && d.next_marker_id > 0
}

/// Copies a list of markers.
fn copy_markers(markers: &Vec<Marker>) -> (r: Vec<Marker>)
    ensures
        r@ == markers@,
{
    let mut copy: Vec<Marker> = Vec::new();
    let mut i: usize = 0;
    while i < markers.len()
        invariant
            i <= markers@.len(),
            copy@ =~= markers@.take(i as int),
        decreases markers@.len() - i,
    {
        copy.push(markers[i].clone());
        i = i + 1;
    }
    assert(markers@.take(i as int) =~= markers@);
    copy
}

impl Clone for Timeline {
    fn clone(&self) -> (r: Self)
        ensures
            r@ == self@,
    {
        Timeline {
            canvas_width: self.canvas_width,
            canvas_height: self.canvas_height,
            canvas_explicit: self.canvas_explicit,
            frame_rate: self.frame_rate,
            video_tracks: copy_tracks(&self.video_tracks),
            audio_tracks: copy_tracks(&self.audio_tracks),
            markers: copy_markers(&self.markers),
            video_animations: share(&self.video_animations),
            audio_animations: share(&self.audio_animations),
            lavfi_overlay: copy_text(&self.lavfi_overlay),
            next_clip_id: self.next_clip_id,
            next_track_id: self.next_track_id,
            next_group_id: self.next_group_id,
            next_marker_id: self.next_marker_id,
        }
    }
}

impl Timeline {
    /// A new builder.
    pub fn builder() -> (r: TimelineBuilder)
        ensures
            empty_builder(r),
    {
        TimelineBuilder::new()
    }

    /// Canvas width in pixels.
    pub fn canvas_width(&self) -> (r: u32)
        ensures
            r == self@.canvas_width,
    {
        self.canvas_width
    }

    /// Canvas height in pixels.
    pub fn canvas_height(&self) -> (r: u32)
        ensures
            r == self@.canvas_height,
    {
        self.canvas_height
    }

    /// The canvas where it was asked for, or `None` where it was read off the first clip.
    pub fn explicit_canvas(&self) -> (r: Option<(u32, u32)>)
        ensures
            r == if self@.canvas_explicit {
                Some((self@.canvas_width, self@.canvas_height))
            } else {
                None
            },
    {
        if self.canvas_explicit {
            Some((self.canvas_width, self.canvas_height))
        } else {
            None
        }
    }

    /// Frames per second.
    pub fn frame_rate(&self) -> (r: F64)
        ensures
            r == self@.frame_rate,
    {
        self.frame_rate
    }

    /// The video tracks, the bottom layer first.
    pub fn video_tracks(&self) -> (r: &[Track])
        ensures
            r@ == self.video_tracks@,
    {
        self.video_tracks.as_slice()
    }

    /// The audio tracks.
    pub fn audio_tracks(&self) -> (r: &[Track])
        ensures
            r@ == self.audio_tracks@,
    {
        self.audio_tracks.as_slice()
    }

    /// The markers, in the order they were added.
    pub fn markers(&self) -> (r: &[Marker])
        ensures
            r@ == self.markers@,
    {
        self.markers.as_slice()
    }
}

/// Builder of a timeline.
pub struct TimelineBuilder {
    pub canvas_width: Option<u32>,
    pub canvas_height: Option<u32>,
    pub frame_rate: Option<F64>,
    pub video_tracks: Vec<Track>,
    pub audio_tracks: Vec<Track>,
    pub video_animations: Vec<NamedAnimation>,
    pub audio_animations: Vec<NamedAnimation>,
    pub lavfi_overlay: Option<String>,
}

/// A builder with nothing set.
pub open spec fn empty_builder(b: TimelineBuilder) -> bool {
    &&& b.canvas_width is None && b.canvas_height is None && b.frame_rate is None
    &&& b.video_tracks@.len() == 0 && b.audio_tracks@.len() == 0
    &&& b.video_animations@.len() == 0 && b.audio_animations@.len() == 0
    &&& b.lavfi_overlay is None
}

/// What the decoder says of the clip that a builder names in
/// [`TimelineBuilder::probe_path`].
#[derive(Debug, PartialEq)]
pub enum Probe {
    /// Nothing was asked.
    Skipped,
    /// The file does not exist.
    Missing,
    /// The file could not be opened, with the decoder's words.
    Failed(String),
    /// The file's size and frame rate.
    Found { width: u32, height: u32, frame_rate: F64 },
}

/// The file whose size and frame rate stand in for values that were not set: the one that
/// the first clip of the first video track shows.
pub open spec fn probed_file(b: TimelineBuilder) -> Option<String> {
    if (b.canvas_width is None || b.canvas_height is None || b.frame_rate is None)
        && b.video_tracks@.len() > 0 && b.video_tracks@[0].clips@.len() > 0 {
        match b.video_tracks@[0].clips@[0].source {
            ClipSource::File(path) => Some(path),
            _ => None,
        }
    } else {
        None
    }
}

/// How many clips the tracks hold.
pub open spec fn clip_count(tracks: Seq<TrackState>) -> nat
    decreases tracks.len(),
{
    if tracks.len() == 0 {
        0
    } else {
        clip_count(tracks.drop_last()) + tracks.last().clips.len()
    }
}

/// The clips with consecutive ids from `first`.
pub open spec fn numbered(clips: Seq<Clip>, first: nat) -> Seq<Clip> {
    Seq::new(clips.len(), |i: int| Clip { id: ClipId((first + i) as u64), ..clips[i] })
}

/// The tracks with consecutive ids from `track`, and their clips with consecutive ids from
/// `clip`.
pub open spec fn stamped(tracks: Seq<TrackState>, track: nat, clip: nat) -> Seq<TrackState> {
    Seq::new(
        tracks.len(),
        |i: int|
            TrackState {
                id: TrackId((track + i) as u64),
                clips: numbered(tracks[i].clips, clip + clip_count(tracks.take(i))),
                ..tracks[i]
            },
    )
}

/// What was found, or else what was there.
pub open spec fn or_kept(
    found: Option<AnimationTrack>,
    kept: Option<AnimationTrack>,
) -> Option<AnimationTrack> {
    match found {
        Some(a) => Some(a),
        None => kept,
    }
}

/// The automation of video track `i`, with the animations registered for it.
pub open spec fn automated_video(
    a: TrackAutomation,
    list: Seq<NamedAnimation>,
    i: nat,
) -> TrackAutomation {
    TrackAutomation {
        x: or_kept(keys::animation_at(list, keys::video_key(i, VideoProperty::X)), a.x),
        y: or_kept(keys::animation_at(list, keys::video_key(i, VideoProperty::Y)), a.y),
        scale_x: or_kept(
            keys::animation_at(list, keys::video_key(i, VideoProperty::ScaleX)),
            a.scale_x,
        ),
        scale_y: or_kept(
            keys::animation_at(list, keys::video_key(i, VideoProperty::ScaleY)),
            a.scale_y,
        ),
        rotation: or_kept(
            keys::animation_at(list, keys::video_key(i, VideoProperty::Rotation)),
            a.rotation,
        ),
        opacity: or_kept(
            keys::animation_at(list, keys::video_key(i, VideoProperty::Opacity)),
            a.opacity,
        ),
        ..a
    }
}

/// The automation of audio track `i`, with the animations registered for it.
pub open spec fn automated_audio(
    a: TrackAutomation,
    list: Seq<NamedAnimation>,
    i: nat,
) -> TrackAutomation {
    TrackAutomation {
        volume: or_kept(
            keys::animation_at(list, keys::audio_key(i, AudioProperty::Volume)),
            a.volume,
        ),
        pan: or_kept(keys::animation_at(list, keys::audio_key(i, AudioProperty::Pan)), a.pan),
        ..a
    }
}

/// Video tracks with the animations registered for them.
pub open spec fn video_automated(
    tracks: Seq<TrackState>,
    list: Seq<NamedAnimation>,
) -> Seq<TrackState> {
    Seq::new(
        tracks.len(),
        |i: int|
            TrackState {
                automation: automated_video(tracks[i].automation, list, i as nat),
                ..tracks[i]
            },
    )
}

/// Audio tracks with the animations registered for them.
pub open spec fn audio_automated(
    tracks: Seq<TrackState>,
    list: Seq<NamedAnimation>,
) -> Seq<TrackState> {
    Seq::new(
        tracks.len(),
        |i: int|
            TrackState {
                automation: automated_audio(tracks[i].automation, list, i as nat),
                ..tracks[i]
            },
    )
}

/// The document that a builder makes with the given canvas and frame rate.
pub open spec fn built(b: TimelineBuilder, width: u32, height: u32, fps: F64) -> Document {
    let video = track::states(b.video_tracks@);
    let audio = track::states(b.audio_tracks@);
    let clips = clip_count(video) + clip_count(audio);
    Document {
        canvas_width: width,
        canvas_height: height,
        canvas_explicit: b.canvas_width is Some && b.canvas_height is Some,
        frame_rate: fps,
        video: video_automated(stamped(video, 1, 1), b.video_animations@),
        audio: audio_automated(
            stamped(audio, 1 + video.len(), 1 + clip_count(video)),
            b.audio_animations@,
        ),
        markers: Seq::empty(),
        video_animations: Arc::new(b.video_animations),
        audio_animations: Arc::new(b.audio_animations),
        lavfi_overlay: b.lavfi_overlay,
        next_clip_id: (1 + clips) as u64,
        next_track_id: (1 + video.len() + audio.len()) as u64,
        next_group_id: 1,
        next_marker_id: 1,
    }
}

/// The value that was set, or else the one that was probed.
pub open spec fn or_probed<T>(set: Option<T>, probed: T) -> T {
    match set {
        Some(v) => v,
        None => probed,
    }
}

fn value_or<T: Copy>(set: Option<T>, probed: T) -> (r: T)
    ensures
        r == or_probed(set, probed),
{
    match set {
        Some(v) => v,
        None => probed,
    }
}

/// Counting clips one more track at a time.
proof fn lemma_count_step(tracks: Seq<TrackState>, i: int)
    requires
        0 <= i < tracks.len(),
    ensures
        clip_count(tracks.take(i + 1)) == clip_count(tracks.take(i)) + tracks[i].clips.len(),
{
    assert(tracks.take(i + 1).drop_last() =~= tracks.take(i));
}

/// A prefix holds no more clips than the whole.
proof fn lemma_count_prefix(tracks: Seq<TrackState>, i: int, j: int)
    requires
        0 <= i <= j <= tracks.len(),
    ensures
        clip_count(tracks.take(i)) <= clip_count(tracks.take(j)),
    decreases j - i,
{
    if i < j {
        lemma_count_prefix(tracks, i, j - 1);
        lemma_count_step(tracks, j - 1);
    }
}

fn stamp_clips(clips: &mut Vec<Clip>, first: u64)
    requires
        first + old(clips)@.len() <= u64::MAX,
    ensures
        final(clips)@ == numbered(old(clips)@, first as nat),
{
    let ghost before = clips@;
    let mut i: usize = 0;
    while i < clips.len()
        invariant
            i <= clips@.len(),
            clips@.len() == before.len(),
            first + before.len() <= u64::MAX,
            forall|j: int|
                0 <= j < i ==> clips@[j] == (Clip { id: ClipId((first + j) as u64), ..before[j] }),
            forall|j: int| i <= j < before.len() ==> clips@[j] == before[j],
        decreases clips@.len() - i,
    {
        clips[i].id = ClipId(first + i as u64);
        i = i + 1;
    }
    assert(clips@ =~= numbered(before, first as nat));
}

fn stamp(tracks: &mut Vec<Track>, track: u64, clip: u64)
    requires
        track + old(tracks)@.len() <= u64::MAX,
        clip + clip_count(track::states(old(tracks)@)) <= u64::MAX,
    ensures
        track::states(final(tracks)@) == stamped(
            track::states(old(tracks)@),
            track as nat,
            clip as nat,
        ),
{
    let ghost before = track::states(tracks@);
    let ghost want = stamped(before, track as nat, clip as nat);
    let mut next: u64 = clip;
    let mut i: usize = 0;
    assert(before.take(0) =~= Seq::empty());
    while i < tracks.len()
        invariant
            i <= tracks@.len(),
            tracks@.len() == before.len(),
            want == stamped(before, track as nat, clip as nat),
            track + before.len() <= u64::MAX,
            clip + clip_count(before) <= u64::MAX,
            next == clip + clip_count(before.take(i as int)),
            forall|j: int| 0 <= j < i ==> (#[trigger] tracks@[j])@ == want[j],
            forall|j: int| i <= j < before.len() ==> (#[trigger] tracks@[j])@ == before[j],
        decreases tracks@.len() - i,
    {
        proof {
            lemma_count_step(before, i as int);
            lemma_count_prefix(before, i + 1, before.len() as int);
            assert(before.take(before.len() as int) =~= before);
            assert(tracks@[i as int]@ == before[i as int]);
        }
        let count: u64 = tracks[i].clips.len() as u64;
        tracks[i].id = TrackId(track + i as u64);
        stamp_clips(&mut tracks[i].clips, next);
        next = next + count;
        i = i + 1;
    }
    assert(track::states(tracks@) =~= want);
}

fn or_else_kept(found: Option<AnimationTrack>, kept: &Option<AnimationTrack>) -> (r: Option<
    AnimationTrack,
>)
    ensures
        r == or_kept(found, *kept),
{
    match found {
        Some(a) => Some(a),
        None => crate::filter::copy_track(kept),
    }
}

fn video_slot(
    list: &Vec<NamedAnimation>,
    i: usize,
    p: VideoProperty,
    kept: &Option<AnimationTrack>,
) -> (r: Option<AnimationTrack>)
    ensures
        r == or_kept(keys::animation_at(list@, keys::video_key(i as nat, p)), *kept),
{
    or_else_kept(keys::find_animation(list, &keys::video_key_text(i, p)), kept)
}

fn audio_slot(
    list: &Vec<NamedAnimation>,
    i: usize,
    p: AudioProperty,
    kept: &Option<AnimationTrack>,
) -> (r: Option<AnimationTrack>)
    ensures
        r == or_kept(keys::animation_at(list@, keys::audio_key(i as nat, p)), *kept),
{
    or_else_kept(keys::find_animation(list, &keys::audio_key_text(i, p)), kept)
}

fn automate_video(tracks: &mut Vec<Track>, list: &Vec<NamedAnimation>)
    ensures
        track::states(final(tracks)@) == video_automated(track::states(old(tracks)@), list@),
{
    let ghost before = track::states(tracks@);
    let ghost want = video_automated(before, list@);
    let mut i: usize = 0;
    while i < tracks.len()
        invariant
            i <= tracks@.len(),
            tracks@.len() == before.len(),
            want == video_automated(before, list@),
            forall|j: int| 0 <= j < i ==> (#[trigger] tracks@[j])@ == want[j],
            forall|j: int| i <= j < before.len() ==> (#[trigger] tracks@[j])@ == before[j],
        decreases tracks@.len() - i,
    {
        assert(tracks@[i as int]@ == before[i as int]);
        let a = tracks[i].automation.clone();
        tracks[i].automation =
        TrackAutomation {
            x: video_slot(list, i, VideoProperty::X, &a.x),
            y: video_slot(list, i, VideoProperty::Y, &a.y),
            scale_x: video_slot(list, i, VideoProperty::ScaleX, &a.scale_x),
            scale_y: video_slot(list, i, VideoProperty::ScaleY, &a.scale_y),
            rotation: video_slot(list, i, VideoProperty::Rotation, &a.rotation),
            opacity: video_slot(list, i, VideoProperty::Opacity, &a.opacity),
            volume: a.volume,
            pan: a.pan,
        };
        i = i + 1;
    }
    assert(track::states(tracks@) =~= want);
}

fn automate_audio(tracks: &mut Vec<Track>, list: &Vec<NamedAnimation>)
    ensures
        track::states(final(tracks)@) == audio_automated(track::states(old(tracks)@), list@),
{
    let ghost before = track::states(tracks@);
    let ghost want = audio_automated(before, list@);
    let mut i: usize = 0;
    while i < tracks.len()
        invariant
            i <= tracks@.len(),
            tracks@.len() == before.len(),
            want == audio_automated(before, list@),
            forall|j: int| 0 <= j < i ==> (#[trigger] tracks@[j])@ == want[j],
            forall|j: int| i <= j < before.len() ==> (#[trigger] tracks@[j])@ == before[j],
        decreases tracks@.len() - i,
    {
        assert(tracks@[i as int]@ == before[i as int]);
        let a = tracks[i].automation.clone();
        tracks[i].automation =
        TrackAutomation {
            x: a.x,
            y: a.y,
            scale_x: a.scale_x,
            scale_y: a.scale_y,
            rotation: a.rotation,
            opacity: a.opacity,
            volume: audio_slot(list, i, AudioProperty::Volume, &a.volume),
            pan: audio_slot(list, i, AudioProperty::Pan, &a.pan),
        };
        i = i + 1;
    }
    assert(track::states(tracks@) =~= want);
}

/// How many clips the tracks hold.
fn count_clips(tracks: &Vec<Track>) -> (r: u64)
    requires
        clip_count(track::states(tracks@)) <= u64::MAX,
    ensures
        r == clip_count(track::states(tracks@)),
{
    let ghost all = track::states(tracks@);
    let mut count: u64 = 0;
    let mut i: usize = 0;
    assert(all.take(0) =~= Seq::empty());
    while i < tracks.len()
        invariant
            i <= tracks@.len(),
            all == track::states(tracks@),
            clip_count(all) <= u64::MAX,
            count == clip_count(all.take(i as int)),
        decreases tracks@.len() - i,
    {
        proof {
            lemma_count_step(all, i as int);
            lemma_count_prefix(all, i + 1, all.len() as int);
            assert(all.take(all.len() as int) =~= all);
        }
        count = count + tracks[i].clips.len() as u64;
        i = i + 1;
    }
    assert(all.take(all.len() as int) =~= all);
    count
}

impl Default for TimelineBuilder {
    fn default() -> (r: Self)
        ensures
            empty_builder(r),
    {
        TimelineBuilder::new()
    }
}

impl TimelineBuilder {
    /// A builder with nothing set.
    pub fn new() -> (r: TimelineBuilder)
        ensures
            empty_builder(r),
    {
        TimelineBuilder {
            canvas_width: None,
            canvas_height: None,
            frame_rate: None,
            video_tracks: Vec::new(),
            audio_tracks: Vec::new(),
            video_animations: Vec::new(),
            audio_animations: Vec::new(),
            lavfi_overlay: None,
        }
    }

    /// Sets the canvas in pixels.
    #[must_use]
    pub fn canvas(self, width: u32, height: u32) -> (r: TimelineBuilder)
        ensures
            r == (TimelineBuilder {
                canvas_width: Some(width),
                canvas_height: Some(height),
                ..self
            }),
    {
        let mut b = self;
        b.canvas_width = Some(width);
        b.canvas_height = Some(height);
        b
    }

    /// Sets the frames per second.
    #[must_use]
    pub fn frame_rate(self, fps: F64) -> (r: TimelineBuilder)
        ensures
            r == (TimelineBuilder { frame_rate: Some(fps), ..self }),
    {
        let mut b = self;
        b.frame_rate = Some(fps);
        b
    }

    /// Appends a video track; the first one is the bottom layer.
    #[must_use]
    pub fn video_track(self, clips: Vec<Clip>) -> (r: TimelineBuilder)
        ensures
            r == (TimelineBuilder { video_tracks: r.video_tracks, ..self }),
            r.video_tracks@.len() == self.video_tracks@.len() + 1,
            r.video_tracks@.drop_last() == self.video_tracks@,
            r.video_tracks@.last().clips == clips,
            fresh_track(r.video_tracks@.last()),
    {
        let mut b = self;
        b.video_tracks.push(Track::new(clips));
        assert(b.video_tracks@.drop_last() =~= self.video_tracks@);
        b
    }

    /// Appends an audio track.
    #[must_use]
    pub fn audio_track(self, clips: Vec<Clip>) -> (r: TimelineBuilder)
        ensures
            r == (TimelineBuilder { audio_tracks: r.audio_tracks, ..self }),
            r.audio_tracks@.len() == self.audio_tracks@.len() + 1,
            r.audio_tracks@.drop_last() == self.audio_tracks@,
            r.audio_tracks@.last().clips == clips,
            fresh_track(r.audio_tracks@.last()),
    {
        let mut b = self;
        b.audio_tracks.push(Track::new(clips));
        assert(b.audio_tracks@.drop_last() =~= self.audio_tracks@);
        b
    }

    /// Registers a video animation under a name, in place of what was there.
    ///
    /// A name of the form `video_{track index}_{property}` sets that slot of that track when
    /// the timeline is built. Other names are kept and do nothing.
    #[must_use]
    pub fn video_animation(self, key: String, track: AnimationTrack) -> (r: TimelineBuilder)
        ensures
            r == (TimelineBuilder { video_animations: r.video_animations, ..self }),
            r.video_animations@ == keys::registered(self.video_animations@, key, track),
    {
        let mut b = self;
        b.video_animations = keys::register(b.video_animations, key, track);
        b
    }

    /// Registers an audio animation under a name, in place of what was there.
    ///
    /// A name of the form `audio_{track index}_{property}` sets that slot of that track when
    /// the timeline is built. Other names are kept and do nothing.
    #[must_use]
    pub fn audio_animation(self, key: String, track: AnimationTrack) -> (r: TimelineBuilder)
        ensures
            r == (TimelineBuilder { audio_animations: r.audio_animations, ..self }),
            r.audio_animations@ == keys::registered(self.audio_animations@, key, track),
    {
        let mut b = self;
        b.audio_animations = keys::register(b.audio_animations, key, track);
        b
    }

    /// Sets a filter graph that is composited above all video tracks.
    #[must_use]
    pub fn lavfi_overlay(self, filter: String) -> (r: TimelineBuilder)
        ensures
            r == (TimelineBuilder { lavfi_overlay: Some(filter), ..self }),
    {
        let mut b = self;
        b.lavfi_overlay = Some(filter);
        b
    }

    /// The file to probe before [`build`](Self::build), or `None` where nothing needs
    /// probing: every value is set, or no video clip shows a file to read it off.
    pub fn probe_path(&self) -> (r: Option<String>)
        ensures
            r == probed_file(*self),
    {
        if (self.canvas_width.is_none() || self.canvas_height.is_none()
            || self.frame_rate.is_none()) && self.video_tracks.len() > 0
            && self.video_tracks[0].clips.len() > 0 {
            match &self.video_tracks[0].clips[0].source {
                ClipSource::File(path) => Some(path.clone()),
                _ => None,
            }
        } else {
            None
        }
    }

    /// Builds the timeline.
    ///
    /// `probe` is what the decoder says of [`probe_path`](Self::probe_path). Values that were
    /// set win over probed ones; where there is nothing to probe, what is absent falls back
    /// to a canvas of 1920 by 1080 and 30 frames per second. Tracks and clips are numbered in
    /// order, video first.
    pub fn build(self, probe: Probe) -> (r: Result<Timeline, TimelineError>)
        requires
            probed_file(self) is Some ==> probe !is Skipped,
            1 + self.video_tracks@.len() + self.audio_tracks@.len() <= u64::MAX,
            1 + clip_count(track::states(self.video_tracks@)) + clip_count(
                track::states(self.audio_tracks@),
            )
                <= u64::MAX,
        ensures
            (self.video_tracks@.len() == 0 && self.audio_tracks@.len() == 0) ==> r == Err::<
                Timeline,
                TimelineError,
            >(TimelineError::NoInput),
            !(self.video_tracks@.len() == 0 && self.audio_tracks@.len() == 0) ==> match (
                probed_file(self),
                probe,
            ) {
                (Some(path), Probe::Missing) => r == Err::<Timeline, TimelineError>(
                    TimelineError::ClipNotFound { path },
                ),
                (Some(_), Probe::Failed(m)) => r == Err::<Timeline, TimelineError>(
                    TimelineError::Decode(m),
                ),
                (Some(_), Probe::Found { width, height, frame_rate }) => {
                    &&& r is Ok
                    &&& r->Ok_0@ == built(
                        self,
                        or_probed(self.canvas_width, width),
                        or_probed(self.canvas_height, height),
                        or_probed(self.frame_rate, frame_rate),
                    )
                },
                _ => {
                    &&& r is Ok
                    &&& r->Ok_0@ == built(
                        self,
                        or_probed(self.canvas_width, 1920),
                        or_probed(self.canvas_height, 1080),
                        or_probed(self.frame_rate, F64 { bits: values::THIRTY }),
                    )
                },
            },
    {
        if self.video_tracks.len() == 0 && self.audio_tracks.len() == 0 {
            return Err(TimelineError::NoInput);
        }
        let mut width = value_or(self.canvas_width, 1920);
        let mut height = value_or(self.canvas_height, 1080);
        let mut fps = value_or(self.frame_rate, F64 { bits: values::THIRTY });
        if let Some(path) = self.probe_path() {
            match probe {
                Probe::Missing => {
                    return Err(TimelineError::ClipNotFound { path });
                },
                Probe::Failed(m) => {
                    return Err(TimelineError::Decode(m));
                },
                Probe::Found { width: w, height: h, frame_rate: f } => {
                    width = value_or(self.canvas_width, w);
                    height = value_or(self.canvas_height, h);
                    fps = value_or(self.frame_rate, f);
                },
                Probe::Skipped => {},
            }
        }
        let explicit = self.canvas_width.is_some() && self.canvas_height.is_some();
        let mut video = self.video_tracks;
        let mut audio = self.audio_tracks;
        let video_clips = count_clips(&video);
        let audio_clips = count_clips(&audio);
        let video_count: u64 = video.len() as u64;
        let audio_count: u64 = audio.len() as u64;
        stamp(&mut video, 1, 1);
        stamp(&mut audio, 1 + video_count, 1 + video_clips);
        automate_video(&mut video, &self.video_animations);
        automate_audio(&mut audio, &self.audio_animations);
        Ok(
            Timeline {
                canvas_width: width,
                canvas_height: height,
                canvas_explicit: explicit,
                frame_rate: fps,
                video_tracks: video,
                audio_tracks: audio,
                markers: Vec::new(),
                video_animations: Arc::new(self.video_animations),
                audio_animations: Arc::new(self.audio_animations),
                lavfi_overlay: self.lavfi_overlay,
                next_clip_id: 1 + video_clips + audio_clips,
                next_track_id: 1 + video_count + audio_count,
                next_group_id: 1,
                next_marker_id: 1,
            },
        )
    }
}

/// A track as it is made: enabled, unnamed and unset, with no flags and no automation.
pub open spec fn fresh_track(t: Track) -> bool {
    &&& t.id == TrackId(0)
    &&& t.name@ == Seq::<char>::empty()
    &&& !t.mute && !t.solo && t.enabled && !t.lock
    &&& t.audio_effects@.len() == 0
    &&& t.automation == track::no_automation()
}

/// A freshly built document is well numbered.
pub proof fn built_is_well_numbered(b: TimelineBuilder, width: u32, height: u32, fps: F64)
    requires
        1 + b.video_tracks@.len() + b.audio_tracks@.len() <= u64::MAX,
        1 + clip_count(track::states(b.video_tracks@)) + clip_count(
            track::states(b.audio_tracks@),
        ) <= u64::MAX,
    ensures
        well_numbered(built(b, width, height, fps)),
{
    let d = built(b, width, height, fps);
    let video = track::states(b.video_tracks@);
    let audio = track::states(b.audio_tracks@);
    let all = video + audio;
    let tracks = all_tracks(d);
    assert forall|a: int|
        #![trigger tracks[a]]
        0 <= a < tracks.len() implies tracks[a].clips == numbered(
        all[a].clips,
        1 + clip_count(all.take(a)),
    ) by {
        if a < video.len() {
            assert(all.take(a) =~= video.take(a));
        } else {
            let c = a - video.len();
            lemma_count_concat(video, audio.take(c));
            assert(all.take(a) =~= video + audio.take(c));
        }
    }
    lemma_count_concat(video, audio);
    assert(all.take(all.len() as int) =~= all);
    assert forall|a: int, i: int|
        0 <= a < tracks.len() && 0 <= i < tracks[a].clips.len() implies 0 < (
    #[trigger] tracks[a].clips[i]).id.0 < d.next_clip_id by {
        lemma_count_step(all, a);
        lemma_count_prefix(all, a + 1, all.len() as int);
    }
    assert forall|a: int, i: int, e: int, j: int|
        #![trigger tracks[a].clips[i], tracks[e].clips[j]]
        0 <= a < tracks.len() && 0 <= i < tracks[a].clips.len() && 0 <= e < tracks.len() && 0 <= j
            < tracks[e].clips.len() && tracks[a].clips[i].id == tracks[e].clips[j].id implies a == e
        && i == j by {
        lemma_count_step(all, a);
        lemma_count_step(all, e);
        lemma_count_prefix(all, a + 1, all.len() as int);
        lemma_count_prefix(all, e + 1, all.len() as int);
        if a < e {
            lemma_count_prefix(all, a + 1, e);
        } else if e < a {
            lemma_count_prefix(all, e + 1, a);
        }
    }
}

/// Counting clips over two lists.
proof fn lemma_count_concat(a: Seq<TrackState>, b: Seq<TrackState>)
    ensures
        clip_count(a + b) == clip_count(a) + clip_count(b),
    decreases b.len(),
{
    if b.len() == 0 {
        assert(a + b =~= a);
    } else {
        assert((a + b).drop_last() =~= a + b.drop_last());
        lemma_count_concat(a, b.drop_last());
    }
}

} // verus!

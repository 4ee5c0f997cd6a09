//! Value-based editing of the timeline document.
//!
//! A [`Command`] describes one edit; [`apply`] turns a timeline and a command into a new
//! timeline and leaves the old one as it was. Clips and tracks are addressed by id, not by
//! position, so an edit stays valid when the timeline changes around it. A command naming an
//! id that is nowhere returns an [`EditError`].

use vstd::prelude::*;

use crate::clip;
use crate::clip::Clip;
use crate::filter::BlendMode;
use crate::float::double;
use crate::float::double::F64;
use crate::float::single;
use crate::float::single::F32;
use crate::float::values;
use crate::ids::{ClipId, GroupId, MarkerId, TrackId, TrackKind};
use crate::marker::Marker;
use crate::time;
use crate::time::Duration;
use crate::timeline::{Document, Timeline};
use crate::track;
use crate::track::{Track, TrackState};

verus! {

/// A property that [`Command::SetClipProperty`] can set.
#[derive(Clone, Copy, Debug, PartialEq, Eq, Structural)]
pub enum ClipProperty {
    /// Opacity; held between zero and one.
    Opacity(F32),
    /// Playback speed.
    Speed(F64),
    /// Blend mode.
    BlendMode(BlendMode),
    /// Volume in decibels.
    VolumeDb(F64),
    /// Position in pixels.
    Position { x: F64, y: F64 },
}

/// One edit to a timeline.
#[allow(inconsistent_fields)]
#[derive(Debug, PartialEq)]
pub enum Command {
    /// Append `clip` to the track `track`, with a fresh id and in no group.
    AddClip { track: TrackId, clip: Box<Clip> },
    /// Remove one clip; a group keeps its other members.
    RemoveClip { clip: ClipId },
    /// Move a clip to `offset`; the members of its group move by as much.
    MoveClip { clip: ClipId, offset: Duration },
    /// Set a clip's trim points.
    TrimClip { clip: ClipId, in_point: Option<Duration>, out_point: Option<Duration> },
    /// Set one property of a clip.
    SetClipProperty { clip: ClipId, property: ClipProperty },
    /// Replace a clip wholesale, keeping its id. The value's id must be unset or the same.
    SetClip { clip: ClipId, value: Box<Clip> },
    /// Cut a clip in two at a timeline position strictly inside it. The left part keeps the
    /// id, the leading transition and the fade-in; the right part has a fresh id and keeps
    /// the fade-out.
    SplitClip { clip: ClipId, at: Duration },
    /// Move a clip to the end of another track's list, at `offset`; the members of its group
    /// move by as much and stay on their tracks.
    MoveClipToTrack { clip: ClipId, to: TrackId, offset: Duration },
    /// Remove a clip, or its whole group, and close the gap that each leaves on its track.
    RippleDelete { clip: ClipId },
    /// Set a clip's trim points and move the later clips of its track by the change in its
    /// length, where that is known before and after.
    RippleTrim { clip: ClipId, in_point: Option<Duration>, out_point: Option<Duration> },
    /// Link clips into a fresh group. All must exist; none at all is no change.
    GroupClips { clips: Vec<ClipId> },
    /// Dissolve the group that a clip belongs to.
    UngroupClips { clip: ClipId },
    /// Append an empty track with a fresh id.
    AddTrack { kind: TrackKind },
    /// Remove a track and its clips.
    RemoveTrack { track: TrackId },
    /// Add a marker with a fresh id.
    AddMarker { marker: Marker },
    /// Remove a marker.
    RemoveMarker { marker: MarkerId },
    /// Move a marker.
    MoveMarker { marker: MarkerId, pts: Duration },
    /// Set the canvas; neither side may be zero.
    SetCanvas { width: u32, height: u32 },
    /// Set the frame rate; it must be positive.
    SetFrameRate { fps: F64 },
    /// Apply several commands in order as one edit; if any one fails, none takes effect.
    Batch(Vec<Command>),
}

/// Why an edit could not be applied.
#[allow(inconsistent_fields)]
#[derive(Clone, Copy, Debug, PartialEq, Eq, Structural)]
pub enum EditError {
    /// No track has the id.
    TrackNotFound { id: TrackId },
    /// No clip has the id.
    ClipNotFound { id: ClipId },
    /// No marker has the id.
    MarkerNotFound { id: MarkerId },
    /// A replacement value carries the id of another clip.
    ClipIdMismatch { expected: ClipId, found: ClipId },
    /// The cut is not strictly inside the clip.
    SplitOutOfRange { clip: ClipId, at: Duration },
    /// A side of the canvas is zero.
    InvalidCanvas { width: u32, height: u32 },
    /// The frame rate is not positive.
    InvalidFrameRate(F64),
}

// Where things are.

/// The place of the first clip with the id, or the length of the list.
pub open spec fn first_clip(clips: Seq<Clip>, id: ClipId) -> int
    decreases clips.len(),
{
    if clips.len() == 0 {
        0
    } else if clips[0].id == id {
        0
    } else {
        1 + first_clip(clips.skip(1), id)
    }
}

/// The place of the first track that holds a clip with the id, or the length of the list.
pub open spec fn first_holder(tracks: Seq<TrackState>, id: ClipId) -> int
    decreases tracks.len(),
{
    if tracks.len() == 0 {
        0
    } else if first_clip(tracks[0].clips, id) < tracks[0].clips.len() {
        0
    } else {
        1 + first_holder(tracks.skip(1), id)
    }
}

/// The place of the first track with the id, or the length of the list.
pub open spec fn first_track(tracks: Seq<TrackState>, id: TrackId) -> int
    decreases tracks.len(),
{
    if tracks.len() == 0 {
        0
    } else if tracks[0].id == id {
        0
    } else {
        1 + first_track(tracks.skip(1), id)
    }
}

/// The place of the first marker with the id, or the length of the list.
pub open spec fn first_marker(markers: Seq<Marker>, id: MarkerId) -> int
    decreases markers.len(),
{
    if markers.len() == 0 {
        0
    } else if markers[0].id == id {
        0
    } else {
        1 + first_marker(markers.skip(1), id)
    }
}

/// One of the two lists of tracks.
pub open spec fn list(d: Document, kind: TrackKind) -> Seq<TrackState> {
    match kind {
        TrackKind::Video => d.video,
        TrackKind::Audio => d.audio,
    }
}

/// The document with one of its lists replaced.
pub open spec fn with_list(d: Document, kind: TrackKind, tracks: Seq<TrackState>) -> Document {
    match kind {
        TrackKind::Video => Document { video: tracks, ..d },
        TrackKind::Audio => Document { audio: tracks, ..d },
    }
}

/// Where the clip with the id is: its list, its track and its place there. Video tracks come
/// before audio tracks.
pub open spec fn clip_place(d: Document, id: ClipId) -> Option<(TrackKind, int, int)> {
    let v = first_holder(d.video, id);
    let a = first_holder(d.audio, id);
    if v < d.video.len() {
        Some((TrackKind::Video, v, first_clip(d.video[v].clips, id)))
    } else if a < d.audio.len() {
        Some((TrackKind::Audio, a, first_clip(d.audio[a].clips, id)))
    } else {
        None
    }
}

/// Where the track with the id is.
pub open spec fn track_place(d: Document, id: TrackId) -> Option<(TrackKind, int)> {
    let v = first_track(d.video, id);
    let a = first_track(d.audio, id);
    if v < d.video.len() {
        Some((TrackKind::Video, v))
    } else if a < d.audio.len() {
        Some((TrackKind::Audio, a))
    } else {
        None
    }
}

/// The clips of one track.
pub open spec fn clips_of(d: Document, kind: TrackKind, a: int) -> Seq<Clip> {
    list(d, kind)[a].clips
}

/// The document with the clips of one track replaced.
pub open spec fn with_clips(d: Document, kind: TrackKind, a: int, clips: Seq<Clip>) -> Document {
    let tracks = list(d, kind);
    with_list(d, kind, tracks.update(a, TrackState { clips, ..tracks[a] }))
}

/// The document with one clip replaced.
pub open spec fn with_clip(d: Document, kind: TrackKind, a: int, i: int, c: Clip) -> Document {
    with_clips(d, kind, a, clips_of(d, kind, a).update(i, c))
}

// What the edits do.

/// `offset` moved by `new - old`, held between zero and the longest span.
pub open spec fn nudged(offset: Duration, old_at: Duration, new_at: Duration) -> Duration {
    if new_at.nanos >= old_at.nanos {
        time::later(offset, time::earlier(new_at, old_at))
    } else {
        time::earlier(offset, time::earlier(old_at, new_at))
    }
}

/// A clip as the move of another member of `group` leaves it.
pub open spec fn moved_along(
    c: Clip,
    group: GroupId,
    except: ClipId,
    old_at: Duration,
    new_at: Duration,
) -> Clip {
    if c.id != except && c.group == Some(group) {
        Clip { offset: nudged(c.offset, old_at, new_at), ..c }
    } else {
        c
    }
}

/// Tracks as the move of a member of `group` leaves them.
pub open spec fn group_moved(
    tracks: Seq<TrackState>,
    group: GroupId,
    except: ClipId,
    old_at: Duration,
    new_at: Duration,
) -> Seq<TrackState> {
    Seq::new(
        tracks.len(),
        |i: int|
            TrackState {
                clips: Seq::new(
                    tracks[i].clips.len(),
                    |j: int| moved_along(tracks[i].clips[j], group, except, old_at, new_at),
                ),
                ..tracks[i]
            },
    )
}

/// The document as the move of a clip of group `group` leaves the other members.
pub open spec fn with_group_moved(
    d: Document,
    group: Option<GroupId>,
    except: ClipId,
    old_at: Duration,
    new_at: Duration,
) -> Document {
    match group {
        Some(g) => Document {
            video: group_moved(d.video, g, except, old_at, new_at),
            audio: group_moved(d.audio, g, except, old_at, new_at),
            ..d
        },
        None => d,
    }
}

/// Tracks with `group` dissolved.
pub open spec fn group_dissolved(tracks: Seq<TrackState>, group: GroupId) -> Seq<TrackState> {
    Seq::new(
        tracks.len(),
        |i: int|
            TrackState {
                clips: Seq::new(
                    tracks[i].clips.len(),
                    |j: int|
                        if tracks[i].clips[j].group == Some(group) {
                            Clip { group: None, ..tracks[i].clips[j] }
                        } else {
                            tracks[i].clips[j]
                        },
                ),
                ..tracks[i]
            },
    )
}

/// The ids of the clips of `group`, in order.
pub open spec fn clip_members(clips: Seq<Clip>, group: GroupId) -> Seq<ClipId>
    decreases clips.len(),
{
    if clips.len() == 0 {
        Seq::empty()
    } else {
        let before = clip_members(clips.drop_last(), group);
        if clips.last().group == Some(group) {
            before.push(clips.last().id)
        } else {
            before
        }
    }
}

/// The ids of the clips of `group` over all tracks, in order.
pub open spec fn members(tracks: Seq<TrackState>, group: GroupId) -> Seq<ClipId>
    decreases tracks.len(),
{
    if tracks.len() == 0 {
        Seq::empty()
    } else {
        members(tracks.drop_last(), group) + clip_members(tracks.last().clips, group)
    }
}

/// The time a clip takes on the timeline: its source span divided by its speed, which counts
/// as one hundredth at least. Unknown while a trim point is unset.
pub open spec fn footprint(c: Clip) -> Option<Duration> {
    match clip::source_span(c) {
        Some(d) => time::span(
            double::quotient(
                time::seconds(d),
                double::greater_of(c.speed, F64 { bits: values::HUNDREDTH }),
            ),
        ),
        None => None,
    }
}

/// The clips that start after `start` moved left by `by`.
pub open spec fn gap_closed(clips: Seq<Clip>, start: Duration, by: Duration) -> Seq<Clip> {
    Seq::new(
        clips.len(),
        |j: int|
            if clips[j].offset.nanos > start.nanos {
                Clip { offset: time::earlier(clips[j].offset, by), ..clips[j] }
            } else {
                clips[j]
            },
    )
}

/// The clips that start after `start` moved by `new - old`.
pub open spec fn reflowed(
    clips: Seq<Clip>,
    start: Duration,
    old_length: Duration,
    new_length: Duration,
) -> Seq<Clip> {
    Seq::new(
        clips.len(),
        |j: int|
            if clips[j].offset.nanos > start.nanos {
                Clip { offset: nudged(clips[j].offset, old_length, new_length), ..clips[j] }
            } else {
                clips[j]
            },
    )
}

/// The document with one clip removed and the gap on its track closed.
pub open spec fn ripple_removed(d: Document, id: ClipId) -> Document {
    match clip_place(d, id) {
        None => d,
        Some((kind, a, i)) => {
            let clips = clips_of(d, kind, a);
            let rest = clips.remove(i);
            with_clips(
                d,
                kind,
                a,
                match footprint(clips[i]) {
                    Some(by) => gap_closed(rest, clips[i].offset, by),
                    None => rest,
                },
            )
        },
    }
}

/// The document with several clips removed in turn, each gap closed.
pub open spec fn ripple_removed_all(d: Document, ids: Seq<ClipId>) -> Document
    decreases ids.len(),
{
    if ids.len() == 0 {
        d
    } else {
        ripple_removed(ripple_removed_all(d, ids.drop_last()), ids.last())
    }
}

/// The document with each clip of `ids` put in `group`, or the first id that is nowhere.
pub open spec fn grouped(d: Document, ids: Seq<ClipId>, group: GroupId) -> Result<
    Document,
    EditError,
>
    decreases ids.len(),
{
    if ids.len() == 0 {
        Ok(d)
    } else {
        match grouped(d, ids.drop_last(), group) {
            Err(e) => Err(e),
            Ok(m) => match clip_place(m, ids.last()) {
                None => Err(EditError::ClipNotFound { id: ids.last() }),
                Some((kind, a, i)) => Ok(
                    with_clip(
                        m,
                        kind,
                        a,
                        i,
                        Clip { group: Some(group), ..clips_of(m, kind, a)[i] },
                    ),
                ),
            },
        }
    }
}

/// A clip with one property set.
pub open spec fn with_property(c: Clip, property: ClipProperty) -> Clip {
    match property {
        ClipProperty::Opacity(v) => Clip {
            opacity: single::held(v, F32 { bits: values::S_ZERO }, F32 { bits: values::S_ONE }),
            ..c
        },
        ClipProperty::Speed(v) => Clip { speed: v, ..c },
        ClipProperty::BlendMode(v) => Clip { blend_mode: v, ..c },
        ClipProperty::VolumeDb(v) => Clip { volume_db: v, ..c },
        ClipProperty::Position { x, y } => Clip { x, y, ..c },
    }
}

/// Where in the source a cut at timeline position `at` falls: `in + (at - offset) * speed`,
/// where that is strictly inside the clip.
pub open spec fn source_cut(c: Clip, at: Duration) -> Option<Duration> {
    let start = match c.in_point {
        Some(i) => i,
        None => Duration { nanos: 0 },
    };
    if at.nanos <= c.offset.nanos {
        None
    } else {
        match time::span(double::product(time::seconds(time::earlier(at, c.offset)), c.speed)) {
            None => None,
            Some(advance) => {
                if start.nanos + advance.nanos > time::MAX_NANOS || advance.nanos == 0 || (
                c.out_point matches Some(o) && start.nanos + advance.nanos >= o.nanos) {
                    None
                } else {
                    Some(time::later(start, advance))
                }
            },
        }
    }
}

/// The part of a clip before the cut.
pub open spec fn left_part(c: Clip, cut: Duration) -> Clip {
    Clip { out_point: Some(cut), fade_out: Duration { nanos: 0 }, ..c }
}

/// The part of a clip after the cut, not yet numbered.
pub open spec fn right_part(c: Clip, cut: Duration, at: Duration) -> Clip {
    Clip {
        id: ClipId(0),
        in_point: Some(cut),
        offset: at,
        transition: None,
        transition_duration: Duration { nanos: 0 },
        fade_in: Duration { nanos: 0 },
        ..c
    }
}

/// The markers without those that carry the id.
pub open spec fn without_marker(markers: Seq<Marker>, id: MarkerId) -> Seq<Marker>
    decreases markers.len(),
{
    if markers.len() == 0 {
        Seq::empty()
    } else {
        let before = without_marker(markers.drop_last(), id);
        if markers.last().id == id {
            before
        } else {
            before.push(markers.last())
        }
    }
}

/// An empty track: enabled, unnamed, with no flags and no automation.
pub open spec fn empty_track(id: TrackId) -> TrackState {
    TrackState {
        id,
        name: Seq::empty(),
        mute: false,
        solo: false,
        enabled: true,
        lock: false,
        clips: Seq::empty(),
        audio_effects: Seq::empty(),
        automation: track::no_automation(),
    }
}

/// What a command makes of a document, or why it cannot be applied.
pub open spec fn edited(d: Document, command: Command) -> Result<Document, EditError>
    decreases command,
{
    match command {
        Command::AddClip { track, clip } => match track_place(d, track) {
            None => Err(EditError::TrackNotFound { id: track }),
            Some((kind, a)) => Ok(
                Document {
                    next_clip_id: (d.next_clip_id + 1) as u64,
                    ..with_clips(
                        d,
                        kind,
                        a,
                        clips_of(d, kind, a).push(
                            Clip { id: ClipId(d.next_clip_id), group: None, ..*clip },
                        ),
                    )
                },
            ),
        },
        Command::RemoveClip { clip } => match clip_place(d, clip) {
            None => Err(EditError::ClipNotFound { id: clip }),
            Some((kind, a, i)) => Ok(with_clips(d, kind, a, clips_of(d, kind, a).remove(i))),
        },
        Command::MoveClip { clip, offset } => match clip_place(d, clip) {
            None => Err(EditError::ClipNotFound { id: clip }),
            Some((kind, a, i)) => {
                let c = clips_of(d, kind, a)[i];
                Ok(
                    with_group_moved(
                        with_clip(d, kind, a, i, Clip { offset, ..c }),
                        c.group,
                        clip,
                        c.offset,
                        offset,
                    ),
                )
            },
        },
        Command::TrimClip { clip, in_point, out_point } => match clip_place(d, clip) {
            None => Err(EditError::ClipNotFound { id: clip }),
            Some((kind, a, i)) => Ok(
                with_clip(
                    d,
                    kind,
                    a,
                    i,
                    Clip { in_point, out_point, ..clips_of(d, kind, a)[i] },
                ),
            ),
        },
        Command::SetClipProperty { clip, property } => match clip_place(d, clip) {
            None => Err(EditError::ClipNotFound { id: clip }),
            Some((kind, a, i)) => Ok(
                with_clip(d, kind, a, i, with_property(clips_of(d, kind, a)[i], property)),
            ),
        },
        Command::SetClip { clip, value } => {
            if value.id != ClipId(0) && value.id != clip {
                Err(EditError::ClipIdMismatch { expected: clip, found: value.id })
            } else {
                match clip_place(d, clip) {
                    None => Err(EditError::ClipNotFound { id: clip }),
                    Some((kind, a, i)) => Ok(with_clip(d, kind, a, i, Clip { id: clip, ..*value })),
                }
            }
        },
        Command::SplitClip { clip, at } => match clip_place(d, clip) {
            None => Err(EditError::ClipNotFound { id: clip }),
            Some((kind, a, i)) => {
                let c = clips_of(d, kind, a)[i];
                match source_cut(c, at) {
                    None => Err(EditError::SplitOutOfRange { clip, at }),
                    Some(cut) => Ok(
                        Document {
                            next_clip_id: (d.next_clip_id + 1) as u64,
                            ..with_clips(
                                d,
                                kind,
                                a,
                                clips_of(d, kind, a).update(i, left_part(c, cut)).insert(
                                    i + 1,
                                    Clip {
                                        id: ClipId(d.next_clip_id),
                                        ..right_part(c, cut, at)
                                    },
                                ),
                            )
                        },
                    ),
                }
            },
        },
        Command::MoveClipToTrack { clip, to, offset } => match track_place(d, to) {
            None => Err(EditError::TrackNotFound { id: to }),
            Some((to_kind, to_a)) => match clip_place(d, clip) {
                None => Err(EditError::ClipNotFound { id: clip }),
                Some((kind, a, i)) => {
                    let c = clips_of(d, kind, a)[i];
                    let taken = with_clips(d, kind, a, clips_of(d, kind, a).remove(i));
                    let put = with_clips(
                        taken,
                        to_kind,
                        to_a,
                        clips_of(taken, to_kind, to_a).push(Clip { offset, ..c }),
                    );
                    Ok(with_group_moved(put, c.group, clip, c.offset, offset))
                },
            },
        },
        Command::RippleDelete { clip } => match clip_place(d, clip) {
            None => Err(EditError::ClipNotFound { id: clip }),
            Some((kind, a, i)) => match clips_of(d, kind, a)[i].group {
                None => Ok(ripple_removed(d, clip)),
                Some(g) => Ok(ripple_removed_all(d, members(d.video, g) + members(d.audio, g))),
            },
        },
        Command::RippleTrim { clip, in_point, out_point } => match clip_place(d, clip) {
            None => Err(EditError::ClipNotFound { id: clip }),
            Some((kind, a, i)) => {
                let c = clips_of(d, kind, a)[i];
                let trimmed = Clip { in_point, out_point, ..c };
                let clips = clips_of(d, kind, a).update(i, trimmed);
                Ok(
                    with_clips(
                        d,
                        kind,
                        a,
                        match (footprint(c), footprint(trimmed)) {
                            (Some(old_length), Some(new_length)) => reflowed(
                                clips,
                                c.offset,
                                old_length,
                                new_length,
                            ),
                            _ => clips,
                        },
                    ),
                )
            },
        },
        Command::GroupClips { clips } => {
            if clips@.len() == 0 {
                Ok(d)
            } else {
                match grouped(d, clips@, GroupId(d.next_group_id)) {
                    Err(e) => Err(e),
                    Ok(m) => Ok(
                        Document { next_group_id: (d.next_group_id + 1) as u64, ..m },
                    ),
                }
            }
        },
        Command::UngroupClips { clip } => match clip_place(d, clip) {
            None => Err(EditError::ClipNotFound { id: clip }),
            Some((kind, a, i)) => match clips_of(d, kind, a)[i].group {
                None => Ok(d),
                Some(g) => Ok(
                    Document {
                        video: group_dissolved(d.video, g),
                        audio: group_dissolved(d.audio, g),
                        ..d
                    },
                ),
            },
        },
        Command::AddTrack { kind } => Ok(
            Document {
                next_track_id: (d.next_track_id + 1) as u64,
                ..with_list(d, kind, list(d, kind).push(empty_track(TrackId(d.next_track_id))))
            },
        ),
        Command::RemoveTrack { track } => match track_place(d, track) {
            None => Err(EditError::TrackNotFound { id: track }),
            Some((kind, a)) => Ok(with_list(d, kind, list(d, kind).remove(a))),
        },
        Command::AddMarker { marker } => Ok(
            Document {
                next_marker_id: (d.next_marker_id + 1) as u64,
                markers: d.markers.push(Marker { id: MarkerId(d.next_marker_id), ..marker }),
                ..d
            },
        ),
        Command::RemoveMarker { marker } => {
            if first_marker(d.markers, marker) < d.markers.len() {
                Ok(Document { markers: without_marker(d.markers, marker), ..d })
            } else {
                Err(EditError::MarkerNotFound { id: marker })
            }
        },
        Command::MoveMarker { marker, pts } => {
            let i = first_marker(d.markers, marker);
            if i < d.markers.len() {
                Ok(
                    Document {
                        markers: d.markers.update(i, Marker { pts, ..d.markers[i] }),
                        ..d
                    },
                )
            } else {
                Err(EditError::MarkerNotFound { id: marker })
            }
        },
        Command::SetCanvas { width, height } => {
            if width == 0 || height == 0 {
                Err(EditError::InvalidCanvas { width, height })
            } else {
                Ok(
                    Document {
                        canvas_width: width,
                        canvas_height: height,
                        canvas_explicit: true,
                        ..d
                    },
                )
            }
        },
        Command::SetFrameRate { fps } => {
            if !double::less(F64 { bits: values::ZERO }, fps) {
                Err(EditError::InvalidFrameRate(fps))
            } else {
                Ok(Document { frame_rate: fps, ..d })
            }
        },
        Command::Batch(commands) => edited_all(d, commands@),
    }
}

/// What several commands in order make of a document, or the first reason why not.
pub open spec fn edited_all(d: Document, commands: Seq<Command>) -> Result<Document, EditError>
    decreases commands,
{
    if commands.len() == 0 {
        Ok(d)
    } else {
        match edited_all(d, commands.drop_last()) {
            Err(e) => Err(e),
            Ok(m) => edited(m, commands.last()),
        }
    }
}

/// Numbers of ids, by kind.
pub struct Ids {
    pub clips: nat,
    pub tracks: nat,
    pub groups: nat,
    pub markers: nat,
}

/// Both numbers together.
pub open spec fn plus(a: Ids, b: Ids) -> Ids {
    Ids {
        clips: a.clips + b.clips,
        tracks: a.tracks + b.tracks,
        groups: a.groups + b.groups,
        markers: a.markers + b.markers,
    }
}

/// No id at all.
pub open spec fn no_ids() -> Ids {
    Ids { clips: 0, tracks: 0, groups: 0, markers: 0 }
}

/// How many ids a command hands out where it succeeds.
pub open spec fn minted(command: Command) -> Ids
    decreases command,
{
    match command {
        Command::AddClip { .. } => Ids { clips: 1, ..no_ids() },
        Command::SplitClip { .. } => Ids { clips: 1, ..no_ids() },
        Command::AddTrack { .. } => Ids { tracks: 1, ..no_ids() },
        Command::GroupClips { clips } => {
            if clips@.len() == 0 {
                no_ids()
            } else {
                Ids { groups: 1, ..no_ids() }
            }
        },
        Command::AddMarker { .. } => Ids { markers: 1, ..no_ids() },
        Command::Batch(commands) => minted_all(commands@),
        _ => no_ids(),
    }
}

/// How many ids several commands hand out where all succeed.
pub open spec fn minted_all(commands: Seq<Command>) -> Ids
    decreases commands,
{
    if commands.len() == 0 {
        no_ids()
    } else {
        plus(minted_all(commands.drop_last()), minted(commands.last()))
    }
}

/// Whether the counters can hand out as many more ids.
pub open spec fn has_room(d: Document, n: Ids) -> bool {
    &&& d.next_clip_id + n.clips <= u64::MAX
    &&& d.next_track_id + n.tracks <= u64::MAX
    &&& d.next_group_id + n.groups <= u64::MAX
    &&& d.next_marker_id + n.markers <= u64::MAX
}

// Finding things.

/// The place is the first that matches.
pub proof fn lemma_first_clip(items: Seq<Clip>, id: ClipId, i: int)
    requires
        0 <= i <= items.len(),
        forall|j: int| #![trigger items[j]] 0 <= j < i ==> !(items[j].id == id),
        i < items.len() ==> items[i].id == id,
    ensures
        first_clip(items, id) == i,
    decreases items.len(),
{
    if items.len() > 0 && i > 0 {
        let rest = items.skip(1);
        assert(!(items[0].id == id));
        assert forall|j: int|
            #![trigger rest[j]]
            0 <= j < i - 1 implies !(rest[j].id == id) by {
            assert(rest[j] == items[j + 1]);
        }
        lemma_first_clip(rest, id, i - 1);
    }
}

/// The place is the first that matches.
pub proof fn lemma_first_clip_is(items: Seq<Clip>, id: ClipId)
    ensures
        0 <= first_clip(items, id) <= items.len(),
        forall|j: int| #![trigger items[j]] 0 <= j < first_clip(items, id) ==> !(items[j].id == id),
        first_clip(items, id) < items.len() ==> items[first_clip(items, id)].id == id,
    decreases items.len(),
{
    if items.len() > 0 && !(items[0].id == id) {
        let rest = items.skip(1);
        lemma_first_clip_is(rest, id);
        assert forall|j: int|
            #![trigger items[j]]
            0 <= j < first_clip(items, id) implies !(items[j].id == id) by {
            if j > 0 {
                assert(items[j] == rest[j - 1]);
            }
        }
    }
}

/// The place is the first that matches.
pub proof fn lemma_first_holder(items: Seq<TrackState>, id: ClipId, i: int)
    requires
        0 <= i <= items.len(),
        forall|j: int|
            #![trigger items[j]]
            0 <= j < i ==> !(first_clip(items[j].clips, id) < items[j].clips.len()),
        i < items.len() ==> first_clip(items[i].clips, id) < items[i].clips.len(),
    ensures
        first_holder(items, id) == i,
    decreases items.len(),
{
    if items.len() > 0 && i > 0 {
        let rest = items.skip(1);
        assert(!(first_clip(items[0].clips, id) < items[0].clips.len()));
        assert forall|j: int|
            #![trigger rest[j]]
            0 <= j < i - 1 implies !(first_clip(rest[j].clips, id) < rest[j].clips.len()) by {
            assert(rest[j] == items[j + 1]);
        }
        lemma_first_holder(rest, id, i - 1);
    }
}

/// The place is the first that matches.
pub proof fn lemma_first_holder_is(items: Seq<TrackState>, id: ClipId)
    ensures
        0 <= first_holder(items, id) <= items.len(),
        forall|j: int|
            #![trigger items[j]]
            0 <= j < first_holder(items, id) ==> !(first_clip(items[j].clips, id)
                < items[j].clips.len()),
        first_holder(items, id) < items.len() ==> first_clip(
            items[first_holder(items, id)].clips,
            id,
        ) < items[first_holder(items, id)].clips.len(),
    decreases items.len(),
{
    if items.len() > 0 && !(first_clip(items[0].clips, id) < items[0].clips.len()) {
        let rest = items.skip(1);
        lemma_first_holder_is(rest, id);
        assert forall|j: int|
            #![trigger items[j]]
            0 <= j < first_holder(items, id) implies !(first_clip(items[j].clips, id)
            < items[j].clips.len()) by {
            if j > 0 {
                assert(items[j] == rest[j - 1]);
            }
        }
    }
}

/// The place is the first that matches.
pub proof fn lemma_first_track(items: Seq<TrackState>, id: TrackId, i: int)
    requires
        0 <= i <= items.len(),
        forall|j: int| #![trigger items[j]] 0 <= j < i ==> !(items[j].id == id),
        i < items.len() ==> items[i].id == id,
    ensures
        first_track(items, id) == i,
    decreases items.len(),
{
    if items.len() > 0 && i > 0 {
        let rest = items.skip(1);
        assert(!(items[0].id == id));
        assert forall|j: int|
            #![trigger rest[j]]
            0 <= j < i - 1 implies !(rest[j].id == id) by {
            assert(rest[j] == items[j + 1]);
        }
        lemma_first_track(rest, id, i - 1);
    }
}

/// The place is the first that matches.
pub proof fn lemma_first_track_is(items: Seq<TrackState>, id: TrackId)
    ensures
        0 <= first_track(items, id) <= items.len(),
        forall|j: int|
            #![trigger items[j]]
            0 <= j < first_track(items, id) ==> !(items[j].id == id),
        first_track(items, id) < items.len() ==> items[first_track(items, id)].id == id,
    decreases items.len(),
{
    if items.len() > 0 && !(items[0].id == id) {
        let rest = items.skip(1);
        lemma_first_track_is(rest, id);
        assert forall|j: int|
            #![trigger items[j]]
            0 <= j < first_track(items, id) implies !(items[j].id == id) by {
            if j > 0 {
                assert(items[j] == rest[j - 1]);
            }
        }
    }
}

/// The place is the first that matches.
pub proof fn lemma_first_marker(items: Seq<Marker>, id: MarkerId, i: int)
    requires
        0 <= i <= items.len(),
        forall|j: int| #![trigger items[j]] 0 <= j < i ==> !(items[j].id == id),
        i < items.len() ==> items[i].id == id,
    ensures
        first_marker(items, id) == i,
    decreases items.len(),
{
    if items.len() > 0 && i > 0 {
        let rest = items.skip(1);
        assert(!(items[0].id == id));
        assert forall|j: int|
            #![trigger rest[j]]
            0 <= j < i - 1 implies !(rest[j].id == id) by {
            assert(rest[j] == items[j + 1]);
        }
        lemma_first_marker(rest, id, i - 1);
    }
}

/// The place is the first that matches.
pub proof fn lemma_first_marker_is(items: Seq<Marker>, id: MarkerId)
    ensures
        0 <= first_marker(items, id) <= items.len(),
        forall|j: int|
            #![trigger items[j]]
            0 <= j < first_marker(items, id) ==> !(items[j].id == id),
        first_marker(items, id) < items.len() ==> items[first_marker(items, id)].id == id,
    decreases items.len(),
{
    if items.len() > 0 && !(items[0].id == id) {
        let rest = items.skip(1);
        lemma_first_marker_is(rest, id);
        assert forall|j: int|
            #![trigger items[j]]
            0 <= j < first_marker(items, id) implies !(items[j].id == id) by {
            if j > 0 {
                assert(items[j] == rest[j - 1]);
            }
        }
    }
}

fn find_in_clips(clips: &Vec<Clip>, id: ClipId) -> (r: usize)
    ensures
        r == first_clip(clips@, id),
        r <= clips@.len(),
{
    let mut i: usize = 0;
    while i < clips.len()
        invariant
            i <= clips@.len(),
            forall|j: int| #![trigger clips@[j]] 0 <= j < i ==> clips@[j].id != id,
        decreases clips@.len() - i,
    {
        if clips[i].id == id {
            proof {
                lemma_first_clip(clips@, id, i as int);
            }
            return i;
        }
        i = i + 1;
    }
    proof {
        lemma_first_clip(clips@, id, i as int);
    }
    i
}

fn find_in_tracks(tracks: &Vec<Track>, id: ClipId) -> (r: Option<(usize, usize)>)
    ensures
        match r {
            Some((a, i)) => {
                &&& a == first_holder(track::states(tracks@), id)
                &&& a < tracks@.len()
                &&& i == first_clip(tracks@[a as int].clips@, id)
                &&& i < tracks@[a as int].clips@.len()
            },
            None => first_holder(track::states(tracks@), id) == tracks@.len(),
        },
{
    let ghost all = track::states(tracks@);
    let mut a: usize = 0;
    while a < tracks.len()
        invariant
            a <= tracks@.len(),
            all == track::states(tracks@),
            forall|j: int|
                #![trigger all[j]]
                0 <= j < a ==> !(first_clip(all[j].clips, id) < all[j].clips.len()),
        decreases tracks@.len() - a,
    {
        let i = find_in_clips(&tracks[a].clips, id);
        if i < tracks[a].clips.len() {
            proof {
                lemma_first_holder(all, id, a as int);
            }
            return Some((a, i));
        }
        assert(all[a as int].clips == tracks@[a as int].clips@);
        a = a + 1;
    }
    proof {
        lemma_first_holder(all, id, a as int);
    }
    None
}

/// Finds the clip with the id anywhere in the document, video tracks first.
fn locate_clip(t: &Timeline, id: ClipId) -> (r: Option<(TrackKind, usize, usize)>)
    ensures
        match r {
            Some((kind, a, i)) => {
                &&& clip_place(t@, id) == Some((kind, a as int, i as int))
                &&& a < list(t@, kind).len()
                &&& i < clips_of(t@, kind, a as int).len()
            },
            None => clip_place(t@, id) is None,
        },
{
    match find_in_tracks(&t.video_tracks, id) {
        Some((a, i)) => Some((TrackKind::Video, a, i)),
        None => match find_in_tracks(&t.audio_tracks, id) {
            Some((a, i)) => Some((TrackKind::Audio, a, i)),
            None => None,
        },
    }
}

fn find_track(tracks: &Vec<Track>, id: TrackId) -> (r: usize)
    ensures
        r == first_track(track::states(tracks@), id),
        r <= tracks@.len(),
{
    let ghost all = track::states(tracks@);
    let mut a: usize = 0;
    while a < tracks.len()
        invariant
            a <= tracks@.len(),
            all == track::states(tracks@),
            forall|j: int| #![trigger all[j]] 0 <= j < a ==> all[j].id != id,
        decreases tracks@.len() - a,
    {
        if tracks[a].id == id {
            proof {
                lemma_first_track(all, id, a as int);
            }
            return a;
        }
        a = a + 1;
    }
    proof {
        lemma_first_track(all, id, a as int);
    }
    a
}

/// Finds the track with the id in either list, video first.
fn locate_track(t: &Timeline, id: TrackId) -> (r: Option<(TrackKind, usize)>)
    ensures
        match r {
            Some((kind, a)) => {
                &&& track_place(t@, id) == Some((kind, a as int))
                &&& a < list(t@, kind).len()
            },
            None => track_place(t@, id) is None,
        },
{
    let v = find_track(&t.video_tracks, id);
    if v < t.video_tracks.len() {
        return Some((TrackKind::Video, v));
    }
    let a = find_track(&t.audio_tracks, id);
    if a < t.audio_tracks.len() {
        return Some((TrackKind::Audio, a));
    }
    None
}

fn find_marker(markers: &Vec<Marker>, id: MarkerId) -> (r: usize)
    ensures
        r == first_marker(markers@, id),
        r <= markers@.len(),
{
    let mut i: usize = 0;
    while i < markers.len()
        invariant
            i <= markers@.len(),
            forall|j: int| #![trigger markers@[j]] 0 <= j < i ==> markers@[j].id != id,
        decreases markers@.len() - i,
    {
        if markers[i].id == id {
            proof {
                lemma_first_marker(markers@, id, i as int);
            }
            return i;
        }
        i = i + 1;
    }
    proof {
        lemma_first_marker(markers@, id, i as int);
    }
    i
}

// Changing things.

/// A copy of the clips of one track.
fn copied_clips(t: &Timeline, kind: TrackKind, a: usize) -> (r: Vec<Clip>)
    requires
        a < list(t@, kind).len(),
    ensures
        r@ == clips_of(t@, kind, a as int),
{
    match kind {
        TrackKind::Video => track::copy_clips(&t.video_tracks[a].clips),
        TrackKind::Audio => track::copy_clips(&t.audio_tracks[a].clips),
    }
}

fn set_track_clips(tracks: &mut Vec<Track>, a: usize, clips: Vec<Clip>)
    requires
        a < old(tracks)@.len(),
    ensures
        track::states(final(tracks)@) == track::states(old(tracks)@).update(
            a as int,
            TrackState { clips: clips@, ..old(tracks)@[a as int]@ },
        ),
{
    let ghost before = track::states(tracks@);
    let ghost want = before.update(
        a as int,
        TrackState { clips: clips@, ..tracks@[a as int]@ },
    );
    tracks[a].clips = clips;
    assert(track::states(tracks@) =~= want);
}

/// Replaces the clips of one track.
fn set_clips(t: &mut Timeline, kind: TrackKind, a: usize, clips: Vec<Clip>)
    requires
        a < list(old(t)@, kind).len(),
    ensures
        final(t)@ == with_clips(old(t)@, kind, a as int, clips@),
{
    match kind {
        TrackKind::Video => set_track_clips(&mut t.video_tracks, a, clips),
        TrackKind::Audio => set_track_clips(&mut t.audio_tracks, a, clips),
    }
}

/// `offset` moved by `new - old`, saturating.
fn nudge(offset: Duration, old_at: Duration, new_at: Duration) -> (r: Duration)
    ensures
        r == nudged(offset, old_at, new_at),
{
    if new_at.nanos >= old_at.nanos {
        offset.saturating_add(new_at.saturating_sub(old_at))
    } else {
        offset.saturating_sub(old_at.saturating_sub(new_at))
    }
}

fn move_members(
    clips: &mut Vec<Clip>,
    group: GroupId,
    except: ClipId,
    old_at: Duration,
    new_at: Duration,
)
    ensures
        final(clips)@ == Seq::new(
            old(clips)@.len(),
            |j: int| moved_along(old(clips)@[j], group, except, old_at, new_at),
        ),
{
    let ghost before = clips@;
    let mut i: usize = 0;
    while i < clips.len()
        invariant
            i <= clips@.len(),
            clips@.len() == before.len(),
            forall|j: int|
                #![trigger clips@[j]]
                0 <= j < i ==> clips@[j] == moved_along(before[j], group, except, old_at, new_at),
            forall|j: int| #![trigger clips@[j]] i <= j < before.len() ==> clips@[j] == before[j],
        decreases clips@.len() - i,
    {
        if clips[i].id != except && clips[i].group == Some(group) {
            let moved = nudge(clips[i].offset, old_at, new_at);
            clips[i].offset = moved;
        }
        i = i + 1;
    }
    assert(clips@ =~= Seq::new(
        before.len(),
        |j: int| moved_along(before[j], group, except, old_at, new_at),
    ));
}

/// Moves every member of `group` but `except` by `new - old`.
fn move_group_in(
    tracks: &mut Vec<Track>,
    group: GroupId,
    except: ClipId,
    old_at: Duration,
    new_at: Duration,
)
    ensures
        track::states(final(tracks)@) == group_moved(
            track::states(old(tracks)@),
            group,
            except,
            old_at,
            new_at,
        ),
{
    let ghost before = track::states(tracks@);
    let ghost want = group_moved(before, group, except, old_at, new_at);
    let mut a: usize = 0;
    while a < tracks.len()
        invariant
            a <= tracks@.len(),
            tracks@.len() == before.len(),
            want == group_moved(before, group, except, old_at, new_at),
            forall|j: int| #![trigger tracks@[j]] 0 <= j < a ==> tracks@[j]@ == want[j],
            forall|j: int|
                #![trigger tracks@[j]]
                a <= j < before.len() ==> tracks@[j]@ == before[j],
        decreases tracks@.len() - a,
    {
        assert(tracks@[a as int]@ == before[a as int]);
        move_members(&mut tracks[a].clips, group, except, old_at, new_at);
        assert(tracks@[a as int]@.clips =~= want[a as int].clips);
        a = a + 1;
    }
    assert(track::states(tracks@) =~= want);
}

fn move_group(
    t: &mut Timeline,
    group: Option<GroupId>,
    except: ClipId,
    old_at: Duration,
    new_at: Duration,
)
    ensures
        final(t)@ == with_group_moved(old(t)@, group, except, old_at, new_at),
{
    if let Some(g) = group {
        move_group_in(&mut t.video_tracks, g, except, old_at, new_at);
        move_group_in(&mut t.audio_tracks, g, except, old_at, new_at);
    }
}

fn dissolve_in(tracks: &mut Vec<Track>, group: GroupId)
    ensures
        track::states(final(tracks)@) == group_dissolved(track::states(old(tracks)@), group),
{
    let ghost before = track::states(tracks@);
    let ghost want = group_dissolved(before, group);
    let mut a: usize = 0;
    while a < tracks.len()
        invariant
            a <= tracks@.len(),
            tracks@.len() == before.len(),
            want == group_dissolved(before, group),
            forall|j: int| #![trigger tracks@[j]] 0 <= j < a ==> tracks@[j]@ == want[j],
            forall|j: int|
                #![trigger tracks@[j]]
                a <= j < before.len() ==> tracks@[j]@ == before[j],
        decreases tracks@.len() - a,
    {
        assert(tracks@[a as int]@ == before[a as int]);
        clear_group(&mut tracks[a].clips, group);
        assert(tracks@[a as int]@.clips =~= want[a as int].clips);
        a = a + 1;
    }
    assert(track::states(tracks@) =~= want);
}

fn clear_group(clips: &mut Vec<Clip>, group: GroupId)
    ensures
        final(clips)@ == Seq::new(
            old(clips)@.len(),
            |j: int|
                if old(clips)@[j].group == Some(group) {
                    Clip { group: None, ..old(clips)@[j] }
                } else {
                    old(clips)@[j]
                },
        ),
{
    let ghost before = clips@;
    let mut i: usize = 0;
    while i < clips.len()
        invariant
            i <= clips@.len(),
            clips@.len() == before.len(),
            forall|j: int|
                #![trigger clips@[j]]
                0 <= j < i ==> clips@[j] == (if before[j].group == Some(group) {
                    Clip { group: None, ..before[j] }
                } else {
                    before[j]
                }),
            forall|j: int| #![trigger clips@[j]] i <= j < before.len() ==> clips@[j] == before[j],
        decreases clips@.len() - i,
    {
        if clips[i].group == Some(group) {
            clips[i].group = None;
        }
        i = i + 1;
    }
    assert(clips@ =~= Seq::new(
        before.len(),
        |j: int|
            if before[j].group == Some(group) {
                Clip { group: None, ..before[j] }
            } else {
                before[j]
            },
    ));
}

fn collect_members(tracks: &Vec<Track>, group: GroupId, ids: &mut Vec<ClipId>)
    ensures
        final(ids)@ == old(ids)@ + members(track::states(tracks@), group),
{
    let ghost all = track::states(tracks@);
    let ghost lead = ids@;
    let mut a: usize = 0;
    assert(all.take(0) =~= Seq::empty());
    assert(ids@ =~= lead + members(all.take(0), group));
    while a < tracks.len()
        invariant
            a <= tracks@.len(),
            all == track::states(tracks@),
            ids@ == lead + members(all.take(a as int), group),
        decreases tracks@.len() - a,
    {
        let ghost before = ids@;
        let clips = &tracks[a].clips;
        let mut i: usize = 0;
        assert(clips@.take(0) =~= Seq::empty());
        assert(ids@ =~= before + clip_members(clips@.take(0), group));
        while i < clips.len()
            invariant
                i <= clips@.len(),
                ids@ == before + clip_members(clips@.take(i as int), group),
            decreases clips@.len() - i,
        {
            proof {
                assert(clips@.take(i + 1).drop_last() =~= clips@.take(i as int));
            }
            if clips[i].group == Some(group) {
                ids.push(clips[i].id);
                assert(ids@ =~= before + clip_members(clips@.take(i + 1), group));
            }
            i = i + 1;
        }
        proof {
            assert(clips@.take(i as int) =~= clips@);
            assert(all.take(a + 1).drop_last() =~= all.take(a as int));
            assert(all.take(a + 1).last() == tracks@[a as int]@);
            assert(ids@ =~= lead + members(all.take(a + 1), group));
        }
        a = a + 1;
    }
    assert(all.take(a as int) =~= all);
}

/// The time a clip takes on the timeline, or `None` while it is unknown.
pub fn clip_footprint(clip: &Clip) -> (r: Option<Duration>)
    ensures
        r == footprint(*clip),
{
    match clip.duration() {
        Some(source) => Duration::try_from_secs_f64(
            source.as_secs_f64().over(clip.speed.max(F64 { bits: values::HUNDREDTH })),
        ),
        None => None,
    }
}

fn close_gap(clips: &mut Vec<Clip>, start: Duration, by: Duration)
    ensures
        final(clips)@ == gap_closed(old(clips)@, start, by),
{
    let ghost before = clips@;
    let mut i: usize = 0;
    while i < clips.len()
        invariant
            i <= clips@.len(),
            clips@.len() == before.len(),
            forall|j: int|
                #![trigger clips@[j]]
                0 <= j < i ==> clips@[j] == gap_closed(before, start, by)[j],
            forall|j: int| #![trigger clips@[j]] i <= j < before.len() ==> clips@[j] == before[j],
        decreases clips@.len() - i,
    {
        if clips[i].offset.nanos > start.nanos {
            let moved = clips[i].offset.saturating_sub(by);
            clips[i].offset = moved;
        }
        i = i + 1;
    }
    assert(clips@ =~= gap_closed(before, start, by));
}

fn reflow(clips: &mut Vec<Clip>, start: Duration, old_length: Duration, new_length: Duration)
    ensures
        final(clips)@ == reflowed(old(clips)@, start, old_length, new_length),
{
    let ghost before = clips@;
    let mut i: usize = 0;
    while i < clips.len()
        invariant
            i <= clips@.len(),
            clips@.len() == before.len(),
            forall|j: int|
                #![trigger clips@[j]]
                0 <= j < i ==> clips@[j] == reflowed(before, start, old_length, new_length)[j],
            forall|j: int| #![trigger clips@[j]] i <= j < before.len() ==> clips@[j] == before[j],
        decreases clips@.len() - i,
    {
        if clips[i].offset.nanos > start.nanos {
            let moved = nudge(clips[i].offset, old_length, new_length);
            clips[i].offset = moved;
        }
        i = i + 1;
    }
    assert(clips@ =~= reflowed(before, start, old_length, new_length));
}

/// Removes a clip and closes the gap on its track.
fn ripple_delete_one(t: &mut Timeline, id: ClipId)
    ensures
        final(t)@ == ripple_removed(old(t)@, id),
{
    if let Some((kind, a, i)) = locate_clip(t, id) {
        let mut clips = copied_clips(t, kind, a);
        let start = clips[i].offset;
        let length = clip_footprint(&clips[i]);
        clips.remove(i);
        if let Some(by) = length {
            close_gap(&mut clips, start, by);
        }
        set_clips(t, kind, a, clips);
    }
}

/// Splits a clip at timeline position `at` into the part before and the part after, or `None`
/// where the cut is not strictly inside the clip. The first part keeps the clip's id; that of
/// the second is left unset for the caller to give.
pub fn split_clip(orig: &Clip, at: Duration) -> (r: Option<(Clip, Clip)>)
    ensures
        match source_cut(*orig, at) {
            Some(cut) => r == Some((left_part(*orig, cut), right_part(*orig, cut, at))),
            None => r is None,
        },
{
    let elapsed = match at.checked_sub(orig.offset) {
        Some(d) => d,
        None => {
            return None;
        },
    };
    if elapsed.is_zero() {
        return None;
    }
    let start = match orig.in_point {
        Some(i) => i,
        None => Duration::zero(),
    };
    let advance = match Duration::try_from_secs_f64(elapsed.as_secs_f64().times(orig.speed)) {
        Some(d) => d,
        None => {
            return None;
        },
    };
    let cut = match start.checked_add(advance) {
        Some(d) => d,
        None => {
            return None;
        },
    };
    if cut.nanos <= start.nanos {
        return None;
    }
    if let Some(out) = orig.out_point {
        if cut.nanos >= out.nanos {
            return None;
        }
    }
    let mut left = orig.clone();
    left.out_point = Some(cut);
    left.fade_out = Duration::zero();
    let mut right = orig.clone();
    right.id = ClipId::unset();
    right.in_point = Some(cut);
    right.offset = at;
    right.transition = None;
    right.transition_duration = Duration::zero();
    right.fade_in = Duration::zero();
    Some((left, right))
}

fn set_property(c: &mut Clip, property: &ClipProperty)
    ensures
        *final(c) == with_property(*old(c), *property),
{
    match property {
        ClipProperty::Opacity(v) => {
            c.opacity = v.clamp(F32 { bits: values::S_ZERO }, F32 { bits: values::S_ONE });
        },
        ClipProperty::Speed(v) => {
            c.speed = *v;
        },
        ClipProperty::BlendMode(v) => {
            c.blend_mode = *v;
        },
        ClipProperty::VolumeDb(v) => {
            c.volume_db = *v;
        },
        ClipProperty::Position { x, y } => {
            c.x = *x;
            c.y = *y;
        },
    }
}

fn drop_marker(markers: &Vec<Marker>, id: MarkerId) -> (r: Vec<Marker>)
    ensures
        r@ == without_marker(markers@, id),
{
    let mut kept: Vec<Marker> = Vec::new();
    let mut i: usize = 0;
    assert(markers@.take(0) =~= Seq::empty());
    while i < markers.len()
        invariant
            i <= markers@.len(),
            kept@ == without_marker(markers@.take(i as int), id),
        decreases markers@.len() - i,
    {
        proof {
            assert(markers@.take(i + 1).drop_last() =~= markers@.take(i as int));
        }
        if markers[i].id != id {
            kept.push(markers[i].clone());
        }
        i = i + 1;
    }
    assert(markers@.take(i as int) =~= markers@);
    kept
}

fn push_track(tracks: &mut Vec<Track>, id: TrackId)
    ensures
        track::states(final(tracks)@) == track::states(old(tracks)@).push(empty_track(id)),
{
    let ghost want = track::states(tracks@).push(empty_track(id));
    let mut t = Track::new(Vec::new());
    t.id = id;
    proof {
        assert(t@.clips =~= Seq::<Clip>::empty());
        assert(t@.audio_effects =~= Seq::empty());
        assert(t@ == empty_track(id));
    }
    tracks.push(t);
    assert(track::states(tracks@) =~= want);
}

fn remove_track_at(tracks: &mut Vec<Track>, a: usize)
    requires
        a < old(tracks)@.len(),
    ensures
        track::states(final(tracks)@) == track::states(old(tracks)@).remove(a as int),
{
    let ghost want = track::states(tracks@).remove(a as int);
    tracks.remove(a);
    assert(track::states(tracks@) =~= want);
}

// Counters and batches.

/// An edit hands out as many ids as its command says, and takes none back.
pub proof fn edit_moves_counters(d: Document, command: Command)
    requires
        has_room(d, minted(command)),
        edited(d, command) is Ok,
    ensures
        ({
            let e = edited(d, command)->Ok_0;
            let n = minted(command);
            &&& e.next_clip_id == d.next_clip_id + n.clips
            &&& e.next_track_id == d.next_track_id + n.tracks
            &&& e.next_group_id == d.next_group_id + n.groups
            &&& e.next_marker_id == d.next_marker_id + n.markers
        }),
    decreases command,
{
    match command {
        Command::Batch(commands) => {
            batch_moves_counters(d, commands@);
        },
        Command::GroupClips { clips } => {
            if clips@.len() > 0 {
                lemma_grouped_frame(d, clips@, GroupId(d.next_group_id));
            }
        },
        Command::RippleDelete { clip } => {
            if let Some((kind, a, i)) = clip_place(d, clip) {
                if let Some(g) = clips_of(d, kind, a)[i].group {
                    lemma_ripple_frame(d, members(d.video, g) + members(d.audio, g));
                }
            }
        },
        _ => {},
    }
}

/// A batch hands out as many ids as its commands say, and takes none back.
pub proof fn batch_moves_counters(d: Document, commands: Seq<Command>)
    requires
        has_room(d, minted_all(commands)),
        edited_all(d, commands) is Ok,
    ensures
        ({
            let e = edited_all(d, commands)->Ok_0;
            let n = minted_all(commands);
            &&& e.next_clip_id == d.next_clip_id + n.clips
            &&& e.next_track_id == d.next_track_id + n.tracks
            &&& e.next_group_id == d.next_group_id + n.groups
            &&& e.next_marker_id == d.next_marker_id + n.markers
        }),
    decreases commands,
{
    if commands.len() > 0 {
        batch_moves_counters(d, commands.drop_last());
        edit_moves_counters(edited_all(d, commands.drop_last())->Ok_0, commands.last());
    }
}

/// Grouping leaves everything but the lists of tracks as it was.
proof fn lemma_grouped_frame(d: Document, ids: Seq<ClipId>, group: GroupId)
    requires
        grouped(d, ids, group) is Ok,
    ensures
        ({
            let e = grouped(d, ids, group)->Ok_0;
            e == (Document { video: e.video, audio: e.audio, ..d })
        }),
    decreases ids.len(),
{
    if ids.len() > 0 {
        lemma_grouped_frame(d, ids.drop_last(), group);
    }
}

/// Ripple deletion leaves everything but the lists of tracks as it was.
proof fn lemma_ripple_frame(d: Document, ids: Seq<ClipId>)
    ensures
        ({
            let e = ripple_removed_all(d, ids);
            e == (Document { video: e.video, audio: e.audio, ..d })
        }),
    decreases ids.len(),
{
    if ids.len() > 0 {
        lemma_ripple_frame(d, ids.drop_last());
    }
}

/// A batch that fails part of the way fails with the same error as a whole.
pub proof fn batch_fails_early(d: Document, commands: Seq<Command>, k: int)
    requires
        0 <= k <= commands.len(),
        edited_all(d, commands.take(k)) is Err,
    ensures
        edited_all(d, commands) == edited_all(d, commands.take(k)),
    decreases commands.len(),
{
    if k < commands.len() {
        let shorter = commands.drop_last();
        assert(shorter.take(k) =~= commands.take(k));
        batch_fails_early(d, shorter, k);
    } else {
        assert(commands.take(k) =~= commands);
    }
}

/// A shorter batch hands out no more ids.
proof fn lemma_minted_prefix(commands: Seq<Command>, k: int)
    requires
        0 <= k <= commands.len(),
    ensures
        ({
            let (some, all) = (minted_all(commands.take(k)), minted_all(commands));
            &&& some.clips <= all.clips
            &&& some.tracks <= all.tracks
            &&& some.groups <= all.groups
            &&& some.markers <= all.markers
        }),
    decreases commands.len(),
{
    if k < commands.len() {
        let shorter = commands.drop_last();
        assert(shorter.take(k) =~= commands.take(k));
        lemma_minted_prefix(shorter, k);
    } else {
        assert(commands.take(k) =~= commands);
    }
}

/// Whether a result is what was wanted: the same error, or a timeline that holds the same
/// document.
pub open spec fn outcome(
    r: Result<Timeline, EditError>,
    want: Result<Document, EditError>,
) -> bool {
    match want {
        Ok(d) => r is Ok && r->Ok_0@ == d,
        Err(e) => r == Err::<Timeline, EditError>(e),
    }
}

/// Appends a copy of a clip to a track.
fn add_clip(timeline: Timeline, track: TrackId, clip: &Clip) -> (r: Result<Timeline, EditError>)
    requires
        timeline@.next_clip_id < u64::MAX,
    ensures
        outcome(r, edited(timeline@, Command::AddClip { track, clip: Box::new(*clip) })),
{
    let mut next = timeline;
    let (kind, a) = match locate_track(&next, track) {
        Some(place) => place,
        None => {
            return Err(EditError::TrackNotFound { id: track });
        },
    };
    let mut added: Clip = (*clip).clone();
    added.id = ClipId::from_raw(next.next_clip_id);
    added.group = None;
    let mut clips = copied_clips(&next, kind, a);
    clips.push(added);
    set_clips(&mut next, kind, a, clips);
    next.next_clip_id = next.next_clip_id + 1;
    Ok(next)
}

/// Removes one clip.
fn remove_clip(timeline: Timeline, clip: ClipId) -> (r: Result<Timeline, EditError>)
    ensures
        outcome(r, edited(timeline@, Command::RemoveClip { clip })),
{
    let mut next = timeline;
    let (kind, a, i) = match locate_clip(&next, clip) {
        Some(place) => place,
        None => {
            return Err(EditError::ClipNotFound { id: clip });
        },
    };
    let mut clips = copied_clips(&next, kind, a);
    clips.remove(i);
    set_clips(&mut next, kind, a, clips);
    Ok(next)
}

/// Moves a clip and its group.
fn move_clip(timeline: Timeline, clip: ClipId, offset: Duration) -> (r: Result<Timeline, EditError>)
    ensures
        outcome(r, edited(timeline@, Command::MoveClip { clip, offset })),
{
    let mut next = timeline;
    let (kind, a, i) = match locate_clip(&next, clip) {
        Some(place) => place,
        None => {
            return Err(EditError::ClipNotFound { id: clip });
        },
    };
    let mut clips = copied_clips(&next, kind, a);
    let before = clips[i].offset;
    let group = clips[i].group;
    clips[i].offset = offset;
    set_clips(&mut next, kind, a, clips);
    move_group(&mut next, group, clip, before, offset);
    Ok(next)
}

/// Sets a clip's trim points.
fn trim_clip(
    timeline: Timeline,
    clip: ClipId,
    in_point: Option<Duration>,
    out_point: Option<Duration>,
) -> (r: Result<Timeline, EditError>)
    ensures
        outcome(r, edited(timeline@, Command::TrimClip { clip, in_point, out_point })),
{
    let ghost before_edit = timeline@;
    let mut next = timeline;
    let (kind, a, i) = match locate_clip(&next, clip) {
        Some(place) => place,
        None => {
            return Err(EditError::ClipNotFound { id: clip });
        },
    };
    let mut clips = copied_clips(&next, kind, a);
    clips[i].in_point = in_point;
    clips[i].out_point = out_point;
    assert(clips@ =~= clips_of(before_edit, kind, a as int).update(i as int, clips@[i as int]));
    set_clips(&mut next, kind, a, clips);
    Ok(next)
}

/// Sets one property of a clip.
fn set_clip_property(
    timeline: Timeline,
    clip: ClipId,
    property: ClipProperty,
) -> (r: Result<Timeline, EditError>)
    ensures
        outcome(r, edited(timeline@, Command::SetClipProperty { clip, property })),
{
    let mut next = timeline;
    let (kind, a, i) = match locate_clip(&next, clip) {
        Some(place) => place,
        None => {
            return Err(EditError::ClipNotFound { id: clip });
        },
    };
    let mut clips = copied_clips(&next, kind, a);
    set_property(&mut clips[i], &property);
    set_clips(&mut next, kind, a, clips);
    Ok(next)
}

/// Replaces a clip, keeping its id.
fn set_clip(timeline: Timeline, clip: ClipId, value: &Clip) -> (r: Result<Timeline, EditError>)
    ensures
        outcome(r, edited(timeline@, Command::SetClip { clip, value: Box::new(*value) })),
{
    let mut next = timeline;
    if value.id.is_set() && value.id != clip {
        return Err(EditError::ClipIdMismatch { expected: clip, found: value.id });
    }
    let (kind, a, i) = match locate_clip(&next, clip) {
        Some(place) => place,
        None => {
            return Err(EditError::ClipNotFound { id: clip });
        },
    };
    let mut new_value: Clip = (*value).clone();
    new_value.id = clip;
    let mut clips = copied_clips(&next, kind, a);
    clips[i] = new_value;
    set_clips(&mut next, kind, a, clips);
    Ok(next)
}

/// Cuts a clip in two.
fn split_at(timeline: Timeline, clip: ClipId, at: Duration) -> (r: Result<Timeline, EditError>)
    requires
        timeline@.next_clip_id < u64::MAX,
    ensures
        outcome(r, edited(timeline@, Command::SplitClip { clip, at })),
{
    let mut next = timeline;
    let (kind, a, i) = match locate_clip(&next, clip) {
        Some(place) => place,
        None => {
            return Err(EditError::ClipNotFound { id: clip });
        },
    };
    let mut clips = copied_clips(&next, kind, a);
    let (left, right) = match split_clip(&clips[i], at) {
        Some(parts) => parts,
        None => {
            return Err(EditError::SplitOutOfRange { clip: clip, at: at });
        },
    };
    let mut right = right;
    right.id = ClipId::from_raw(next.next_clip_id);
    clips[i] = left;
    assert(i < clips.len());
    clips.insert(i + 1, right);
    set_clips(&mut next, kind, a, clips);
    next.next_clip_id = next.next_clip_id + 1;
    Ok(next)
}

/// Moves a clip to another track, and its group along.
fn move_to_track(
    timeline: Timeline,
    clip: ClipId,
    to: TrackId,
    offset: Duration,
) -> (r: Result<Timeline, EditError>)
    ensures
        outcome(r, edited(timeline@, Command::MoveClipToTrack { clip, to, offset })),
{
    let mut next = timeline;
    let (to_kind, to_a) = match locate_track(&next, to) {
        Some(place) => place,
        None => {
            return Err(EditError::TrackNotFound { id: to });
        },
    };
    let (kind, a, i) = match locate_clip(&next, clip) {
        Some(place) => place,
        None => {
            return Err(EditError::ClipNotFound { id: clip });
        },
    };
    let mut clips = copied_clips(&next, kind, a);
    let mut moved = clips.remove(i);
    set_clips(&mut next, kind, a, clips);
    let before = moved.offset;
    let group = moved.group;
    moved.offset = offset;
    let mut target = copied_clips(&next, to_kind, to_a);
    target.push(moved);
    set_clips(&mut next, to_kind, to_a, target);
    move_group(&mut next, group, clip, before, offset);
    Ok(next)
}

/// Removes a clip or its group and closes the gaps.
fn ripple_delete(timeline: Timeline, clip: ClipId) -> (r: Result<Timeline, EditError>)
    ensures
        outcome(r, edited(timeline@, Command::RippleDelete { clip })),
{
    let ghost before_edit = timeline@;
    let mut next = timeline;
    let (kind, a, i) = match locate_clip(&next, clip) {
        Some(place) => place,
        None => {
            return Err(EditError::ClipNotFound { id: clip });
        },
    };
    let clips = copied_clips(&next, kind, a);
    match clips[i].group {
        None => ripple_delete_one(&mut next, clip),
        Some(g) => {
            let mut targets: Vec<ClipId> = Vec::new();
            collect_members(&next.video_tracks, g, &mut targets);
            collect_members(&next.audio_tracks, g, &mut targets);
            let ghost ids = members(before_edit.video, g) + members(before_edit.audio, g);
            assert(targets@ =~= ids);
            let mut k: usize = 0;
            assert(ids.take(0) =~= Seq::empty());
            while k < targets.len()
                invariant
                    k <= targets@.len(),
                    targets@ == ids,
                    next@ == ripple_removed_all(before_edit, ids.take(k as int)),
                decreases targets@.len() - k,
            {
                proof {
                    assert(ids.take(k + 1).drop_last() =~= ids.take(k as int));
                }
                ripple_delete_one(&mut next, targets[k]);
                k = k + 1;
            }
            assert(ids.take(k as int) =~= ids);
        },
    }
    Ok(next)
}

/// Trims a clip and moves the later ones of its track.
fn ripple_trim(
    timeline: Timeline,
    clip: ClipId,
    in_point: Option<Duration>,
    out_point: Option<Duration>,
) -> (r: Result<Timeline, EditError>)
    ensures
        outcome(r, edited(timeline@, Command::RippleTrim { clip, in_point, out_point })),
{
    let ghost before_edit = timeline@;
    let mut next = timeline;
    let (kind, a, i) = match locate_clip(&next, clip) {
        Some(place) => place,
        None => {
            return Err(EditError::ClipNotFound { id: clip });
        },
    };
    let mut clips = copied_clips(&next, kind, a);
    let start = clips[i].offset;
    let old_length = clip_footprint(&clips[i]);
    clips[i].in_point = in_point;
    clips[i].out_point = out_point;
    assert(clips@ =~= clips_of(before_edit, kind, a as int).update(i as int, clips@[i as int]));
    let new_length = clip_footprint(&clips[i]);
    if let Some(old_length) = old_length {
        if let Some(new_length) = new_length {
            reflow(&mut clips, start, old_length, new_length);
        }
    }
    set_clips(&mut next, kind, a, clips);
    Ok(next)
}

/// Links clips into a fresh group.
fn group_clips(timeline: Timeline, clips: &Vec<ClipId>) -> (r: Result<Timeline, EditError>)
    requires
        clips@.len() > 0 ==> timeline@.next_group_id < u64::MAX,
    ensures
        outcome(r, edited(timeline@, Command::GroupClips { clips: *clips })),
{
    let ghost before_edit = timeline@;
    let mut next = timeline;
    if clips.len() > 0 {
        let g = GroupId::from_raw(next.next_group_id);
        let mut k: usize = 0;
        assert(clips@.take(0) =~= Seq::empty());
        while k < clips.len()
            invariant
                k <= clips@.len(),
                grouped(before_edit, clips@.take(k as int), g) == Ok::<Document, EditError>(
                    next@,
                ),
                g == GroupId(before_edit.next_group_id),
                before_edit == timeline@,
                clips@.len() > 0,
            decreases clips@.len() - k,
        {
            let ghost part = clips@.take(k + 1);
            proof {
                assert(part.drop_last() =~= clips@.take(k as int));
                assert(part.last() == clips@[k as int]);
            }
            let (kind, a, i) = match locate_clip(&next, clips[k]) {
                Some(place) => place,
                None => {
                    proof {
                        lemma_grouped_fails_early(before_edit, clips@, g, k + 1);
                    }
                    return Err(EditError::ClipNotFound { id: clips[k] });
                },
            };
            let mut changed = copied_clips(&next, kind, a);
            changed[i].group = Some(g);
            set_clips(&mut next, kind, a, changed);
            k = k + 1;
        }
        assert(clips@.take(k as int) =~= clips@);
        proof {
            lemma_grouped_frame(before_edit, clips@, g);
        }
        next.next_group_id = next.next_group_id + 1;
    }
    Ok(next)
}

/// Dissolves the group of a clip.
fn ungroup_clips(timeline: Timeline, clip: ClipId) -> (r: Result<Timeline, EditError>)
    ensures
        outcome(r, edited(timeline@, Command::UngroupClips { clip })),
{
    let mut next = timeline;
    let (kind, a, i) = match locate_clip(&next, clip) {
        Some(place) => place,
        None => {
            return Err(EditError::ClipNotFound { id: clip });
        },
    };
    let clips = copied_clips(&next, kind, a);
    if let Some(g) = clips[i].group {
        dissolve_in(&mut next.video_tracks, g);
        dissolve_in(&mut next.audio_tracks, g);
    }
    Ok(next)
}

/// Applies a command to a timeline and returns the new timeline, or why the command cannot
/// be applied. The timeline itself is not touched.
pub fn apply(timeline: &Timeline, command: &Command) -> (r: Result<Timeline, EditError>)
    requires
        has_room(timeline@, minted(*command)),
    ensures
        outcome(r, edited(timeline@, *command)),
    decreases command,
{
    let mut next = timeline.clone();
    match command {
        Command::AddClip { track, clip } => return add_clip(next, *track, clip),
        Command::RemoveClip { clip } => return remove_clip(next, *clip),
        Command::MoveClip { clip, offset } => return move_clip(next, *clip, *offset),
        Command::TrimClip { clip, in_point, out_point } => return trim_clip(
            next,
            *clip,
            *in_point,
            *out_point,
        ),
        Command::SetClipProperty { clip, property } => return set_clip_property(
            next,
            *clip,
            *property,
        ),
        Command::SetClip { clip, value } => return set_clip(next, *clip, value),
        Command::SplitClip { clip, at } => return split_at(next, *clip, *at),
        Command::MoveClipToTrack { clip, to, offset } => return move_to_track(
            next,
            *clip,
            *to,
            *offset,
        ),
        Command::RippleDelete { clip } => return ripple_delete(next, *clip),
        Command::RippleTrim { clip, in_point, out_point } => return ripple_trim(
            next,
            *clip,
            *in_point,
            *out_point,
        ),
        Command::GroupClips { clips } => return group_clips(next, clips),
        Command::UngroupClips { clip } => return ungroup_clips(next, *clip),
        Command::AddTrack { kind } => {
            let id = TrackId::from_raw(next.next_track_id);
            match kind {
                TrackKind::Video => push_track(&mut next.video_tracks, id),
                TrackKind::Audio => push_track(&mut next.audio_tracks, id),
            }
            next.next_track_id = next.next_track_id + 1;
        },
        Command::RemoveTrack { track } => {
            let (kind, a) = match locate_track(&next, *track) {
                Some(place) => place,
                None => {
                    return Err(EditError::TrackNotFound { id: *track });
                },
            };
            match kind {
                TrackKind::Video => remove_track_at(&mut next.video_tracks, a),
                TrackKind::Audio => remove_track_at(&mut next.audio_tracks, a),
            }
        },
        Command::AddMarker { marker } => {
            let mut added = marker.clone();
            added.id = MarkerId::from_raw(next.next_marker_id);
            next.markers.push(added);
            next.next_marker_id = next.next_marker_id + 1;
        },
        Command::RemoveMarker { marker } => {
            if find_marker(&next.markers, *marker) >= next.markers.len() {
                return Err(EditError::MarkerNotFound { id: *marker });
            }
            next.markers = drop_marker(&next.markers, *marker);
        },
        Command::MoveMarker { marker, pts } => {
            let i = find_marker(&next.markers, *marker);
            if i >= next.markers.len() {
                return Err(EditError::MarkerNotFound { id: *marker });
            }
            next.markers[i].pts = *pts;
        },
        Command::SetCanvas { width, height } => {
            if *width == 0 || *height == 0 {
                return Err(EditError::InvalidCanvas { width: *width, height: *height });
            }
            next.canvas_width = *width;
            next.canvas_height = *height;
            next.canvas_explicit = true;
        },
        Command::SetFrameRate { fps } => {
            let zero = F64 { bits: values::ZERO };
            if !zero.below(*fps) {
                return Err(EditError::InvalidFrameRate(*fps));
            }
            next.frame_rate = *fps;
        },
        Command::Batch(commands) => {
            let mut k: usize = 0;
            assert(commands@.take(0) =~= Seq::empty());
            while k < commands.len()
                invariant
                    k <= commands@.len(),
                    *command == Command::Batch(*commands),
                    has_room(timeline@, minted_all(commands@)),
                    edited_all(timeline@, commands@.take(k as int)) == Ok::<Document, EditError>(
                        next@,
                    ),
                decreases commands@.len() - k,
            {
                let ghost part = commands@.take(k + 1);
                proof {
                    assert(part.drop_last() =~= commands@.take(k as int));
                    assert(part.last() == commands@[k as int]);
                    lemma_minted_prefix(commands@, k + 1);
                    batch_moves_counters(timeline@, commands@.take(k as int));
                }
                match apply(&next, &commands[k]) {
                    Ok(n) => {
                        next = n;
                    },
                    Err(e) => {
                        proof {
                            batch_fails_early(timeline@, commands@, k + 1);
                        }
                        return Err(e);
                    },
                }
                k = k + 1;
            }
            assert(commands@.take(k as int) =~= commands@);
        },
    }
    Ok(next)
}

/// How many ids of each kind a command needs.
#[derive(Clone, Copy, Debug, PartialEq, Eq, Structural)]
pub struct IdsNeeded {
    pub clips: u64,
    pub tracks: u64,
    pub groups: u64,
    pub markers: u64,
}

impl View for IdsNeeded {
    type V = Ids;

    open spec fn view(&self) -> Ids {
        Ids {
            clips: self.clips as nat,
            tracks: self.tracks as nat,
            groups: self.groups as nat,
            markers: self.markers as nat,
        }
    }
}

/// Whether a number is past the largest id.
pub open spec fn too_many(n: Ids) -> bool {
    n.clips > u64::MAX || n.tracks > u64::MAX || n.groups > u64::MAX || n.markers > u64::MAX
}

fn add_needed(a: IdsNeeded, b: IdsNeeded) -> (r: Option<IdsNeeded>)
    ensures
        match r {
            Some(n) => n@ == plus(a@, b@),
            None => too_many(plus(a@, b@)),
        },
{
    match (
        a.clips.checked_add(b.clips),
        a.tracks.checked_add(b.tracks),
        a.groups.checked_add(b.groups),
        a.markers.checked_add(b.markers),
    ) {
        (Some(clips), Some(tracks), Some(groups), Some(markers)) => Some(
            IdsNeeded { clips, tracks, groups, markers },
        ),
        _ => None,
    }
}

/// How many ids of each kind a command needs, or `None` past the largest id.
pub fn ids_needed(command: &Command) -> (r: Option<IdsNeeded>)
    ensures
        match r {
            Some(n) => n@ == minted(*command),
            None => too_many(minted(*command)),
        },
    decreases command,
{
    let none = IdsNeeded { clips: 0, tracks: 0, groups: 0, markers: 0 };
    match command {
        Command::AddClip { .. } => Some(IdsNeeded { clips: 1, ..none }),
        Command::SplitClip { .. } => Some(IdsNeeded { clips: 1, ..none }),
        Command::AddTrack { .. } => Some(IdsNeeded { tracks: 1, ..none }),
        Command::GroupClips { clips } => {
            if clips.len() == 0 {
                Some(none)
            } else {
                Some(IdsNeeded { groups: 1, ..none })
            }
        },
        Command::AddMarker { .. } => Some(IdsNeeded { markers: 1, ..none }),
        Command::Batch(commands) => {
            let mut sum: IdsNeeded = none;
            let mut k: usize = 0;
            assert(commands@.take(0) =~= Seq::empty());
            while k < commands.len()
                invariant
                    k <= commands@.len(),
                    *command == Command::Batch(*commands),
                    sum@ == minted_all(commands@.take(k as int)),
                decreases commands@.len() - k,
            {
                let ghost part = commands@.take(k + 1);
                assert(part.drop_last() =~= commands@.take(k as int));
                assert(part.last() == commands@[k as int]);
                proof {
                    lemma_minted_prefix(commands@, k + 1);
                    assert(decreases_to!(command => command->Batch_0@[k as int]));
                }
                match ids_needed(&commands[k]) {
                    Some(n) => match add_needed(sum, n) {
                        Some(more) => {
                            sum = more;
                        },
                        None => {
                            return None;
                        },
                    },
                    None => {
                        return None;
                    },
                }
                k = k + 1;
            }
            assert(commands@.take(k as int) =~= commands@);
            Some(sum)
        },
        _ => Some(none),
    }
}

/// Whether a document can still number all that a command adds.
pub fn has_room_for(timeline: &Timeline, command: &Command) -> (r: bool)
    ensures
        r == has_room(timeline@, minted(*command)),
{
    match ids_needed(command) {
        Some(n) => timeline.next_clip_id <= u64::MAX - n.clips && timeline.next_track_id
            <= u64::MAX - n.tracks && timeline.next_group_id <= u64::MAX - n.groups
            && timeline.next_marker_id <= u64::MAX - n.markers,
        None => false,
    }
}

/// Grouping that fails part of the way fails with the same error as a whole.
proof fn lemma_grouped_fails_early(d: Document, ids: Seq<ClipId>, group: GroupId, k: int)
    requires
        0 <= k <= ids.len(),
        grouped(d, ids.take(k), group) is Err,
    ensures
        grouped(d, ids, group) == grouped(d, ids.take(k), group),
    decreases ids.len(),
{
    if k < ids.len() {
        let shorter = ids.drop_last();
        assert(shorter.take(k) =~= ids.take(k));
        lemma_grouped_fails_early(d, shorter, group, k);
    } else {
        assert(ids.take(k) =~= ids);
    }
}

} // verus!

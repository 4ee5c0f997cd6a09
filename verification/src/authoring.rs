//! What a command names is what it changes.
//!
//! The laws here read a document before and after one edit, field by field: the field that was
//! asked for has the value that was asked for, and everything else is as it was.

use vstd::prelude::*;

use crate::clip::Clip;
use crate::edit;
use crate::edit::{ClipProperty, Command};
use crate::float::accuracy;
use crate::float::double;
use crate::float::double::F64;
use crate::float::values;
use crate::ids::{ClipId, GroupId, MarkerId, TrackId, TrackKind};
use crate::keys;
use crate::laws;
use crate::marker::Marker;
use crate::time;
use crate::time::Duration;
use crate::timeline;
use crate::timeline::{Document, TimelineBuilder};
use crate::track;
use crate::track::{AudioProperty, TrackAutomation, TrackState, VideoProperty};

verus! {

/// Whether two documents differ in one clip at most.
pub open spec fn differ_in_one_clip(
    d: Document,
    e: Document,
    kind: TrackKind,
    a: int,
    i: int,
) -> bool {
    let (was, is) = (edit::list(d, kind)[a].clips, edit::list(e, kind)[a].clips);
    &&& e == (Document { video: e.video, audio: e.audio, ..d })
    &&& laws::differ_in_one_track(d, e, kind, a)
    &&& edit::list(e, kind)[a] == (TrackState { clips: is, ..edit::list(d, kind)[a] })
    &&& is.len() == was.len()
    &&& forall|j: int| #![trigger is[j]] 0 <= j < was.len() && j != i ==> is[j] == was[j]
}

/// Setting a property of a clip sets that property and no other, of that clip and no other: a
/// speed, a blend mode or a volume as given, a position with each coordinate in its own place, an
/// opacity held between zero and one.
pub proof fn properties_are_set_alone(
    d: Document,
    clip: ClipId,
    property: ClipProperty,
    kind: TrackKind,
    a: int,
    i: int,
)
    requires
        edit::clip_place(d, clip) == Some((kind, a, i)),
    ensures
        edit::edited(d, Command::SetClipProperty { clip, property }) is Ok,
        ({
            let e = edit::edited(d, Command::SetClipProperty { clip, property })->Ok_0;
            let was = edit::list(d, kind)[a].clips[i];
            let is = edit::list(e, kind)[a].clips[i];
            &&& differ_in_one_clip(d, e, kind, a, i)
            &&& property matches ClipProperty::Speed(v) ==> is == (Clip { speed: v, ..was })
            &&& property matches ClipProperty::BlendMode(v) ==> is == (Clip {
                blend_mode: v,
                ..was
            })
            &&& property matches ClipProperty::VolumeDb(v) ==> is == (Clip { volume_db: v, ..was })
            &&& property matches ClipProperty::Position { x: h, y: v } ==> is == (Clip {
                x: h,
                y: v,
                ..was
            })
            &&& property matches ClipProperty::Opacity(v) ==> is == (Clip {
                opacity: is.opacity,
                ..was
            }) && (v.finite() ==> is.opacity.finite() && is.opacity.units() == (if v.units() < 0 {
                0
            } else if v.units() > accuracy::single_unit() {
                accuracy::single_unit()
            } else {
                v.units()
            }))
        }),
{
    laws::place_is_carrier(d, clip);
    if let ClipProperty::Opacity(v) = property {
        if v.finite() {
            crate::planning::lemma_unit_part(v);
        }
    }
}

/// Trimming a clip sets its two trim points, each to the one given for it; replacing a clip gives
/// it the new value with its own id. Nothing else changes.
pub proof fn trims_and_values_are_set_alone(
    d: Document,
    clip: ClipId,
    in_point: Option<Duration>,
    out_point: Option<Duration>,
    value: Clip,
    kind: TrackKind,
    a: int,
    i: int,
)
    requires
        edit::clip_place(d, clip) == Some((kind, a, i)),
    ensures
        ({
            let r = edit::edited(d, Command::TrimClip { clip, in_point, out_point });
            let was = edit::list(d, kind)[a].clips[i];
            let is = edit::list(r->Ok_0, kind)[a].clips[i];
            &&& r is Ok
            &&& differ_in_one_clip(d, r->Ok_0, kind, a, i)
            &&& is.in_point == in_point && is.out_point == out_point
            &&& is == Clip { in_point: is.in_point, out_point: is.out_point, ..was }
        }),
        ({
            let r = edit::edited(d, Command::SetClip { clip, value: Box::new(value) });
            let is = edit::list(r->Ok_0, kind)[a].clips[i];
            &&& r is Ok <==> value.id.0 == 0 || value.id == clip
            &&& r is Ok ==> differ_in_one_clip(d, r->Ok_0, kind, a, i) && is.id == clip && is
                == Clip { id: is.id, ..value }
        }),
{
    laws::place_is_carrier(d, clip);
}

/// Whether `is` is the nanosecond `was + to - from`, held between the start and the end of time.
pub open spec fn shifted(was: int, from: int, to: int, is: int) -> bool {
    let goal = was + to - from;
    &&& 0 <= goal <= time::MAX_NANOS && was <= time::MAX_NANOS ==> is == goal
    &&& goal < 0 ==> is == 0
    &&& goal > time::MAX_NANOS && to >= from ==> is == time::MAX_NANOS
}

/// A move puts the clip at the offset that was asked for. The other clips of its group, on
/// whatever track, move by as much; a clip of no group or of another one stays. Nothing but
/// offsets changes.
pub proof fn moves_carry_the_group(
    d: Document,
    clip: ClipId,
    offset: Duration,
    kind: TrackKind,
    a: int,
    i: int,
    k: TrackKind,
    b: int,
    j: int,
)
    requires
        edit::clip_place(d, clip) == Some((kind, a, i)),
        0 <= b < edit::list(d, k).len(),
        0 <= j < edit::list(d, k)[b].clips.len(),
    ensures
        edit::edited(d, Command::MoveClip { clip, offset }) is Ok,
        ({
            let e = edit::edited(d, Command::MoveClip { clip, offset })->Ok_0;
            let moved = edit::list(d, kind)[a].clips[i];
            let was = edit::list(d, k)[b].clips[j];
            let is = edit::list(e, k)[b].clips[j];
            &&& edit::list(e, k).len() == edit::list(d, k).len()
            &&& edit::list(e, k)[b].clips.len() == edit::list(d, k)[b].clips.len()
            &&& edit::list(e, k)[b] == (TrackState {
                clips: edit::list(e, k)[b].clips,
                ..edit::list(d, k)[b]
            })
            &&& e == (Document { video: e.video, audio: e.audio, ..d })
            &&& is == (Clip { offset: is.offset, ..was })
            &&& k == kind && b == a && j == i ==> is.offset.nanos == offset.nanos
            &&& !(k == kind && b == a && j == i) && was.id != clip ==> {
                &&& was.group is Some && was.group == moved.group ==> shifted(
                    was.offset.nanos as int,
                    moved.offset.nanos as int,
                    offset.nanos as int,
                    is.offset.nanos as int,
                )
                &&& was.group is None || was.group != moved.group ==> is.offset == was.offset
            }
        }),
{
    laws::place_is_carrier(d, clip);
    let moved = edit::list(d, kind)[a].clips[i];
    assert(moved.id == clip);
}

/// An added clip goes to the end of the track that was named, with the next id and in no group,
/// and is otherwise as given.
pub proof fn added_clips_go_last(d: Document, track: TrackId, clip: Clip, kind: TrackKind, a: int)
    requires
        edit::track_place(d, track) == Some((kind, a)),
        d.next_clip_id < u64::MAX,
    ensures
        edit::edited(d, Command::AddClip { track, clip: Box::new(clip) }) is Ok,
        ({
            let e = edit::edited(d, Command::AddClip { track, clip: Box::new(clip) })->Ok_0;
            let (was, is) = (edit::list(d, kind)[a].clips, edit::list(e, kind)[a].clips);
            &&& edit::list(d, kind)[a].id == track
            &&& is.len() == was.len() + 1
            &&& forall|j: int| #![trigger is[j]] 0 <= j < was.len() ==> is[j] == was[j]
            &&& is.last().id.0 == d.next_clip_id && is.last().group is None
            &&& is.last() == (Clip { id: is.last().id, group: is.last().group, ..clip })
            &&& laws::differ_in_one_track(d, e, kind, a)
            &&& e.next_clip_id == d.next_clip_id + 1
            &&& e == (Document {
                video: e.video,
                audio: e.audio,
                next_clip_id: e.next_clip_id,
                ..d
            })
        }),
{
    edit::lemma_first_track_is(d.video, track);
    edit::lemma_first_track_is(d.audio, track);
}

/// A removed clip leaves its track; the clips around it stay in order and where they are.
pub proof fn removed_clips_leave_the_rest(
    d: Document,
    clip: ClipId,
    kind: TrackKind,
    a: int,
    i: int,
)
    requires
        edit::clip_place(d, clip) == Some((kind, a, i)),
    ensures
        edit::edited(d, Command::RemoveClip { clip }) is Ok,
        ({
            let e = edit::edited(d, Command::RemoveClip { clip })->Ok_0;
            let (was, is) = (edit::list(d, kind)[a].clips, edit::list(e, kind)[a].clips);
            &&& is.len() == was.len() - 1
            &&& forall|j: int|
                #![trigger is[j]]
                0 <= j < is.len() ==> is[j] == was[if j < i {
                    j
                } else {
                    j + 1
                }]
            &&& laws::differ_in_one_track(d, e, kind, a)
            &&& e == (Document { video: e.video, audio: e.audio, ..d })
        }),
{
    laws::place_is_carrier(d, clip);
}

/// A clip of no group that moves to another track leaves its own and goes to the end of the other
/// at the offset that was asked for, otherwise as it was.
pub proof fn moved_clips_change_tracks(
    d: Document,
    clip: ClipId,
    to: TrackId,
    offset: Duration,
    kind: TrackKind,
    a: int,
    i: int,
    to_kind: TrackKind,
    b: int,
)
    requires
        edit::clip_place(d, clip) == Some((kind, a, i)),
        edit::track_place(d, to) == Some((to_kind, b)),
        edit::list(d, kind)[a].clips[i].group is None,
        !(kind == to_kind && a == b),
    ensures
        edit::edited(d, Command::MoveClipToTrack { clip, to, offset }) is Ok,
        ({
            let e = edit::edited(d, Command::MoveClipToTrack { clip, to, offset })->Ok_0;
            let c = edit::list(d, kind)[a].clips[i];
            let was = edit::list(d, to_kind)[b].clips;
            let is = edit::list(e, to_kind)[b].clips;
            let left = edit::list(e, kind)[a].clips;
            &&& edit::list(d, to_kind)[b].id == to
            &&& is.len() == was.len() + 1
            &&& forall|j: int| #![trigger is[j]] 0 <= j < was.len() ==> is[j] == was[j]
            &&& is.last().offset.nanos == offset.nanos
            &&& is.last() == (Clip { offset: is.last().offset, ..c })
            &&& left.len() == edit::list(d, kind)[a].clips.len() - 1
            &&& forall|j: int|
                #![trigger left[j]]
                0 <= j < left.len() ==> left[j] == edit::list(d, kind)[a].clips[if j < i {
                    j
                } else {
                    j + 1
                }]
            &&& e == (Document { video: e.video, audio: e.audio, ..d })
        }),
{
    laws::place_is_carrier(d, clip);
    edit::lemma_first_track_is(d.video, to);
    edit::lemma_first_track_is(d.audio, to);
}

/// A new track goes to the end of the list of its kind: with the next id, enabled, and otherwise
/// empty. A removed track leaves its list, and the others stay in order.
pub proof fn tracks_come_and_go_alone(
    d: Document,
    kind: TrackKind,
    track: TrackId,
    k: TrackKind,
    a: int,
)
    requires
        edit::track_place(d, track) == Some((k, a)),
        d.next_track_id < u64::MAX,
    ensures
        ({
            let r = edit::edited(d, Command::AddTrack { kind });
            let e = r->Ok_0;
            let (was, is) = (edit::list(d, kind), edit::list(e, kind));
            let t = is.last();
            &&& r is Ok
            &&& is.len() == was.len() + 1
            &&& forall|j: int| #![trigger is[j]] 0 <= j < was.len() ==> is[j] == was[j]
            &&& t.id.0 == d.next_track_id && t.enabled && !t.mute && !t.solo && !t.lock
            &&& t.clips.len() == 0 && t.name.len() == 0 && t.audio_effects.len() == 0
            &&& t.automation.x is None && t.automation.y is None && t.automation.opacity is None
            &&& t.automation.scale_x is None && t.automation.scale_y is None
            &&& t.automation.rotation is None && t.automation.volume is None
            &&& t.automation.pan is None
            &&& kind is Video ==> e.audio == d.audio
            &&& kind is Audio ==> e.video == d.video
            &&& e.next_track_id == d.next_track_id + 1
            &&& e == (Document {
                video: e.video,
                audio: e.audio,
                next_track_id: e.next_track_id,
                ..d
            })
        }),
        ({
            let r = edit::edited(d, Command::RemoveTrack { track });
            let e = r->Ok_0;
            let (was, is) = (edit::list(d, k), edit::list(e, k));
            &&& r is Ok
            &&& was[a].id == track
            &&& is.len() == was.len() - 1
            &&& forall|j: int|
                #![trigger is[j]]
                0 <= j < is.len() ==> is[j] == was[if j < a {
                    j
                } else {
                    j + 1
                }]
            &&& k is Video ==> e.audio == d.audio
            &&& k is Audio ==> e.video == d.video
            &&& e == (Document { video: e.video, audio: e.audio, ..d })
        }),
{
    edit::lemma_first_track_is(d.video, track);
    edit::lemma_first_track_is(d.audio, track);
}

/// An added marker goes last, with the next id and otherwise as given. A moved marker goes to the
/// moment that was asked for. Other markers stay as they are.
pub proof fn markers_come_and_move_alone(
    d: Document,
    marker: Marker,
    id: MarkerId,
    pts: Duration,
    i: int,
)
    requires
        0 <= i < d.markers.len(),
        d.markers[i].id == id,
        forall|j: int| 0 <= j < i ==> (#[trigger] d.markers[j]).id != id,
        d.next_marker_id < u64::MAX,
    ensures
        ({
            let r = edit::edited(d, Command::AddMarker { marker });
            let e = r->Ok_0;
            &&& r is Ok
            &&& e.markers.len() == d.markers.len() + 1
            &&& e.markers.drop_last() == d.markers
            &&& e.markers.last().id.0 == d.next_marker_id
            &&& e.markers.last() == (Marker { id: e.markers.last().id, ..marker })
            &&& e.next_marker_id == d.next_marker_id + 1
        }),
        ({
            let r = edit::edited(d, Command::MoveMarker { marker: id, pts });
            let e = r->Ok_0;
            &&& r is Ok
            &&& e.markers.len() == d.markers.len()
            &&& e.markers[i].pts.nanos == pts.nanos
            &&& e.markers[i] == (Marker { pts: e.markers[i].pts, ..d.markers[i] })
            &&& forall|j: int|
                #![trigger e.markers[j]]
                0 <= j < d.markers.len() && j != i ==> e.markers[j] == d.markers[j]
            &&& e == (Document { markers: e.markers, ..d })
        }),
{
    edit::lemma_first_marker(d.markers, id, i);
    let e = edit::edited(d, Command::AddMarker { marker })->Ok_0;
    assert(e.markers.drop_last() =~= d.markers);
}

/// A removed marker is gone, and every other one is kept.
pub proof fn removed_markers_are_gone(d: Document, id: MarkerId, m: Marker)
    requires
        edit::edited(d, Command::RemoveMarker { marker: id }) is Ok,
    ensures
        ({
            let e = edit::edited(d, Command::RemoveMarker { marker: id })->Ok_0;
            &&& e.markers.contains(m) <==> d.markers.contains(m) && m.id != id
            &&& e == (Document { markers: e.markers, ..d })
        }),
{
    lemma_without(d.markers, id, m);
}

proof fn lemma_without(markers: Seq<Marker>, id: MarkerId, m: Marker)
    ensures
        edit::without_marker(markers, id).contains(m) <==> markers.contains(m) && m.id != id,
    decreases markers.len(),
{
    if markers.len() > 0 {
        let rest = markers.drop_last();
        let kept = edit::without_marker(rest, id);
        lemma_without(rest, id, m);
        assert(markers =~= rest.push(markers.last()));
        assert(rest.contains(m) ==> markers.contains(m)) by {
            if rest.contains(m) {
                let k = choose|k: int| 0 <= k < rest.len() && rest[k] == m;
                assert(markers[k] == m);
            }
        }
        assert(markers.contains(m) ==> rest.contains(m) || markers.last() == m) by {
            if markers.contains(m) {
                let k = choose|k: int| 0 <= k < markers.len() && markers[k] == m;
                if k < rest.len() {
                    assert(rest[k] == m);
                }
            }
        }
        assert(markers.last() == m ==> markers.contains(m)) by {
            assert(markers[markers.len() - 1] == markers.last());
        }
        if markers.last().id != id {
            let all = kept.push(markers.last());
            assert(all[all.len() - 1] == markers.last());
            assert(kept.contains(m) ==> all.contains(m)) by {
                if kept.contains(m) {
                    let k = choose|k: int| 0 <= k < kept.len() && kept[k] == m;
                    assert(all[k] == m);
                }
            }
            assert(all.contains(m) ==> kept.contains(m) || markers.last() == m) by {
                if all.contains(m) {
                    let k = choose|k: int| 0 <= k < all.len() && all[k] == m;
                    if k < kept.len() {
                        assert(kept[k] == m);
                    }
                }
            }
        }
    }
}

/// A canvas is set as wide and as high as asked for, unless a side is nothing; a frame rate is
/// set as asked for, where it is above zero. Nothing else changes.
pub proof fn settings_are_set_alone(d: Document, width: u32, height: u32, fps: F64)
    ensures
        ({
            let r = edit::edited(d, Command::SetCanvas { width, height });
            let e = r->Ok_0;
            &&& r is Ok <==> width > 0 && height > 0
            &&& r is Ok ==> e.canvas_width == width && e.canvas_height == height
                && e.canvas_explicit && e == (Document {
                canvas_width: e.canvas_width,
                canvas_height: e.canvas_height,
                canvas_explicit: e.canvas_explicit,
                ..d
            })
        }),
        ({
            let r = edit::edited(d, Command::SetFrameRate { fps });
            let e = r->Ok_0;
            &&& fps.finite() ==> (r is Ok <==> fps.units() > 0)
            &&& fps.nan() ==> r is Err
            &&& r is Ok ==> e.frame_rate == fps && e == (Document { frame_rate: e.frame_rate, ..d })
        }),
{
    accuracy::doubles_are_their_numbers();
    if fps.finite() {
        double::order_is_numeric(F64 { bits: values::ZERO }, fps);
    }
}

/// Linking clips puts the first clip of each id that was named into one group, the next one.
pub proof fn named_clips_are_linked(
    d: Document,
    clips: Vec<ClipId>,
    k: int,
    kind: TrackKind,
    a: int,
    i: int,
)
    requires
        edit::edited(d, Command::GroupClips { clips }) is Ok,
        0 <= k < clips@.len(),
        edit::clip_place(d, clips@[k]) == Some((kind, a, i)),
    ensures
        ({
            let e = edit::edited(d, Command::GroupClips { clips })->Ok_0;
            let (was, is) = (edit::list(d, kind)[a].clips[i], edit::list(e, kind)[a].clips[i]);
            &&& is.group == Some(GroupId(d.next_group_id))
            &&& is == (Clip { group: is.group, ..was })
        }),
{
    lemma_linked(d, clips@, GroupId(d.next_group_id), k, kind, a, i);
}

proof fn lemma_linked(
    d: Document,
    ids: Seq<ClipId>,
    group: GroupId,
    k: int,
    kind: TrackKind,
    a: int,
    i: int,
)
    requires
        edit::grouped(d, ids, group) is Ok,
        0 <= k < ids.len(),
        edit::clip_place(d, ids[k]) == Some((kind, a, i)),
    ensures
        ({
            let e = edit::grouped(d, ids, group)->Ok_0;
            let (was, is) = (edit::list(d, kind)[a].clips[i], edit::list(e, kind)[a].clips[i]);
            is == (Clip { group: Some(group), ..was })
        }),
    decreases ids.len(),
{
    let rest = ids.drop_last();
    let m = edit::grouped(d, rest, group)->Ok_0;
    laws::place_is_carrier(d, ids[k]);
    laws::place_is_carrier(m, ids.last());
    laws::lemma_grouped_same_ids(d, rest, group);
    laws::lemma_grouped_changes_group_only(d, rest, group, kind, a, i);
    laws::lemma_same_place(d.video, m.video, ids.last());
    laws::lemma_same_place(d.audio, m.audio, ids.last());
    if k < rest.len() {
        assert(rest[k] == ids[k]);
        lemma_linked(d, rest, group, k, kind, a, i);
    } else {
        edit::lemma_first_holder_is(d.video, ids.last());
        edit::lemma_first_holder_is(d.audio, ids.last());
        assert(edit::clip_place(m, ids.last()) == Some((kind, a, i)));
    }
}

/// Linking clips leaves every clip whose id was not named as it was.
pub proof fn unnamed_clips_are_not_linked(
    d: Document,
    clips: Vec<ClipId>,
    kind: TrackKind,
    a: int,
    i: int,
)
    requires
        edit::edited(d, Command::GroupClips { clips }) is Ok,
        0 <= a < edit::list(d, kind).len(),
        0 <= i < edit::list(d, kind)[a].clips.len(),
        forall|k: int|
            0 <= k < clips@.len() ==> #[trigger] clips@[k] != edit::list(d, kind)[a].clips[i].id,
    ensures
        ({
            let e = edit::edited(d, Command::GroupClips { clips })->Ok_0;
            edit::list(e, kind)[a].clips[i] == edit::list(d, kind)[a].clips[i]
        }),
{
    if clips@.len() > 0 {
        lemma_not_linked(d, clips@, GroupId(d.next_group_id), kind, a, i);
    }
}

proof fn lemma_not_linked(
    d: Document,
    ids: Seq<ClipId>,
    group: GroupId,
    kind: TrackKind,
    a: int,
    i: int,
)
    requires
        edit::grouped(d, ids, group) is Ok,
        0 <= a < edit::list(d, kind).len(),
        0 <= i < edit::list(d, kind)[a].clips.len(),
        forall|k: int|
            0 <= k < ids.len() ==> #[trigger] ids[k] != edit::list(d, kind)[a].clips[i].id,
    ensures
        ({
            let e = edit::grouped(d, ids, group)->Ok_0;
            edit::list(e, kind)[a].clips[i] == edit::list(d, kind)[a].clips[i]
        }),
    decreases ids.len(),
{
    if ids.len() > 0 {
        let rest = ids.drop_last();
        let m = edit::grouped(d, rest, group)->Ok_0;
        assert forall|k: int| 0 <= k < rest.len() implies #[trigger] rest[k] != edit::list(
            d,
            kind,
        )[a].clips[i].id by {
            assert(rest[k] == ids[k]);
        }
        lemma_not_linked(d, rest, group, kind, a, i);
        laws::lemma_grouped_changes_group_only(d, rest, group, kind, a, i);
        laws::place_is_carrier(m, ids.last());
        assert(ids[ids.len() - 1] == ids.last());
    }
}

/// Setting a track's animation of a property sets the slot of the same name and no other.
pub proof fn slots_are_set_by_name(
    a: TrackAutomation,
    v: VideoProperty,
    s: AudioProperty,
    t: crate::filter::AnimationTrack,
)
    ensures
        ({
            let b = track::with_video(a, v, t);
            &&& b.x == (if v is X {
                Some(t)
            } else {
                a.x
            })
            &&& b.y == (if v is Y {
                Some(t)
            } else {
                a.y
            })
            &&& b.scale_x == (if v is ScaleX {
                Some(t)
            } else {
                a.scale_x
            })
            &&& b.scale_y == (if v is ScaleY {
                Some(t)
            } else {
                a.scale_y
            })
            &&& b.rotation == (if v is Rotation {
                Some(t)
            } else {
                a.rotation
            })
            &&& b.opacity == (if v is Opacity {
                Some(t)
            } else {
                a.opacity
            })
            &&& b.volume == a.volume && b.pan == a.pan
        }),
        ({
            let b = track::with_audio(a, s, t);
            &&& b.volume == (if s is Volume {
                Some(t)
            } else {
                a.volume
            })
            &&& b.pan == (if s is Pan {
                Some(t)
            } else {
                a.pan
            })
            &&& b == (TrackAutomation { volume: b.volume, pan: b.pan, ..a })
        }),
{
}

/// The name under which the animation of a video property of track `i` is registered.
pub open spec fn video_name(i: nat, property: Seq<char>) -> Seq<char> {
    seq!['v', 'i', 'd', 'e', 'o', '_'] + keys::decimal(i) + seq!['_'] + property
}

/// The name under which the animation of an audio property of track `i` is registered.
pub open spec fn audio_name(i: nat, property: Seq<char>) -> Seq<char> {
    seq!['a', 'u', 'd', 'i', 'o', '_'] + keys::decimal(i) + seq!['_'] + property
}

/// What is registered under a name, or what was there before.
pub open spec fn registered_or(
    list: Seq<keys::NamedAnimation>,
    name: Seq<char>,
    kept: Option<crate::filter::AnimationTrack>,
) -> Option<crate::filter::AnimationTrack> {
    match keys::animation_at(list, name) {
        Some(t) => Some(t),
        None => kept,
    }
}

/// A video track of a built timeline is the builder's, in its place: its clips in order and as
/// they were but for their ids, its flags as they were, and each automation slot with what is
/// registered for the track under the slot's own name, or else with what it had.
pub proof fn built_video_tracks_are_as_given(
    b: TimelineBuilder,
    width: u32,
    height: u32,
    fps: F64,
    k: int,
    i: int,
)
    requires
        0 <= k < b.video_tracks@.len(),
        0 <= i < b.video_tracks@[k].clips@.len(),
    ensures
        ({
            let d = timeline::built(b, width, height, fps);
            let was = b.video_tracks@[k];
            let is = d.video[k];
            let list = b.video_animations@;
            &&& d.video.len() == b.video_tracks@.len()
            &&& is.clips.len() == was.clips@.len()
            &&& is.clips[i] == (Clip { id: is.clips[i].id, ..was.clips@[i] })
            &&& is.name == was.name@ && is.mute == was.mute && is.solo == was.solo
            &&& is.enabled == was.enabled && is.lock == was.lock
            &&& is.audio_effects == was.audio_effects@
            &&& is.automation.x == registered_or(
                list,
                video_name(k as nat, seq!['x']),
                was.automation.x,
            )
            &&& is.automation.y == registered_or(
                list,
                video_name(k as nat, seq!['y']),
                was.automation.y,
            )
            &&& is.automation.scale_x == registered_or(
                list,
                video_name(k as nat, seq!['s', 'c', 'a', 'l', 'e', '_', 'x']),
                was.automation.scale_x,
            )
            &&& is.automation.scale_y == registered_or(
                list,
                video_name(k as nat, seq!['s', 'c', 'a', 'l', 'e', '_', 'y']),
                was.automation.scale_y,
            )
            &&& is.automation.rotation == registered_or(
                list,
                video_name(k as nat, seq!['r', 'o', 't', 'a', 't', 'i', 'o', 'n']),
                was.automation.rotation,
            )
            &&& is.automation.opacity == registered_or(
                list,
                video_name(k as nat, seq!['o', 'p', 'a', 'c', 'i', 't', 'y']),
                was.automation.opacity,
            )
            &&& is.automation.volume == was.automation.volume
            &&& is.automation.pan == was.automation.pan
        }),
{
    let n = k as nat;
    reveal_strlit("video_");
    reveal_strlit("_");
    reveal_strlit("x");
    reveal_strlit("y");
    reveal_strlit("scale_x");
    reveal_strlit("scale_y");
    reveal_strlit("rotation");
    reveal_strlit("opacity");
    assert("video_"@ =~= seq!['v', 'i', 'd', 'e', 'o', '_']);
    assert("_"@ =~= seq!['_']);
    assert("x"@ =~= seq!['x']);
    assert("y"@ =~= seq!['y']);
    assert("scale_x"@ =~= seq!['s', 'c', 'a', 'l', 'e', '_', 'x']);
    assert("scale_y"@ =~= seq!['s', 'c', 'a', 'l', 'e', '_', 'y']);
    assert("rotation"@ =~= seq!['r', 'o', 't', 'a', 't', 'i', 'o', 'n']);
    assert("opacity"@ =~= seq!['o', 'p', 'a', 'c', 'i', 't', 'y']);
}

/// An audio track of a built timeline is the builder's, as a video track is, with the slots of the
/// volume and the pan.
pub proof fn built_audio_tracks_are_as_given(
    b: TimelineBuilder,
    width: u32,
    height: u32,
    fps: F64,
    k: int,
    i: int,
)
    requires
        0 <= k < b.audio_tracks@.len(),
        0 <= i < b.audio_tracks@[k].clips@.len(),
    ensures
        ({
            let d = timeline::built(b, width, height, fps);
            let was = b.audio_tracks@[k];
            let is = d.audio[k];
            let list = b.audio_animations@;
            &&& d.audio.len() == b.audio_tracks@.len()
            &&& is.clips.len() == was.clips@.len()
            &&& is.clips[i] == (Clip { id: is.clips[i].id, ..was.clips@[i] })
            &&& is.name == was.name@ && is.mute == was.mute && is.solo == was.solo
            &&& is.enabled == was.enabled && is.lock == was.lock
            &&& is.audio_effects == was.audio_effects@
            &&& is.automation.volume == registered_or(
                list,
                audio_name(k as nat, seq!['v', 'o', 'l', 'u', 'm', 'e']),
                was.automation.volume,
            )
            &&& is.automation.pan == registered_or(
                list,
                audio_name(k as nat, seq!['p', 'a', 'n']),
                was.automation.pan,
            )
            &&& is.automation == (TrackAutomation {
                volume: is.automation.volume,
                pan: is.automation.pan,
                ..was.automation
            })
        }),
{
    reveal_strlit("audio_");
    reveal_strlit("_");
    reveal_strlit("volume");
    reveal_strlit("pan");
    assert("audio_"@ =~= seq!['a', 'u', 'd', 'i', 'o', '_']);
    assert("_"@ =~= seq!['_']);
    assert("volume"@ =~= seq!['v', 'o', 'l', 'u', 'm', 'e']);
    assert("pan"@ =~= seq!['p', 'a', 'n']);
}

/// A built timeline has the canvas and the frame rate that were settled on, and no marker; its
/// canvas counts as asked for where both sides were set. Track ids are handed out in order from
/// one, to video tracks first, and the counter stands after the last.
pub proof fn built_timelines_are_as_settled(
    b: TimelineBuilder,
    width: u32,
    height: u32,
    fps: F64,
)
    requires
        1 + b.video_tracks@.len() + b.audio_tracks@.len() <= u64::MAX,
    ensures
        ({
            let d = timeline::built(b, width, height, fps);
            &&& d.canvas_width == width && d.canvas_height == height && d.frame_rate == fps
            &&& d.canvas_explicit <==> b.canvas_width is Some && b.canvas_height is Some
            &&& d.markers.len() == 0 && d.next_marker_id == 1 && d.next_group_id == 1
            &&& d.lavfi_overlay == b.lavfi_overlay
            &&& d.next_track_id == 1 + b.video_tracks@.len() + b.audio_tracks@.len()
            &&& forall|k: int|
                #![trigger d.video[k]]
                0 <= k < d.video.len() ==> d.video[k].id.0 == k + 1
            &&& forall|k: int|
                #![trigger d.audio[k]]
                0 <= k < d.audio.len() ==> d.audio[k].id.0 == d.video.len() + k + 1
        }),
{
}

/// What was set stands, and what was not is taken from the probe.
pub proof fn settings_win_over_probes<T>(set: T, probed: T)
    ensures
        timeline::or_probed(Some(set), probed) == set,
        timeline::or_probed(None, probed) == probed,
{
}

} // verus!

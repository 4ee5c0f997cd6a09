//! Laws of editing: what every command keeps, and what commands undo or leave alone.

use vstd::prelude::*;

use crate::clip::Clip;
use crate::edit;
use crate::edit::{Command, EditError};
use crate::ids::{ClipId, GroupId, MarkerId, TrackId, TrackKind};
use crate::marker::Marker;
use crate::time;
use crate::time::Duration;
use crate::timeline;
use crate::timeline::Document;
use crate::track::TrackState;

verus! {

/// Whether a clip of the list carries the id.
pub open spec fn among(clips: Seq<Clip>, id: ClipId) -> bool {
    exists|i: int| 0 <= i < clips.len() && (#[trigger] clips[i]).id == id
}

/// Whether a clip of the document carries the id.
pub open spec fn carried(tracks: Seq<TrackState>, id: ClipId) -> bool {
    exists|a: int| 0 <= a < tracks.len() && among((#[trigger] tracks[a]).clips, id)
}

/// Whether no two clips of the list share an id.
pub open spec fn distinct(clips: Seq<Clip>) -> bool {
    forall|i: int, j: int|
        #![trigger clips[i], clips[j]]
        0 <= i < clips.len() && 0 <= j < clips.len() && clips[i].id == clips[j].id ==> i == j
}

/// Whether two lists of tracks have the same ids in the same places.
pub open spec fn same_ids(s: Seq<TrackState>, t: Seq<TrackState>) -> bool {
    &&& s.len() == t.len()
    &&& forall|a: int| #![trigger t[a]] 0 <= a < t.len() ==> t[a].id == s[a].id
    &&& forall|a: int| #![trigger t[a]] 0 <= a < t.len() ==> t[a].clips.len() == s[a].clips.len()
    &&& forall|a: int, i: int|
        #![trigger t[a].clips[i]]
        0 <= a < t.len() && 0 <= i < t[a].clips.len() ==> t[a].clips[i].id == s[a].clips[i].id
}

/// Whether a command only changes clips in place.
pub open spec fn in_place(command: Command) -> bool {
    ||| command is MoveClip
    ||| command is TrimClip
    ||| command is SetClipProperty
    ||| command is SetClip
    ||| command is RippleTrim
    ||| command is GroupClips
    ||| command is UngroupClips
}

/// The place of a track in the list of all tracks.
pub open spec fn flat(d: Document, kind: TrackKind, a: int) -> int {
    match kind {
        TrackKind::Video => a,
        TrackKind::Audio => d.video.len() + a,
    }
}

/// Replacing the clips of one track replaces one track in the list of all.
pub proof fn lemma_flat(d: Document, kind: TrackKind, a: int, clips: Seq<Clip>)
    requires
        0 <= a < edit::list(d, kind).len(),
    ensures
        timeline::all_tracks(edit::with_clips(d, kind, a, clips)) == timeline::all_tracks(d).update(
            flat(d, kind, a),
            TrackState { clips, ..edit::list(d, kind)[a] },
        ),
        0 <= flat(d, kind, a) < timeline::all_tracks(d).len(),
        timeline::all_tracks(d)[flat(d, kind, a)] == edit::list(d, kind)[a],
{
    let e = edit::with_clips(d, kind, a, clips);
    assert(timeline::all_tracks(e) =~= timeline::all_tracks(d).update(
        flat(d, kind, a),
        TrackState { clips, ..edit::list(d, kind)[a] },
    ));
}

/// Where a clip was found, it carries the id; where it was not, no clip does.
pub proof fn place_is_carrier(d: Document, id: ClipId)
    ensures
        match edit::clip_place(d, id) {
            Some((kind, a, i)) => {
                &&& 0 <= a < edit::list(d, kind).len()
                &&& 0 <= i < edit::clips_of(d, kind, a).len()
                &&& edit::clips_of(d, kind, a)[i].id == id
                &&& carried(timeline::all_tracks(d), id)
            },
            None => !carried(timeline::all_tracks(d), id),
        },
{
    edit::lemma_first_holder_is(d.video, id);
    edit::lemma_first_holder_is(d.audio, id);
    let all = timeline::all_tracks(d);
    match edit::clip_place(d, id) {
        Some((kind, a, i)) => {
            edit::lemma_first_clip_is(edit::clips_of(d, kind, a), id);
            lemma_flat(d, kind, a, edit::clips_of(d, kind, a));
            assert(among(all[flat(d, kind, a)].clips, id));
        },
        None => {
            assert forall|a: int| 0 <= a < all.len() implies !among(
                (#[trigger] all[a]).clips,
                id,
            ) by {
                edit::lemma_first_clip_is(all[a].clips, id);
                if a < d.video.len() {
                    assert(all[a] == d.video[a]);
                } else {
                    assert(all[a] == d.audio[a - d.video.len()]);
                }
            }
        },
    }
}

/// Replacing the clips of one track keeps the numbering, when their ids are distinct and each
/// either was on the track before or is carried nowhere.
proof fn lemma_renumbered(tracks: Seq<TrackState>, f: int, clips: Seq<Clip>, next: u64, top: u64)
    requires
        timeline::clips_numbered(tracks, next),
        next <= top,
        0 <= f < tracks.len(),
        distinct(clips),
        forall|j: int|
            #![trigger clips[j]]
            0 <= j < clips.len() ==> among(tracks[f].clips, clips[j].id) || (0 < clips[j].id.0 < top
                && !carried(tracks, clips[j].id)),
    ensures
        timeline::clips_numbered(tracks.update(f, TrackState { clips, ..tracks[f] }), top),
{
    let t = tracks.update(f, TrackState { clips, ..tracks[f] });
    assert forall|a: int, i: int|
        0 <= a < t.len() && 0 <= i < t[a].clips.len() implies 0 < (
    #[trigger] t[a].clips[i]).id.0 < top by {
        if a == f {
            let id = clips[i].id;
            if among(tracks[f].clips, id) {
                let k = choose|k: int|
                    0 <= k < tracks[f].clips.len() && (#[trigger] tracks[f].clips[k]).id == id;
                assert(0 < tracks[f].clips[k].id.0 < next);
            }
        } else {
            assert(0 < tracks[a].clips[i].id.0 < next);
        }
    }
    assert forall|a: int, i: int, b: int, j: int|
        #![trigger t[a].clips[i], t[b].clips[j]]
        0 <= a < t.len() && 0 <= i < t[a].clips.len() && 0 <= b < t.len() && 0 <= j
            < t[b].clips.len() && t[a].clips[i].id == t[b].clips[j].id implies a == b && i == j by {
        let id = t[a].clips[i].id;
        if a == f && b == f {
            assert(clips[i].id == clips[j].id);
        } else if a == f {
            assert(tracks[b].clips[j].id == id);
            assert(among(tracks[b].clips, id));
            assert(carried(tracks, id));
            assert(among(tracks[f].clips, clips[i].id));
            let k = choose|k: int|
                0 <= k < tracks[f].clips.len() && (#[trigger] tracks[f].clips[k]).id == id;
            assert(tracks[f].clips[k].id == tracks[b].clips[j].id);
            assert(false);
        } else if b == f {
            assert(tracks[a].clips[i].id == id);
            assert(among(tracks[a].clips, id));
            assert(carried(tracks, id));
            assert(among(tracks[f].clips, clips[j].id));
            let k = choose|k: int|
                0 <= k < tracks[f].clips.len() && (#[trigger] tracks[f].clips[k]).id == id;
            assert(tracks[f].clips[k].id == tracks[a].clips[i].id);
            assert(false);
        } else {
            assert(tracks[a].clips[i].id == tracks[b].clips[j].id);
        }
    }
}

/// The same ids in the same places keep the numbering.
proof fn lemma_same_ids_numbered(s: Seq<TrackState>, t: Seq<TrackState>, clips: u64, tracks: u64)
    requires
        same_ids(s, t),
        timeline::clips_numbered(s, clips),
        timeline::tracks_numbered(s, tracks),
    ensures
        timeline::clips_numbered(t, clips),
        timeline::tracks_numbered(t, tracks),
{
    assert forall|a: int, i: int|
        0 <= a < t.len() && 0 <= i < t[a].clips.len() implies 0 < (
    #[trigger] t[a].clips[i]).id.0 < clips by {
        assert(0 < s[a].clips[i].id.0 < clips);
    }
    assert forall|a: int, i: int, b: int, j: int|
        #![trigger t[a].clips[i], t[b].clips[j]]
        0 <= a < t.len() && 0 <= i < t[a].clips.len() && 0 <= b < t.len() && 0 <= j
            < t[b].clips.len() && t[a].clips[i].id == t[b].clips[j].id implies a == b && i == j by {
        assert(s[a].clips[i].id == s[b].clips[j].id);
    }
    assert forall|a: int| 0 <= a < t.len() implies 0 < (#[trigger] t[a]).id.0 < tracks by {
        assert(0 < s[a].id.0 < tracks);
    }
    assert forall|a: int, b: int|
        0 <= a < t.len() && 0 <= b < t.len() && (#[trigger] t[a]).id == (
        #[trigger] t[b]).id implies a == b by {
        assert(s[a].id == s[b].id);
    }
}

/// The same ids in the same places carry the same ids.
proof fn lemma_same_ids_carried(s: Seq<TrackState>, t: Seq<TrackState>, id: ClipId)
    requires
        same_ids(s, t),
        carried(t, id),
    ensures
        carried(s, id),
{
    let a = choose|a: int| 0 <= a < t.len() && among((#[trigger] t[a]).clips, id);
    let i = choose|i: int| 0 <= i < t[a].clips.len() && (#[trigger] t[a].clips[i]).id == id;
    assert(t[a].clips[i].id == s[a].clips[i].id);
    assert(s[a].clips[i].id == id);
    assert(among(s[a].clips, id));
}

proof fn lemma_same_ids_joined(d: Document, e: Document)
    requires
        same_ids(d.video, e.video),
        same_ids(d.audio, e.audio),
    ensures
        same_ids(timeline::all_tracks(d), timeline::all_tracks(e)),
{
    let s = timeline::all_tracks(d);
    let t = timeline::all_tracks(e);
    let n = d.video.len();
    assert forall|a: int| #![trigger t[a]] 0 <= a < t.len() implies t[a].id == s[a].id by {
        if a >= n {
            assert(t[a] == e.audio[a - n]);
        } else {
            assert(t[a] == e.video[a]);
        }
    }
    assert forall|a: int| #![trigger t[a]] 0 <= a < t.len() implies t[a].clips.len()
        == s[a].clips.len() by {
        if a >= n {
            assert(t[a] == e.audio[a - n]);
        } else {
            assert(t[a] == e.video[a]);
        }
    }
    assert forall|a: int, i: int|
        #![trigger t[a].clips[i]]
        0 <= a < t.len() && 0 <= i < t[a].clips.len() implies t[a].clips[i].id
        == s[a].clips[i].id by {
        if a >= n {
            assert(t[a] == e.audio[a - n]);
            assert(e.audio[a - n].clips[i].id == d.audio[a - n].clips[i].id);
        } else {
            assert(t[a] == e.video[a]);
            assert(e.video[a].clips[i].id == d.video[a].clips[i].id);
        }
    }
}

/// Grouping keeps every id in its place.
pub proof fn lemma_grouped_same_ids(d: Document, ids: Seq<ClipId>, group: GroupId)
    requires
        edit::grouped(d, ids, group) is Ok,
    ensures
        ({
            let e = edit::grouped(d, ids, group)->Ok_0;
            &&& same_ids(d.video, e.video)
            &&& same_ids(d.audio, e.audio)
            &&& e == (Document { video: e.video, audio: e.audio, ..d })
        }),
    decreases ids.len(),
{
    if ids.len() > 0 {
        lemma_grouped_same_ids(d, ids.drop_last(), group);
        let m = edit::grouped(d, ids.drop_last(), group)->Ok_0;
        place_is_carrier(m, ids.last());
    }
}

/// Commands that change clips in place keep every clip and track where it is, with its id.
pub proof fn in_place_keeps_identity(d: Document, command: Command)
    requires
        in_place(command),
        edit::edited(d, command) is Ok,
    ensures
        ({
            let e = edit::edited(d, command)->Ok_0;
            &&& same_ids(d.video, e.video)
            &&& same_ids(d.audio, e.audio)
            &&& e.next_clip_id == d.next_clip_id
            &&& e.next_track_id == d.next_track_id
            &&& e.markers == d.markers
            &&& e.next_marker_id == d.next_marker_id
        }),
{
    match command {
        Command::MoveClip { clip, .. } => {
            place_is_carrier(d, clip);
        },
        Command::TrimClip { clip, .. } => {
            place_is_carrier(d, clip);
        },
        Command::SetClipProperty { clip, .. } => {
            place_is_carrier(d, clip);
        },
        Command::SetClip { clip, .. } => {
            place_is_carrier(d, clip);
        },
        Command::RippleTrim { clip, .. } => {
            place_is_carrier(d, clip);
        },
        Command::GroupClips { clips } => {
            if clips@.len() > 0 {
                lemma_grouped_same_ids(d, clips@, GroupId(d.next_group_id));
            }
        },
        Command::UngroupClips { clip } => {
            place_is_carrier(d, clip);
        },
        _ => {},
    }
}

/// What replacing the clips of one track does to which ids are carried.
proof fn lemma_carried_after(tracks: Seq<TrackState>, f: int, clips: Seq<Clip>, id: ClipId)
    requires
        0 <= f < tracks.len(),
        carried(tracks.update(f, TrackState { clips, ..tracks[f] }), id),
    ensures
        carried(tracks, id) || among(clips, id),
{
    let t = tracks.update(f, TrackState { clips, ..tracks[f] });
    let a = choose|a: int| 0 <= a < t.len() && among((#[trigger] t[a]).clips, id);
    if a != f {
        assert(among(tracks[a].clips, id));
    }
}

/// Removing a clip and closing its gap keeps the numbering, and carries no new id.
proof fn lemma_ripple_one(d: Document, target: ClipId, id: ClipId)
    requires
        timeline::well_numbered(d),
    ensures
        ({
            let e = edit::ripple_removed(d, target);
            &&& timeline::well_numbered(e)
            &&& e == (Document { video: e.video, audio: e.audio, ..d })
            &&& carried(timeline::all_tracks(e), id) ==> carried(timeline::all_tracks(d), id)
        }),
{
    place_is_carrier(d, target);
    if let Some((kind, a, i)) = edit::clip_place(d, target) {
        let clips = edit::clips_of(d, kind, a);
        let rest = clips.remove(i);
        let after = match edit::footprint(clips[i]) {
            Some(by) => edit::gap_closed(rest, clips[i].offset, by),
            None => rest,
        };
        lemma_shrunk(d, kind, a, i, after, id);
    }
}

/// A track that lost one clip keeps the numbering, and carries no new id.
proof fn lemma_shrunk(d: Document, kind: TrackKind, a: int, i: int, after: Seq<Clip>, id: ClipId)
    requires
        timeline::well_numbered(d),
        0 <= a < edit::list(d, kind).len(),
        0 <= i < edit::clips_of(d, kind, a).len(),
        after.len() == edit::clips_of(d, kind, a).len() - 1,
        forall|j: int|
            #![trigger after[j]]
            0 <= j < after.len() ==> after[j].id == edit::clips_of(d, kind, a).remove(i)[j].id,
    ensures
        ({
            let e = edit::with_clips(d, kind, a, after);
            &&& timeline::well_numbered(e)
            &&& carried(timeline::all_tracks(e), id) ==> carried(timeline::all_tracks(d), id)
            &&& !among(after, edit::clips_of(d, kind, a)[i].id)
        }),
{
    let clips = edit::clips_of(d, kind, a);
    let all = timeline::all_tracks(d);
    let f = flat(d, kind, a);
    lemma_flat(d, kind, a, after);
    assert forall|j: int|
        #![trigger after[j]]
        0 <= j < after.len() implies after[j].id == clips[if j < i {
        j
    } else {
        j + 1
    }].id by {}
    assert forall|j: int| #![trigger after[j]] 0 <= j < after.len() implies among(
        all[f].clips,
        after[j].id,
    ) by {
        let k = if j < i {
            j
        } else {
            j + 1
        };
        assert(clips[k].id == after[j].id);
    }
    assert forall|x: int, y: int|
        #![trigger after[x], after[y]]
        0 <= x < after.len() && 0 <= y < after.len() && after[x].id == after[y].id implies x
        == y by {
        let kx = if x < i {
            x
        } else {
            x + 1
        };
        let ky = if y < i {
            y
        } else {
            y + 1
        };
        assert(all[f].clips[kx].id == all[f].clips[ky].id);
    }
    lemma_renumbered(all, f, after, d.next_clip_id, d.next_clip_id);
    let e = edit::with_clips(d, kind, a, after);
    lemma_tracks_after(d, kind, a, after);
    if carried(timeline::all_tracks(e), id) {
        lemma_carried_after(all, f, after, id);
        if among(after, id) {
            let j = choose|j: int| 0 <= j < after.len() && (#[trigger] after[j]).id == id;
            assert(among(all[f].clips, after[j].id));
        }
    }
    if among(after, clips[i].id) {
        let j = choose|j: int| 0 <= j < after.len() && (#[trigger] after[j]).id == clips[i].id;
        let k = if j < i {
            j
        } else {
            j + 1
        };
        assert(all[f].clips[k].id == all[f].clips[i].id);
    }
}

/// Replacing the clips of one track keeps the tracks' ids.
proof fn lemma_tracks_after(d: Document, kind: TrackKind, a: int, clips: Seq<Clip>)
    requires
        0 <= a < edit::list(d, kind).len(),
        timeline::tracks_numbered(timeline::all_tracks(d), d.next_track_id),
    ensures
        timeline::tracks_numbered(
            timeline::all_tracks(edit::with_clips(d, kind, a, clips)),
            d.next_track_id,
        ),
{
    lemma_flat(d, kind, a, clips);
    let s = timeline::all_tracks(d);
    let t = timeline::all_tracks(edit::with_clips(d, kind, a, clips));
    assert forall|x: int| #![trigger t[x]] 0 <= x < t.len() implies t[x].id == s[x].id by {}
    assert forall|x: int| 0 <= x < t.len() implies 0 < (#[trigger] t[x]).id.0 < d.next_track_id by {
        assert(0 < s[x].id.0 < d.next_track_id);
    }
    assert forall|x: int, y: int|
        0 <= x < t.len() && 0 <= y < t.len() && (#[trigger] t[x]).id == (
        #[trigger] t[y]).id implies x == y by {
        assert(s[x].id == s[y].id);
    }
}

proof fn lemma_ripple_all(d: Document, targets: Seq<ClipId>, id: ClipId)
    requires
        timeline::well_numbered(d),
    ensures
        ({
            let e = edit::ripple_removed_all(d, targets);
            &&& timeline::well_numbered(e)
            &&& e == (Document { video: e.video, audio: e.audio, ..d })
            &&& carried(timeline::all_tracks(e), id) ==> carried(timeline::all_tracks(d), id)
        }),
    decreases targets.len(),
{
    if targets.len() > 0 {
        lemma_ripple_all(d, targets.drop_last(), id);
        lemma_ripple_one(edit::ripple_removed_all(d, targets.drop_last()), targets.last(), id);
    }
}

proof fn lemma_track_place(d: Document, id: TrackId)
    ensures
        match edit::track_place(d, id) {
            Some((kind, a)) => 0 <= a < edit::list(d, kind).len() && edit::list(d, kind)[a].id
                == id,
            None => true,
        },
{
    edit::lemma_first_track_is(d.video, id);
    edit::lemma_first_track_is(d.audio, id);
}

/// A track that gained a clip carried nowhere before keeps the numbering.
proof fn lemma_grown(d: Document, kind: TrackKind, a: int, at: int, c: Clip, top: u64, id: ClipId)
    requires
        timeline::well_numbered(d),
        0 <= a < edit::list(d, kind).len(),
        0 <= at <= edit::clips_of(d, kind, a).len(),
        d.next_clip_id <= top,
        0 < c.id.0 < top,
        !carried(timeline::all_tracks(d), c.id),
    ensures
        ({
            let e = edit::with_clips(d, kind, a, edit::clips_of(d, kind, a).insert(at, c));
            &&& timeline::clips_numbered(timeline::all_tracks(e), top)
            &&& timeline::tracks_numbered(timeline::all_tracks(e), d.next_track_id)
            &&& carried(timeline::all_tracks(e), id) ==> carried(timeline::all_tracks(d), id) || id
                == c.id
        }),
{
    let clips = edit::clips_of(d, kind, a);
    let after = clips.insert(at, c);
    let all = timeline::all_tracks(d);
    let f = flat(d, kind, a);
    lemma_flat(d, kind, a, after);
    assert(all[f].clips == clips);
    assert forall|j: int| #![trigger after[j]] 0 <= j < after.len() && j != at implies among(
        all[f].clips,
        after[j].id,
    ) by {
        let k = if j < at {
            j
        } else {
            j - 1
        };
        assert(clips[k] == after[j]);
    }
    assert forall|x: int, y: int|
        #![trigger after[x], after[y]]
        0 <= x < after.len() && 0 <= y < after.len() && after[x].id == after[y].id implies x
        == y by {
        if x == at && y != at {
            assert(among(all[f].clips, after[y].id));
            assert(carried(all, c.id));
        } else if y == at && x != at {
            assert(among(all[f].clips, after[x].id));
            assert(carried(all, c.id));
        } else if x != at {
            let kx = if x < at {
                x
            } else {
                x - 1
            };
            let ky = if y < at {
                y
            } else {
                y - 1
            };
            assert(all[f].clips[kx].id == all[f].clips[ky].id);
        }
    }
    lemma_renumbered(all, f, after, d.next_clip_id, top);
    lemma_tracks_after(d, kind, a, after);
    let e = edit::with_clips(d, kind, a, after);
    if carried(timeline::all_tracks(e), id) {
        lemma_carried_after(all, f, after, id);
        if among(after, id) {
            let j = choose|j: int| 0 <= j < after.len() && (#[trigger] after[j]).id == id;
            if j != at {
                assert(among(all[f].clips, after[j].id));
            }
        }
    }
}

/// No clip carries an id that has not been handed out.
pub proof fn fresh_id_is_nowhere(d: Document, id: ClipId)
    requires
        timeline::well_numbered(d),
        id.0 >= d.next_clip_id,
    ensures
        !carried(timeline::all_tracks(d), id),
{
    let all = timeline::all_tracks(d);
    if carried(all, id) {
        let a = choose|a: int| 0 <= a < all.len() && among((#[trigger] all[a]).clips, id);
        let i = choose|i: int| 0 <= i < all[a].clips.len() && (#[trigger] all[a].clips[i]).id == id;
        assert(all[a].clips[i].id.0 < d.next_clip_id);
    }
}

/// A document whose clips kept their ids and places keeps its numbering.
proof fn lemma_rewritten(d: Document, e: Document, id: ClipId)
    requires
        timeline::well_numbered(d),
        same_ids(d.video, e.video),
        same_ids(d.audio, e.audio),
        e.next_clip_id == d.next_clip_id,
        e.next_track_id == d.next_track_id,
        e.next_group_id >= d.next_group_id,
        e.markers == d.markers,
        e.next_marker_id == d.next_marker_id,
    ensures
        timeline::well_numbered(e),
        carried(timeline::all_tracks(e), id) ==> carried(timeline::all_tracks(d), id),
{
    lemma_same_ids_joined(d, e);
    lemma_same_ids_numbered(
        timeline::all_tracks(d),
        timeline::all_tracks(e),
        d.next_clip_id,
        d.next_track_id,
    );
    if carried(timeline::all_tracks(e), id) {
        lemma_same_ids_carried(timeline::all_tracks(d), timeline::all_tracks(e), id);
    }
}

proof fn lemma_group_moved_same(
    d: Document,
    group: Option<GroupId>,
    except: ClipId,
    old_at: Duration,
    new_at: Duration,
)
    ensures
        ({
            let e = edit::with_group_moved(d, group, except, old_at, new_at);
            &&& same_ids(d.video, e.video)
            &&& same_ids(d.audio, e.audio)
            &&& e == (Document { video: e.video, audio: e.audio, ..d })
        }),
{
}

proof fn lemma_add_clip(d: Document, track: TrackId, c: Clip, id: ClipId)
    requires
        timeline::well_numbered(d),
        d.next_clip_id < u64::MAX,
        edit::edited(d, Command::AddClip { track, clip: Box::new(c) }) is Ok,
    ensures
        ({
            let e = edit::edited(d, Command::AddClip { track, clip: Box::new(c) })->Ok_0;
            &&& timeline::well_numbered(e)
            &&& carried(timeline::all_tracks(e), id) ==> carried(timeline::all_tracks(d), id) || id
                == ClipId(d.next_clip_id)
        }),
{
    lemma_track_place(d, track);
    fresh_id_is_nowhere(d, ClipId(d.next_clip_id));
    if let Some((kind, a)) = edit::track_place(d, track) {
        let clips = edit::clips_of(d, kind, a);
        let added = Clip { id: ClipId(d.next_clip_id), group: None, ..c };
        let top = (d.next_clip_id + 1) as u64;
        lemma_grown(d, kind, a, clips.len() as int, added, top, id);
        assert(clips.insert(clips.len() as int, added) =~= clips.push(added));
        let e = edit::edited(d, Command::AddClip { track, clip: Box::new(c) })->Ok_0;
        assert(timeline::all_tracks(e) == timeline::all_tracks(
            edit::with_clips(d, kind, a, clips.push(added)),
        ));
    }
}

proof fn lemma_split(d: Document, clip: ClipId, at: Duration, id: ClipId)
    requires
        timeline::well_numbered(d),
        d.next_clip_id < u64::MAX,
        edit::edited(d, Command::SplitClip { clip, at }) is Ok,
    ensures
        ({
            let e = edit::edited(d, Command::SplitClip { clip, at })->Ok_0;
            &&& timeline::well_numbered(e)
            &&& carried(timeline::all_tracks(e), id) ==> carried(timeline::all_tracks(d), id) || id
                == ClipId(d.next_clip_id)
        }),
{
    place_is_carrier(d, clip);
    if let Some((kind, a, i)) = edit::clip_place(d, clip) {
        let clips = edit::clips_of(d, kind, a);
        let c = clips[i];
        if let Some(cut) = edit::source_cut(c, at) {
            let left = edit::left_part(c, cut);
            let right = Clip { id: ClipId(d.next_clip_id), ..edit::right_part(c, cut, at) };
            let m = edit::with_clip(d, kind, a, i, left);
            lemma_rewritten(d, m, id);
            lemma_rewritten(d, m, ClipId(d.next_clip_id));
            fresh_id_is_nowhere(d, ClipId(d.next_clip_id));
            let top = (d.next_clip_id + 1) as u64;
            lemma_grown(m, kind, a, i + 1, right, top, id);
            let e = edit::edited(d, Command::SplitClip { clip, at })->Ok_0;
            let n = edit::with_clips(m, kind, a, clips.update(i, left).insert(i + 1, right));
            assert(edit::clips_of(m, kind, a) =~= clips.update(i, left));
            assert(edit::list(n, kind) =~= edit::list(e, kind));
            assert(timeline::all_tracks(e) =~= timeline::all_tracks(n));
        }
    }
}

proof fn lemma_move_to_track(d: Document, clip: ClipId, to: TrackId, offset: Duration, id: ClipId)
    requires
        timeline::well_numbered(d),
        edit::edited(d, Command::MoveClipToTrack { clip, to, offset }) is Ok,
    ensures
        ({
            let e = edit::edited(d, Command::MoveClipToTrack { clip, to, offset })->Ok_0;
            &&& timeline::well_numbered(e)
            &&& carried(timeline::all_tracks(e), id) ==> carried(timeline::all_tracks(d), id)
        }),
{
    place_is_carrier(d, clip);
    lemma_track_place(d, to);
    if let Some((kind, a, i)) = edit::clip_place(d, clip) {
        if let Some((to_kind, to_a)) = edit::track_place(d, to) {
            let clips = edit::clips_of(d, kind, a);
            let c = clips[i];
            let rest = clips.remove(i);
            lemma_shrunk(d, kind, a, i, rest, id);
            lemma_shrunk(d, kind, a, i, rest, clip);
            let taken = edit::with_clips(d, kind, a, rest);
            let all = timeline::all_tracks(d);
            let left = timeline::all_tracks(taken);
            let f = flat(d, kind, a);
            lemma_flat(d, kind, a, rest);
            assert(!carried(left, clip)) by {
                if carried(left, clip) {
                    let b = choose|b: int| 0 <= b < left.len() && among(
                        (#[trigger] left[b]).clips,
                        clip,
                    );
                    if b != f {
                        let j = choose|j: int|
                            0 <= j < left[b].clips.len() && (#[trigger] left[b].clips[j]).id
                                == clip;
                        assert(all[b].clips[j].id == all[f].clips[i].id);
                    }
                }
            }
            let moved = Clip { offset, ..c };
            let target = edit::clips_of(taken, to_kind, to_a);
            lemma_grown(
                taken,
                to_kind,
                to_a,
                target.len() as int,
                moved,
                d.next_clip_id,
                id,
            );
            assert(target.insert(target.len() as int, moved) =~= target.push(moved));
            let put = edit::with_clips(taken, to_kind, to_a, target.push(moved));
            assert(all[f].clips[i].id.0 < d.next_clip_id);
            lemma_group_moved_same(put, c.group, clip, c.offset, offset);
            let e = edit::with_group_moved(put, c.group, clip, c.offset, offset);
            lemma_rewritten(put, e, id);
        }
    }
}

proof fn lemma_add_track(d: Document, kind: TrackKind, id: ClipId)
    requires
        timeline::well_numbered(d),
        d.next_track_id < u64::MAX,
    ensures
        ({
            let e = edit::edited(d, Command::AddTrack { kind })->Ok_0;
            &&& timeline::well_numbered(e)
            &&& carried(timeline::all_tracks(e), id) ==> carried(timeline::all_tracks(d), id)
        }),
{
    let e = edit::edited(d, Command::AddTrack { kind })->Ok_0;
    let s = timeline::all_tracks(d);
    let t = timeline::all_tracks(e);
    let new = edit::empty_track(TrackId(d.next_track_id));
    let f = match kind {
        TrackKind::Video => d.video.len() as int,
        TrackKind::Audio => s.len() as int,
    };
    assert(t =~= s.insert(f, new));
    lemma_with_track(s, f, new, d.next_clip_id, d.next_track_id, id);
}

/// A new empty track with the next id keeps the numbering.
proof fn lemma_with_track(
    s: Seq<TrackState>,
    f: int,
    new: TrackState,
    clips: u64,
    tracks: u64,
    id: ClipId,
)
    requires
        timeline::clips_numbered(s, clips),
        timeline::tracks_numbered(s, tracks),
        0 <= f <= s.len(),
        new.clips.len() == 0,
        new.id == TrackId(tracks),
        0 < tracks < u64::MAX,
    ensures
        timeline::clips_numbered(s.insert(f, new), clips),
        timeline::tracks_numbered(s.insert(f, new), (tracks + 1) as u64),
        carried(s.insert(f, new), id) ==> carried(s, id),
{
    let t = s.insert(f, new);
    assert forall|a: int| #![trigger t[a]] 0 <= a < t.len() && a != f implies t[a] == s[if a < f {
        a
    } else {
        a - 1
    }] by {}
    assert forall|a: int, i: int|
        0 <= a < t.len() && 0 <= i < t[a].clips.len() implies 0 < (
    #[trigger] t[a].clips[i]).id.0 < clips by {
        let k = if a < f {
            a
        } else {
            a - 1
        };
        assert(0 < s[k].clips[i].id.0 < clips);
    }
    assert forall|a: int, i: int, b: int, j: int|
        #![trigger t[a].clips[i], t[b].clips[j]]
        0 <= a < t.len() && 0 <= i < t[a].clips.len() && 0 <= b < t.len() && 0 <= j
            < t[b].clips.len() && t[a].clips[i].id == t[b].clips[j].id implies a == b && i == j by {
        let ka = if a < f {
            a
        } else {
            a - 1
        };
        let kb = if b < f {
            b
        } else {
            b - 1
        };
        assert(s[ka].clips[i].id == s[kb].clips[j].id);
    }
    assert forall|a: int| 0 <= a < t.len() implies 0 < (#[trigger] t[a]).id.0 < tracks + 1 by {
        if a != f {
            let k = if a < f {
                a
            } else {
                a - 1
            };
            assert(0 < s[k].id.0 < tracks);
        }
    }
    assert forall|a: int, b: int|
        0 <= a < t.len() && 0 <= b < t.len() && (#[trigger] t[a]).id == (
        #[trigger] t[b]).id implies a == b by {
        let ka = if a < f {
            a
        } else {
            a - 1
        };
        let kb = if b < f {
            b
        } else {
            b - 1
        };
        if a != f {
            assert(s[ka].id.0 < tracks);
        }
        if b != f {
            assert(s[kb].id.0 < tracks);
        }
    }
    if carried(t, id) {
        let a = choose|a: int| 0 <= a < t.len() && among((#[trigger] t[a]).clips, id);
        let k = if a < f {
            a
        } else {
            a - 1
        };
        assert(among(s[k].clips, id));
    }
}

/// Fewer tracks keep the numbering.
proof fn lemma_without_track(s: Seq<TrackState>, f: int, clips: u64, tracks: u64, id: ClipId)
    requires
        timeline::clips_numbered(s, clips),
        timeline::tracks_numbered(s, tracks),
        0 <= f < s.len(),
    ensures
        timeline::clips_numbered(s.remove(f), clips),
        timeline::tracks_numbered(s.remove(f), tracks),
        carried(s.remove(f), id) ==> carried(s, id),
{
    let t = s.remove(f);
    assert forall|a: int| #![trigger t[a]] 0 <= a < t.len() implies t[a] == s[if a < f {
        a
    } else {
        a + 1
    }] by {}
    assert forall|a: int, i: int|
        0 <= a < t.len() && 0 <= i < t[a].clips.len() implies 0 < (
    #[trigger] t[a].clips[i]).id.0 < clips by {
        let k = if a < f {
            a
        } else {
            a + 1
        };
        assert(0 < s[k].clips[i].id.0 < clips);
    }
    assert forall|a: int, i: int, b: int, j: int|
        #![trigger t[a].clips[i], t[b].clips[j]]
        0 <= a < t.len() && 0 <= i < t[a].clips.len() && 0 <= b < t.len() && 0 <= j
            < t[b].clips.len() && t[a].clips[i].id == t[b].clips[j].id implies a == b && i == j by {
        let ka = if a < f {
            a
        } else {
            a + 1
        };
        let kb = if b < f {
            b
        } else {
            b + 1
        };
        assert(s[ka].clips[i].id == s[kb].clips[j].id);
    }
    assert forall|a: int| 0 <= a < t.len() implies 0 < (#[trigger] t[a]).id.0 < tracks by {
        let k = if a < f {
            a
        } else {
            a + 1
        };
        assert(0 < s[k].id.0 < tracks);
    }
    assert forall|a: int, b: int|
        0 <= a < t.len() && 0 <= b < t.len() && (#[trigger] t[a]).id == (
        #[trigger] t[b]).id implies a == b by {
        let ka = if a < f {
            a
        } else {
            a + 1
        };
        let kb = if b < f {
            b
        } else {
            b + 1
        };
        assert(s[ka].id == s[kb].id);
    }
    if carried(t, id) {
        let a = choose|a: int| 0 <= a < t.len() && among((#[trigger] t[a]).clips, id);
        let k = if a < f {
            a
        } else {
            a + 1
        };
        assert(among(s[k].clips, id));
    }
}

proof fn lemma_remove_track(d: Document, track: TrackId, id: ClipId)
    requires
        timeline::well_numbered(d),
        edit::edited(d, Command::RemoveTrack { track }) is Ok,
    ensures
        ({
            let e = edit::edited(d, Command::RemoveTrack { track })->Ok_0;
            &&& timeline::well_numbered(e)
            &&& carried(timeline::all_tracks(e), id) ==> carried(timeline::all_tracks(d), id)
        }),
{
    lemma_track_place(d, track);
    if let Some((kind, a)) = edit::track_place(d, track) {
        let e = edit::edited(d, Command::RemoveTrack { track })->Ok_0;
        let s = timeline::all_tracks(d);
        let f = flat(d, kind, a);
        assert(timeline::all_tracks(e) =~= s.remove(f));
        lemma_without_track(s, f, d.next_clip_id, d.next_track_id, id);
    }
}

/// Dropping markers keeps those left distinct, in the old order.
proof fn lemma_without_marker(markers: Seq<Marker>, id: MarkerId, next: u64)
    requires
        timeline::markers_numbered(markers, next),
    ensures
        timeline::markers_numbered(edit::without_marker(markers, id), next),
        forall|k: int|
            #![trigger edit::without_marker(markers, id)[k]]
            0 <= k < edit::without_marker(markers, id).len() ==> markers.contains(
                edit::without_marker(markers, id)[k],
            ) && edit::without_marker(markers, id)[k].id != id,
    decreases markers.len(),
{
    if markers.len() > 0 {
        let shorter = markers.drop_last();
        let before = edit::without_marker(shorter, id);
        let now = edit::without_marker(markers, id);
        let last = markers.last();
        assert forall|a: int| 0 <= a < shorter.len() implies 0 < (
        #[trigger] shorter[a]).id.0 < next by {
            assert(0 < markers[a].id.0 < next);
        }
        assert forall|a: int, b: int|
            0 <= a < shorter.len() && 0 <= b < shorter.len() && (#[trigger] shorter[a]).id == (
            #[trigger] shorter[b]).id implies a == b by {
            assert(markers[a].id == markers[b].id);
        }
        lemma_without_marker(shorter, id, next);
        assert(markers[markers.len() - 1] == last);
        assert(0 < last.id.0 < next);
        assert forall|k: int| #![trigger before[k]] 0 <= k < before.len() implies markers.contains(
            before[k],
        ) && before[k].id != last.id by {
            let m = before[k];
            assert(shorter.contains(m));
            let x = choose|x: int| 0 <= x < shorter.len() && shorter[x] == m;
            assert(markers[x] == m);
            if m.id == last.id {
                assert(markers[x].id == markers[markers.len() - 1].id);
            }
        }
        if last.id != id {
            assert(now =~= before.push(last));
            assert(markers.contains(last));
        }
    }
}

proof fn lemma_add_marker(markers: Seq<Marker>, m: Marker, next: u64)
    requires
        timeline::markers_numbered(markers, next),
        m.id == MarkerId(next),
        0 < next < u64::MAX,
    ensures
        timeline::markers_numbered(markers.push(m), (next + 1) as u64),
{
    let t = markers.push(m);
    assert forall|a: int| 0 <= a < t.len() implies 0 < (#[trigger] t[a]).id.0 < next + 1 by {
        if a < markers.len() {
            assert(0 < markers[a].id.0 < next);
        }
    }
    assert forall|a: int, b: int|
        0 <= a < t.len() && 0 <= b < t.len() && (#[trigger] t[a]).id == (
        #[trigger] t[b]).id implies a == b by {
        if a < markers.len() {
            assert(markers[a].id.0 < next);
        }
        if b < markers.len() {
            assert(markers[b].id.0 < next);
        }
    }
}

proof fn lemma_move_marker(markers: Seq<Marker>, i: int, pts: Duration, next: u64)
    requires
        timeline::markers_numbered(markers, next),
        0 <= i < markers.len(),
    ensures
        timeline::markers_numbered(markers.update(i, Marker { pts, ..markers[i] }), next),
{
    let t = markers.update(i, Marker { pts, ..markers[i] });
    assert forall|a: int| #![trigger t[a]] 0 <= a < t.len() implies t[a].id == markers[a].id by {}
    assert forall|a: int| 0 <= a < t.len() implies 0 < (#[trigger] t[a]).id.0 < next by {
        assert(0 < markers[a].id.0 < next);
    }
    assert forall|a: int, b: int|
        0 <= a < t.len() && 0 <= b < t.len() && (#[trigger] t[a]).id == (
        #[trigger] t[b]).id implies a == b by {
        assert(markers[a].id == markers[b].id);
    }
}

/// Every edit keeps a document well numbered: ids stay set, unique and below their counters.
/// And no edit brings back an id that was handed out before and is carried no more.
pub proof fn edit_keeps_numbering(d: Document, command: Command, id: ClipId)
    requires
        timeline::well_numbered(d),
        edit::has_room(d, edit::minted(command)),
        edit::edited(d, command) is Ok,
    ensures
        ({
            let e = edit::edited(d, command)->Ok_0;
            &&& timeline::well_numbered(e)
            &&& carried(timeline::all_tracks(e), id) ==> carried(timeline::all_tracks(d), id)
                || id.0 >= d.next_clip_id
        }),
    decreases command,
{
    let e = edit::edited(d, command)->Ok_0;
    match command {
        Command::AddClip { track, clip } => {
            lemma_add_clip(d, track, *clip, id);
        },
        Command::RemoveClip { clip } => {
            place_is_carrier(d, clip);
            if let Some((kind, a, i)) = edit::clip_place(d, clip) {
                lemma_shrunk(d, kind, a, i, edit::clips_of(d, kind, a).remove(i), id);
            }
        },
        Command::SplitClip { clip, at } => {
            lemma_split(d, clip, at, id);
        },
        Command::MoveClipToTrack { clip, to, offset } => {
            lemma_move_to_track(d, clip, to, offset, id);
        },
        Command::RippleDelete { clip } => {
            if let Some((kind, a, i)) = edit::clip_place(d, clip) {
                match edit::clips_of(d, kind, a)[i].group {
                    None => {
                        lemma_ripple_one(d, clip, id);
                    },
                    Some(g) => {
                        lemma_ripple_all(
                            d,
                            edit::members(d.video, g) + edit::members(d.audio, g),
                            id,
                        );
                    },
                }
            }
        },
        Command::AddTrack { kind } => {
            lemma_add_track(d, kind, id);
        },
        Command::RemoveTrack { track } => {
            lemma_remove_track(d, track, id);
        },
        Command::AddMarker { marker } => {
            lemma_add_marker(
                d.markers,
                Marker { id: MarkerId(d.next_marker_id), ..marker },
                d.next_marker_id,
            );
        },
        Command::RemoveMarker { marker } => {
            lemma_without_marker(d.markers, marker, d.next_marker_id);
        },
        Command::MoveMarker { marker, pts } => {
            edit::lemma_first_marker_is(d.markers, marker);
            lemma_move_marker(
                d.markers,
                edit::first_marker(d.markers, marker),
                pts,
                d.next_marker_id,
            );
        },
        Command::SetCanvas { .. } => {},
        Command::SetFrameRate { .. } => {},
        Command::Batch(commands) => {
            batch_keeps_numbering(d, commands@, id);
        },
        _ => {
            edit::edit_moves_counters(d, command);
            in_place_keeps_identity(d, command);
            lemma_rewritten(d, e, id);
        },
    }
}

/// A batch keeps a document well numbered, and brings no id back.
pub proof fn batch_keeps_numbering(d: Document, commands: Seq<Command>, id: ClipId)
    requires
        timeline::well_numbered(d),
        edit::has_room(d, edit::minted_all(commands)),
        edit::edited_all(d, commands) is Ok,
    ensures
        ({
            let e = edit::edited_all(d, commands)->Ok_0;
            &&& timeline::well_numbered(e)
            &&& carried(timeline::all_tracks(e), id) ==> carried(timeline::all_tracks(d), id)
                || id.0 >= d.next_clip_id
        }),
    decreases commands,
{
    if commands.len() > 0 {
        let m = edit::edited_all(d, commands.drop_last())->Ok_0;
        batch_keeps_numbering(d, commands.drop_last(), id);
        edit::batch_moves_counters(d, commands.drop_last());
        edit_keeps_numbering(m, commands.last(), id);
    }
}

/// A removed clip is gone: no clip carries its id, so that a later command naming it fails.
pub proof fn removed_clip_is_gone(d: Document, clip: ClipId)
    requires
        timeline::well_numbered(d),
        edit::edited(d, Command::RemoveClip { clip }) is Ok,
    ensures
        ({
            let e = edit::edited(d, Command::RemoveClip { clip })->Ok_0;
            &&& !carried(timeline::all_tracks(e), clip)
            &&& edit::clip_place(e, clip) is None
        }),
{
    place_is_carrier(d, clip);
    let (kind, a, i) = edit::clip_place(d, clip)->Some_0;
    let rest = edit::clips_of(d, kind, a).remove(i);
    lemma_shrunk(d, kind, a, i, rest, clip);
    lemma_flat(d, kind, a, rest);
    let e = edit::edited(d, Command::RemoveClip { clip })->Ok_0;
    let all = timeline::all_tracks(d);
    let left = timeline::all_tracks(e);
    let f = flat(d, kind, a);
    if carried(left, clip) {
        let b = choose|b: int| 0 <= b < left.len() && among((#[trigger] left[b]).clips, clip);
        if b != f {
            let j = choose|j: int|
                0 <= j < left[b].clips.len() && (#[trigger] left[b].clips[j]).id == clip;
            assert(all[b].clips[j].id == all[f].clips[i].id);
        }
    }
    place_is_carrier(e, clip);
}

/// An id that was handed out and is carried no more stays dead through every later edit: a
/// command naming it keeps failing.
pub proof fn dead_ids_stay_dead(d: Document, command: Command, id: ClipId)
    requires
        timeline::well_numbered(d),
        edit::has_room(d, edit::minted(command)),
        edit::edited(d, command) is Ok,
        id.0 < d.next_clip_id,
        edit::clip_place(d, id) is None,
    ensures
        edit::clip_place(edit::edited(d, command)->Ok_0, id) is None,
        id.0 < edit::edited(d, command)->Ok_0.next_clip_id,
{
    place_is_carrier(d, id);
    edit_keeps_numbering(d, command, id);
    edit::edit_moves_counters(d, command);
    place_is_carrier(edit::edited(d, command)->Ok_0, id);
}

/// An added clip carries an id that no clip carried before.
pub proof fn added_clip_is_fresh(d: Document, track: TrackId, clip: Clip)
    requires
        timeline::well_numbered(d),
        d.next_clip_id < u64::MAX,
        edit::edited(d, Command::AddClip { track, clip: Box::new(clip) }) is Ok,
    ensures
        ({
            let e = edit::edited(d, Command::AddClip { track, clip: Box::new(clip) })->Ok_0;
            let id = ClipId(d.next_clip_id);
            let (kind, a) = edit::track_place(d, track)->Some_0;
            &&& !carried(timeline::all_tracks(d), id)
            &&& edit::clips_of(e, kind, a) == edit::clips_of(d, kind, a).push(
                Clip { id, group: None, ..clip },
            )
            &&& e.next_clip_id == d.next_clip_id + 1
        }),
{
    fresh_id_is_nowhere(d, ClipId(d.next_clip_id));
    lemma_track_place(d, track);
}

/// A batch of nothing changes nothing.
pub proof fn empty_batch_is_identity(d: Document, commands: Vec<Command>)
    requires
        commands@.len() == 0,
    ensures
        edit::edited(d, Command::Batch(commands)) == Ok::<Document, EditError>(d),
{
}

/// A batch does what its commands do one after another: splitting it in two changes nothing,
/// and it fails when and as the first failing command does.
pub proof fn batch_is_sequential(d: Document, first: Seq<Command>, second: Seq<Command>)
    ensures
        edit::edited_all(d, first + second) == match edit::edited_all(d, first) {
            Ok(m) => edit::edited_all(m, second),
            Err(e) => Err(e),
        },
    decreases second.len(),
{
    if second.len() == 0 {
        assert(first + second =~= first);
    } else {
        batch_is_sequential(d, first, second.drop_last());
        assert((first + second).drop_last() =~= first + second.drop_last());
    }
}

/// A batch of one command is that command.
pub proof fn single_batch_is_its_command(d: Document, command: Command)
    ensures
        edit::edited_all(d, seq![command]) == edit::edited(d, command),
{
    assert(seq![command].drop_last() =~= Seq::<Command>::empty());
    reveal_with_fuel(edit::edited_all, 2);
}

/// A batch inside a batch does what its commands do in its place.
pub proof fn batches_nest(
    d: Document,
    before: Seq<Command>,
    inner: Vec<Command>,
    after: Seq<Command>,
)
    ensures
        edit::edited_all(d, before + seq![Command::Batch(inner)] + after) == edit::edited_all(
            d,
            before + inner@ + after,
        ),
{
    batch_is_sequential(d, before + seq![Command::Batch(inner)], after);
    batch_is_sequential(d, before, seq![Command::Batch(inner)]);
    batch_is_sequential(d, before + inner@, after);
    batch_is_sequential(d, before, inner@);
    if let Ok(m) = edit::edited_all(d, before) {
        single_batch_is_its_command(m, Command::Batch(inner));
    }
}

/// Whether the two documents differ at most in one track.
pub open spec fn differ_in_one_track(d: Document, e: Document, kind: TrackKind, a: int) -> bool {
    &&& d.video.len() == e.video.len()
    &&& d.audio.len() == e.audio.len()
    &&& forall|b: int|
        #![trigger e.video[b]]
        0 <= b < d.video.len() && !(kind == TrackKind::Video && a == b) ==> e.video[b] == d.video[b]
    &&& forall|b: int|
        #![trigger e.audio[b]]
        0 <= b < d.audio.len() && !(kind == TrackKind::Audio && a == b) ==> e.audio[b] == d.audio[b]
}

/// A ripple trim touches no other track, and leaves the trimmed clip where it starts.
pub proof fn ripple_trim_stays_on_its_track(
    d: Document,
    clip: ClipId,
    in_point: Option<Duration>,
    out_point: Option<Duration>,
)
    requires
        edit::edited(d, Command::RippleTrim { clip, in_point, out_point }) is Ok,
    ensures
        ({
            let e = edit::edited(d, Command::RippleTrim { clip, in_point, out_point })->Ok_0;
            let (kind, a, i) = edit::clip_place(d, clip)->Some_0;
            &&& differ_in_one_track(d, e, kind, a)
            &&& edit::clips_of(e, kind, a)[i].offset == edit::clips_of(d, kind, a)[i].offset
        }),
{
    place_is_carrier(d, clip);
}

/// The same ids in the same places are found in the same places.
pub proof fn lemma_same_place(s: Seq<TrackState>, t: Seq<TrackState>, id: ClipId)
    requires
        same_ids(s, t),
    ensures
        edit::first_holder(t, id) == edit::first_holder(s, id),
        edit::first_holder(s, id) < s.len() ==> edit::first_clip(
            t[edit::first_holder(s, id)].clips,
            id,
        ) == edit::first_clip(s[edit::first_holder(s, id)].clips, id),
{
    assert forall|a: int| 0 <= a < s.len() implies edit::first_clip(
        (#[trigger] t[a]).clips,
        id,
    ) == edit::first_clip(s[a].clips, id) by {
        let at = edit::first_clip(s[a].clips, id);
        edit::lemma_first_clip_is(s[a].clips, id);
        let clips = t[a].clips;
        assert forall|j: int| #![trigger clips[j]] 0 <= j < at implies !(clips[j].id == id) by {
            assert(t[a].clips[j].id == s[a].clips[j].id);
        }
        if at < clips.len() {
            assert(t[a].clips[at].id == s[a].clips[at].id);
        }
        edit::lemma_first_clip(clips, id, at);
    }
    edit::lemma_first_holder_is(s, id);
    let at = edit::first_holder(s, id);
    assert forall|j: int|
        #![trigger t[j]]
        0 <= j < at implies !(edit::first_clip(t[j].clips, id) < t[j].clips.len()) by {
        assert(edit::first_clip(s[j].clips, id) >= s[j].clips.len());
    }
    edit::lemma_first_holder(t, id, at);
    if at < s.len() {
        assert(edit::first_clip(t[at].clips, id) == edit::first_clip(s[at].clips, id));
    }
}

/// Whether the clips that start after `start` can move by `new - old` and still start after it,
/// no later than the longest span.
pub open spec fn can_reflow(
    clips: Seq<Clip>,
    start: Duration,
    old_length: Duration,
    new_length: Duration,
) -> bool {
    forall|j: int|
        #![trigger clips[j]]
        0 <= j < clips.len() && clips[j].offset.nanos > start.nanos ==> {
            &&& clips[j].offset.nanos <= time::MAX_NANOS
            &&& start.nanos < clips[j].offset.nanos + new_length.nanos - old_length.nanos
                <= time::MAX_NANOS
        }
}

/// Clips that could move by `new - old` come back by `old - new`.
proof fn lemma_reflow_back(
    clips: Seq<Clip>,
    i: int,
    trimmed: Clip,
    old_length: Duration,
    new_length: Duration,
)
    requires
        0 <= i < clips.len(),
        trimmed.offset == clips[i].offset,
        can_reflow(clips, clips[i].offset, old_length, new_length),
    ensures
        ({
            let start = clips[i].offset;
            let moved = edit::reflowed(clips.update(i, trimmed), start, old_length, new_length);
            &&& moved.len() == clips.len()
            &&& moved[i] == trimmed
            &&& forall|j: int|
                #![trigger moved[j]]
                0 <= j < clips.len() ==> moved[j].offset.nanos == clips[j].offset.nanos + (
                if clips[j].offset.nanos > start.nanos {
                    new_length.nanos - old_length.nanos
                } else {
                    0
                })
            &&& edit::reflowed(moved.update(i, clips[i]), start, new_length, old_length) == clips
        }),
{
    let start = clips[i].offset;
    let moved = edit::reflowed(clips.update(i, trimmed), start, old_length, new_length);
    let again = edit::reflowed(moved.update(i, clips[i]), start, new_length, old_length);
    assert forall|j: int| #![trigger moved[j]] 0 <= j < clips.len() implies moved[j].offset.nanos
        == clips[j].offset.nanos + (if clips[j].offset.nanos > start.nanos {
        new_length.nanos - old_length.nanos
    } else {
        0
    }) by {}
    assert forall|j: int| #![trigger again[j]] 0 <= j < clips.len() implies again[j]
        == clips[j] by {
        assert(moved[j].offset.nanos == clips[j].offset.nanos + (if clips[j].offset.nanos
            > start.nanos {
            new_length.nanos - old_length.nanos
        } else {
            0
        }));
    }
    assert(again =~= clips);
}

/// A ripple trim moves every clip that starts after the trimmed one by the change of its
/// length, and one back to the old trim points undoes it. This takes that no clip is moved to
/// where the trimmed one starts or before it, and that none is or comes past the longest span.
pub proof fn ripple_trim_undoes_itself(
    d: Document,
    clip: ClipId,
    in_point: Option<Duration>,
    out_point: Option<Duration>,
)
    requires
        edit::edited(d, Command::RippleTrim { clip, in_point, out_point }) is Ok,
        ({
            let (kind, a, i) = edit::clip_place(d, clip)->Some_0;
            let clips = edit::clips_of(d, kind, a);
            let before = edit::footprint(clips[i]);
            let after = edit::footprint(Clip { in_point, out_point, ..clips[i] });
            before is Some && after is Some ==> can_reflow(
                clips,
                clips[i].offset,
                before->Some_0,
                after->Some_0,
            )
        }),
    ensures
        ({
            let (kind, a, i) = edit::clip_place(d, clip)->Some_0;
            let clips = edit::clips_of(d, kind, a);
            let c = clips[i];
            let before = edit::footprint(c);
            let after = edit::footprint(Clip { in_point, out_point, ..c });
            let e = edit::edited(d, Command::RippleTrim { clip, in_point, out_point })->Ok_0;
            let moved = edit::clips_of(e, kind, a);
            let back = Command::RippleTrim {
                clip,
                in_point: c.in_point,
                out_point: c.out_point,
            };
            &&& moved.len() == clips.len()
            &&& forall|j: int|
                #![trigger moved[j]]
                0 <= j < clips.len() ==> moved[j].offset.nanos == clips[j].offset.nanos + (
                if before is Some && after is Some && clips[j].offset.nanos > c.offset.nanos {
                    after->Some_0.nanos - before->Some_0.nanos
                } else {
                    0
                })
            &&& edit::edited(e, back) == Ok::<Document, EditError>(d)
        }),
{
    let command = Command::RippleTrim { clip, in_point, out_point };
    place_is_carrier(d, clip);
    in_place_keeps_identity(d, command);
    let e = edit::edited(d, command)->Ok_0;
    lemma_same_place(d.video, e.video, clip);
    lemma_same_place(d.audio, e.audio, clip);
    let (kind, a, i) = edit::clip_place(d, clip)->Some_0;
    let clips = edit::clips_of(d, kind, a);
    let c = clips[i];
    let moved = edit::clips_of(e, kind, a);
    let back = Command::RippleTrim { clip, in_point: c.in_point, out_point: c.out_point };
    assert(edit::clip_place(e, clip) == Some((kind, a, i)));
    let f = edit::edited(e, back)->Ok_0;
    let trimmed = Clip { in_point, out_point, ..c };
    match (edit::footprint(c), edit::footprint(trimmed)) {
        (Some(before), Some(after)) => {
            lemma_reflow_back(clips, i, trimmed, before, after);
        },
        _ => {},
    }
    assert(moved[i] == trimmed);
    assert((Clip { in_point: c.in_point, out_point: c.out_point, ..moved[i] }) == c);
    assert(edit::clips_of(f, kind, a) =~= clips);
    assert(edit::list(f, kind) =~= edit::list(d, kind));
    assert(f == d);
}

/// A ripple delete of a clip in no group touches no other track; where the clip's length is
/// unknown it is a plain removal.
pub proof fn ripple_delete_stays_on_its_track(d: Document, clip: ClipId)
    requires
        edit::edited(d, Command::RippleDelete { clip }) is Ok,
        ({
            let (kind, a, i) = edit::clip_place(d, clip)->Some_0;
            edit::clips_of(d, kind, a)[i].group is None
        }),
    ensures
        ({
            let e = edit::edited(d, Command::RippleDelete { clip })->Ok_0;
            let (kind, a, i) = edit::clip_place(d, clip)->Some_0;
            &&& differ_in_one_track(d, e, kind, a)
            &&& edit::footprint(edit::clips_of(d, kind, a)[i]) is None ==> Ok::<
                Document,
                EditError,
            >(e) == edit::edited(d, Command::RemoveClip { clip })
        }),
{
    place_is_carrier(d, clip);
}

/// The two parts of a split clip are contiguous: the left one ends in the source where the
/// right one starts, strictly inside the clip's trim, and the right one starts at the cut.
/// The left one keeps the id, the start, the leading transition and the fade-in; the right
/// one keeps the end and the fade-out.
pub proof fn split_parts_are_contiguous(d: Document, clip: ClipId, at: Duration)
    requires
        edit::edited(d, Command::SplitClip { clip, at }) is Ok,
    ensures
        ({
            let e = edit::edited(d, Command::SplitClip { clip, at })->Ok_0;
            let (kind, a, i) = edit::clip_place(d, clip)->Some_0;
            let whole = edit::clips_of(d, kind, a)[i];
            let left = edit::clips_of(e, kind, a)[i];
            let right = edit::clips_of(e, kind, a)[i + 1];
            &&& left.out_point is Some && left.out_point == right.in_point
            &&& whole.in_point matches Some(s) ==> s.nanos < left.out_point->Some_0.nanos
            &&& whole.out_point matches Some(o) ==> left.out_point->Some_0.nanos < o.nanos
            &&& whole.offset.nanos < right.offset.nanos && right.offset == at
            &&& left.id == whole.id && left.in_point == whole.in_point && left.offset
                == whole.offset
            &&& left.transition == whole.transition && left.fade_in == whole.fade_in
            &&& left.fade_out.nanos == 0
            &&& right.id == ClipId(d.next_clip_id) && right.out_point == whole.out_point
            &&& right.transition is None && right.fade_in.nanos == 0
            &&& right.fade_out == whole.fade_out && right.group == whole.group
            &&& edit::clips_of(e, kind, a).len() == edit::clips_of(d, kind, a).len() + 1
            &&& differ_in_one_track(d, e, kind, a)
        }),
{
    place_is_carrier(d, clip);
}

/// A moved group keeps its relative timing: every other member moves by exactly as much as
/// the clip did, unless it would pass zero or the longest span.
pub proof fn group_keeps_relative_timing(
    c: Clip,
    group: GroupId,
    except: ClipId,
    old_at: Duration,
    new_at: Duration,
)
    requires
        c.id != except,
        c.group == Some(group),
        0 <= c.offset.nanos + new_at.nanos - old_at.nanos <= time::MAX_NANOS,
    ensures
        edit::moved_along(c, group, except, old_at, new_at).offset.nanos - c.offset.nanos
            == new_at.nanos - old_at.nanos,
        edit::moved_along(c, group, except, old_at, new_at) == (Clip {
            offset: edit::moved_along(c, group, except, old_at, new_at).offset,
            ..c
        }),
{
}

/// Commands about markers leave tracks, canvas and frame rate as they were.
pub proof fn markers_do_not_touch_clips(d: Document, command: Command)
    requires
        command is AddMarker || command is RemoveMarker || command is MoveMarker,
        edit::edited(d, command) is Ok,
    ensures
        ({
            let e = edit::edited(d, command)->Ok_0;
            e == (Document { markers: e.markers, next_marker_id: e.next_marker_id, ..d })
        }),
{
}

/// After a group is dissolved no clip belongs to it, and only its members changed.
pub proof fn ungroup_dissolves(d: Document, clip: ClipId, group: GroupId)
    requires
        edit::edited(d, Command::UngroupClips { clip }) is Ok,
        ({
            let (kind, a, i) = edit::clip_place(d, clip)->Some_0;
            edit::clips_of(d, kind, a)[i].group == Some(group)
        }),
    ensures
        ({
            let e = edit::edited(d, Command::UngroupClips { clip })->Ok_0;
            forall|kind: TrackKind, a: int, i: int|
                #![trigger edit::clips_of(e, kind, a)[i]]
                0 <= a < edit::list(e, kind).len() && 0 <= i < edit::clips_of(e, kind, a).len()
                    ==> {
                    let was = edit::clips_of(d, kind, a)[i];
                    let is = edit::clips_of(e, kind, a)[i];
                    &&& is.group != Some(group)
                    &&& is == if was.group == Some(group) {
                        Clip { group: None, ..was }
                    } else {
                        was
                    }
                }
        }),
{
}

/// Linking and then dissolving: a clip that was in no group is as it was, whichever member
/// the dissolving names.
pub proof fn ungroup_undoes_group(
    d: Document,
    clips: Vec<ClipId>,
    member: ClipId,
    kind: TrackKind,
    a: int,
    i: int,
)
    requires
        edit::edited(d, Command::GroupClips { clips }) is Ok,
        ({
            let m = edit::edited(d, Command::GroupClips { clips })->Ok_0;
            let (k, b, j) = edit::clip_place(m, member)->Some_0;
            &&& edit::clip_place(m, member) is Some
            &&& edit::clips_of(m, k, b)[j].group == Some(GroupId(d.next_group_id))
        }),
        clips@.len() > 0,
        0 <= a < edit::list(d, kind).len(),
        0 <= i < edit::clips_of(d, kind, a).len(),
        edit::clips_of(d, kind, a)[i].group is None,
    ensures
        ({
            let m = edit::edited(d, Command::GroupClips { clips })->Ok_0;
            let e = edit::edited(m, Command::UngroupClips { clip: member })->Ok_0;
            &&& edit::edited(m, Command::UngroupClips { clip: member }) is Ok
            &&& edit::clips_of(e, kind, a)[i] == edit::clips_of(d, kind, a)[i]
        }),
{
    let g = GroupId(d.next_group_id);
    lemma_grouped_changes_group_only(d, clips@, g, kind, a, i);
    lemma_grouped_same_ids(d, clips@, g);
    let m = edit::edited(d, Command::GroupClips { clips })->Ok_0;
    ungroup_dissolves(m, member, g);
    let e = edit::edited(m, Command::UngroupClips { clip: member })->Ok_0;
    assert(edit::clips_of(m, kind, a).len() == edit::clips_of(d, kind, a).len());
    assert(edit::clips_of(e, kind, a)[i] == edit::clips_of(e, kind, a)[i]);
}

/// Grouping changes no clip but for its group.
pub proof fn lemma_grouped_changes_group_only(
    d: Document,
    ids: Seq<ClipId>,
    group: GroupId,
    kind: TrackKind,
    a: int,
    i: int,
)
    requires
        edit::grouped(d, ids, group) is Ok,
        0 <= a < edit::list(d, kind).len(),
        0 <= i < edit::clips_of(d, kind, a).len(),
    ensures
        ({
            let e = edit::grouped(d, ids, group)->Ok_0;
            let was = edit::clips_of(d, kind, a)[i];
            let is = edit::clips_of(e, kind, a)[i];
            &&& 0 <= a < edit::list(e, kind).len()
            &&& 0 <= i < edit::clips_of(e, kind, a).len()
            &&& is == was || is == (Clip { group: Some(group), ..was })
        }),
    decreases ids.len(),
{
    if ids.len() > 0 {
        lemma_grouped_changes_group_only(d, ids.drop_last(), group, kind, a, i);
        let m = edit::grouped(d, ids.drop_last(), group)->Ok_0;
        place_is_carrier(m, ids.last());
    }
}

/// The members of a group are the clips that belong to it, on any track, and no other.
pub proof fn members_are_the_group(tracks: Seq<TrackState>, group: GroupId, id: ClipId)
    ensures
        edit::members(tracks, group).contains(id) <==> exists|a: int, i: int|
            0 <= a < tracks.len() && 0 <= i < tracks[a].clips.len() && (
            #[trigger] tracks[a].clips[i]).id == id && tracks[a].clips[i].group == Some(group),
    decreases tracks.len(),
{
    if tracks.len() > 0 {
        let rest = tracks.drop_last();
        let last = tracks.len() - 1;
        members_are_the_group(rest, group, id);
        lemma_clip_members(tracks[last].clips, group, id);
        let (before, here) = (
            edit::members(rest, group),
            edit::clip_members(tracks[last].clips, group),
        );
        let all = before + here;
        if before.contains(id) {
            let (a, i) = choose|a: int, i: int|
                0 <= a < rest.len() && 0 <= i < rest[a].clips.len() && (
                #[trigger] rest[a].clips[i]).id == id && rest[a].clips[i].group == Some(group);
            assert(tracks[a].clips[i].id == id);
            let k = before.index_of(id);
            assert(all[k] == id);
        }
        if here.contains(id) {
            let i = choose|i: int|
                0 <= i < tracks[last].clips.len() && (#[trigger] tracks[last].clips[i]).id == id
                    && tracks[last].clips[i].group == Some(group);
            assert(tracks[last].clips[i].id == id);
            let k = here.index_of(id);
            assert(all[before.len() + k] == id);
        }
        if all.contains(id) {
            let k = all.index_of(id);
            if k < before.len() {
                assert(before[k] == id);
            } else {
                assert(here[k - before.len()] == id);
            }
        }
        if exists|a: int, i: int|
            0 <= a < tracks.len() && 0 <= i < tracks[a].clips.len() && (
            #[trigger] tracks[a].clips[i]).id == id && tracks[a].clips[i].group == Some(group) {
            let (a, i) = choose|a: int, i: int|
                0 <= a < tracks.len() && 0 <= i < tracks[a].clips.len() && (
                #[trigger] tracks[a].clips[i]).id == id && tracks[a].clips[i].group == Some(group);
            if a < last {
                assert(rest[a].clips[i].id == id);
            }
        }
    }
}

proof fn lemma_clip_members(clips: Seq<Clip>, group: GroupId, id: ClipId)
    ensures
        edit::clip_members(clips, group).contains(id) <==> exists|i: int|
            0 <= i < clips.len() && (#[trigger] clips[i]).id == id && clips[i].group == Some(group),
    decreases clips.len(),
{
    if clips.len() > 0 {
        let rest = clips.drop_last();
        let last = clips.len() - 1;
        lemma_clip_members(rest, group, id);
        let (before, all) = (
            edit::clip_members(rest, group),
            edit::clip_members(clips, group),
        );
        if before.contains(id) {
            let i = choose|i: int|
                0 <= i < rest.len() && (#[trigger] rest[i]).id == id && rest[i].group == Some(
                    group,
                );
            assert(clips[i].id == id);
            let k = before.index_of(id);
            assert(all[k] == id);
        }
        if clips[last].group == Some(group) && clips[last].id == id {
            assert(all[all.len() - 1] == id);
        }
        if all.contains(id) {
            let k = all.index_of(id);
            if k < before.len() {
                assert(before[k] == id);
            } else {
                assert(clips[last].id == id);
            }
        }
        if exists|i: int|
            0 <= i < clips.len() && (#[trigger] clips[i]).id == id && clips[i].group == Some(
                group,
            ) {
            let i = choose|i: int|
                0 <= i < clips.len() && (#[trigger] clips[i]).id == id && clips[i].group == Some(
                    group,
                );
            if i < last {
                assert(rest[i].id == id);
            }
        }
    }
}

/// A ripple delete of a clip in a group takes every clip of the group, on whatever track.
pub proof fn ripple_delete_takes_the_group(
    d: Document,
    clip: ClipId,
    group: GroupId,
    kind: TrackKind,
    a: int,
    i: int,
)
    requires
        timeline::well_numbered(d),
        edit::clip_place(d, clip) is Some,
        ({
            let (k, b, j) = edit::clip_place(d, clip)->Some_0;
            edit::clips_of(d, k, b)[j].group == Some(group)
        }),
        0 <= a < edit::list(d, kind).len(),
        0 <= i < edit::list(d, kind)[a].clips.len(),
        edit::list(d, kind)[a].clips[i].group == Some(group),
    ensures
        edit::edited(d, Command::RippleDelete { clip }) is Ok,
        !carried(
            timeline::all_tracks(edit::edited(d, Command::RippleDelete { clip })->Ok_0),
            edit::list(d, kind)[a].clips[i].id,
        ),
{
    let id = edit::list(d, kind)[a].clips[i].id;
    members_are_the_group(d.video, group, id);
    members_are_the_group(d.audio, group, id);
    let (v, s) = (edit::members(d.video, group), edit::members(d.audio, group));
    let ids = v + s;
    let list = edit::list(d, kind);
    assert(list[a].clips[i].id == id);
    match kind {
        TrackKind::Video => {
            assert(d.video[a].clips[i].id == id);
            let k = v.index_of(id);
            assert(ids[k] == id);
        },
        TrackKind::Audio => {
            assert(d.audio[a].clips[i].id == id);
            let k = s.index_of(id);
            assert(ids[v.len() + k] == id);
        },
    }
    let k = ids.index_of(id);
    lemma_rippled_is_gone(d, ids, k);
}

proof fn lemma_rippled_is_gone(d: Document, ids: Seq<ClipId>, k: int)
    requires
        timeline::well_numbered(d),
        0 <= k < ids.len(),
    ensures
        !carried(timeline::all_tracks(edit::ripple_removed_all(d, ids)), ids[k]),
    decreases ids.len(),
{
    let rest = ids.drop_last();
    let m = edit::ripple_removed_all(d, rest);
    let id = ids[k];
    lemma_ripple_all(d, rest, id);
    lemma_ripple_one(m, ids.last(), id);
    if k < rest.len() {
        assert(rest[k] == id);
        lemma_rippled_is_gone(d, rest, k);
    } else {
        let e = edit::ripple_removed(m, id);
        place_is_carrier(m, id);
        if let Some((kind, a, i)) = edit::clip_place(m, id) {
            let clips = edit::clips_of(m, kind, a);
            let left = clips.remove(i);
            let after = match edit::footprint(clips[i]) {
                Some(by) => edit::gap_closed(left, clips[i].offset, by),
                None => left,
            };
            lemma_shrunk(m, kind, a, i, after, id);
            lemma_flat(m, kind, a, after);
            let all = timeline::all_tracks(m);
            let now = timeline::all_tracks(e);
            let f = flat(m, kind, a);
            if carried(now, id) {
                let b = choose|b: int| 0 <= b < now.len() && among((#[trigger] now[b]).clips, id);
                if b != f {
                    let j = choose|j: int|
                        0 <= j < now[b].clips.len() && (#[trigger] now[b].clips[j]).id == id;
                    assert(all[b].clips[j].id == all[f].clips[i].id);
                }
            }
        }
    }
}

} // verus!

//! Raising the counters of a document changes which ids an edit hands out, and nothing else.
//!
//! A session edits its current version seated with the session's counters, which an undo may
//! have left behind. Such an edit does what it would do to the version itself, but for the ids
//! that it hands out; and it fails where, and as, it would fail on the version itself.

use vstd::prelude::*;

use crate::clip::Clip;
use crate::edit;
use crate::edit::{Command, EditError};
use crate::editor;
use crate::editor::Session;
use crate::ids::{ClipId, GroupId, TrackId, TrackKind};
use crate::laws;
use crate::lineage;
use crate::time::Duration;
use crate::timeline;
use crate::timeline::Document;
use crate::track::TrackState;

verus! {

/// How far ids move: clip ids from `clips` on by `clips_by`, track ids from `tracks` on by
/// `tracks_by`.
pub struct Raise {
    pub clips: u64,
    pub clips_by: nat,
    pub tracks: u64,
    pub tracks_by: nat,
}

/// A clip id, raised.
pub open spec fn raised_id(r: Raise, id: ClipId) -> ClipId {
    if id.0 >= r.clips {
        ClipId((id.0 + r.clips_by) as u64)
    } else {
        id
    }
}

/// A track id, raised.
pub open spec fn raised_track_id(r: Raise, id: TrackId) -> TrackId {
    if id.0 >= r.tracks {
        TrackId((id.0 + r.tracks_by) as u64)
    } else {
        id
    }
}

/// A clip with its id raised.
pub open spec fn raised_clip(r: Raise, c: Clip) -> Clip {
    Clip { id: raised_id(r, c.id), ..c }
}

/// Clips with their ids raised.
pub open spec fn raised_clips(r: Raise, clips: Seq<Clip>) -> Seq<Clip> {
    Seq::new(clips.len(), |i: int| raised_clip(r, clips[i]))
}

/// A track with its ids raised.
pub open spec fn raised_track(r: Raise, t: TrackState) -> TrackState {
    TrackState { id: raised_track_id(r, t.id), clips: raised_clips(r, t.clips), ..t }
}

/// Tracks with their ids raised.
pub open spec fn raised_tracks(r: Raise, tracks: Seq<TrackState>) -> Seq<TrackState> {
    Seq::new(tracks.len(), |a: int| raised_track(r, tracks[a]))
}

/// Ids, raised.
pub open spec fn raised_ids(r: Raise, ids: Seq<ClipId>) -> Seq<ClipId> {
    Seq::new(ids.len(), |i: int| raised_id(r, ids[i]))
}

/// A document with its ids and counters raised.
pub open spec fn raised(r: Raise, d: Document) -> Document {
    Document {
        video: raised_tracks(r, d.video),
        audio: raised_tracks(r, d.audio),
        next_clip_id: (d.next_clip_id + r.clips_by) as u64,
        next_track_id: (d.next_track_id + r.tracks_by) as u64,
        ..d
    }
}

/// Whether every clip and track of a list has an id below the counters.
pub open spec fn below(tracks: Seq<TrackState>, clips: u64, ids: u64) -> bool {
    &&& forall|a: int| 0 <= a < tracks.len() ==> (#[trigger] tracks[a]).id.0 < ids
    &&& forall|a: int, i: int|
        0 <= a < tracks.len() && 0 <= i < tracks[a].clips.len() ==> (
        #[trigger] tracks[a].clips[i]).id.0 < clips
}

/// Whether a document can be raised: its counters have reached where ids move, and the raised
/// ones are ids still.
pub open spec fn fits(r: Raise, d: Document) -> bool {
    &&& below(d.video, d.next_clip_id, d.next_track_id)
    &&& below(d.audio, d.next_clip_id, d.next_track_id)
    &&& r.clips <= d.next_clip_id
    &&& r.tracks <= d.next_track_id
    &&& d.next_clip_id + r.clips_by <= u64::MAX
    &&& d.next_track_id + r.tracks_by <= u64::MAX
}

/// Whether a clip id is not one that was handed out from `r.clips` up to `next`, nor one of
/// those raised.
pub open spec fn settled(r: Raise, next: nat, id: ClipId) -> bool {
    &&& !(r.clips <= id.0 < next)
    &&& !(r.clips + r.clips_by <= id.0 < next + r.clips_by)
}

/// Whether a track id is not one that was handed out from `r.tracks` up to `next`, nor one of
/// those raised.
pub open spec fn settled_track(r: Raise, next: nat, id: TrackId) -> bool {
    &&& !(r.tracks <= id.0 < next)
    &&& !(r.tracks + r.tracks_by <= id.0 < next + r.tracks_by)
}

/// Whether a command names no id that was handed out since the counters stood where ids move.
/// `clips` and `tracks` are the counters when the command's turn comes; a batch hands out more
/// as it goes.
pub open spec fn names_settled(r: Raise, clips: nat, tracks: nat, command: Command) -> bool
    decreases command,
{
    match command {
        Command::AddClip { track, .. } => settled_track(r, tracks, track),
        Command::RemoveClip { clip } => settled(r, clips, clip),
        Command::MoveClip { clip, .. } => settled(r, clips, clip),
        Command::TrimClip { clip, .. } => settled(r, clips, clip),
        Command::SetClipProperty { clip, .. } => settled(r, clips, clip),
        Command::SetClip { clip, .. } => settled(r, clips, clip),
        Command::SplitClip { clip, .. } => settled(r, clips, clip),
        Command::MoveClipToTrack { clip, to, .. } => settled(r, clips, clip) && settled_track(
            r,
            tracks,
            to,
        ),
        Command::RippleDelete { clip } => settled(r, clips, clip),
        Command::RippleTrim { clip, .. } => settled(r, clips, clip),
        Command::GroupClips { clips: members } => forall|i: int|
            0 <= i < members@.len() ==> settled(r, clips, #[trigger] members@[i]),
        Command::UngroupClips { clip } => settled(r, clips, clip),
        Command::RemoveTrack { track } => settled_track(r, tracks, track),
        Command::Batch(commands) => names_settled_all(r, clips, tracks, commands@),
        _ => true,
    }
}

/// Whether no command names an id that was handed out before its turn, since the counters stood
/// where ids move.
pub open spec fn names_settled_all(
    r: Raise,
    clips: nat,
    tracks: nat,
    commands: Seq<Command>,
) -> bool
    decreases commands,
{
    commands.len() > 0 ==> {
        let before = commands.drop_last();
        &&& names_settled_all(r, clips, tracks, before)
        &&& names_settled(
            r,
            clips + edit::minted_all(before).clips,
            tracks + edit::minted_all(before).tracks,
            commands.last(),
        )
    }
}

/// Whether the raised clips answer to `to` as the clips below `next` answer to `id`.
spec fn answers(r: Raise, next: u64, id: ClipId, to: ClipId) -> bool {
    forall|x: ClipId| x.0 < next ==> ((#[trigger] raised_id(r, x) == to) <==> x == id)
}

proof fn lemma_settled_answers(r: Raise, d: Document, id: ClipId)
    requires
        fits(r, d),
        settled(r, d.next_clip_id as nat, id),
    ensures
        answers(r, d.next_clip_id, id, id),
{
}

proof fn lemma_raised_answers(r: Raise, d: Document, id: ClipId)
    requires
        fits(r, d),
        id.0 < d.next_clip_id,
    ensures
        answers(r, d.next_clip_id, id, raised_id(r, id)),
{
}

// Places.

proof fn lemma_first_clip(r: Raise, clips: Seq<Clip>, next: u64, id: ClipId, to: ClipId)
    requires
        answers(r, next, id, to),
        forall|i: int| 0 <= i < clips.len() ==> (#[trigger] clips[i]).id.0 < next,
    ensures
        edit::first_clip(raised_clips(r, clips), to) == edit::first_clip(clips, id),
{
    let at = edit::first_clip(clips, id);
    let up = raised_clips(r, clips);
    edit::lemma_first_clip_is(clips, id);
    assert forall|j: int| #![trigger up[j]] 0 <= j < at implies !(up[j].id == to) by {
        assert(clips[j].id != id);
    }
    edit::lemma_first_clip(up, to, at);
}

proof fn lemma_first_holder(
    r: Raise,
    tracks: Seq<TrackState>,
    next: u64,
    ids: u64,
    id: ClipId,
    to: ClipId,
)
    requires
        answers(r, next, id, to),
        below(tracks, next, ids),
    ensures
        edit::first_holder(raised_tracks(r, tracks), to) == edit::first_holder(tracks, id),
        ({
            let a = edit::first_holder(tracks, id);
            a < tracks.len() ==> edit::first_clip(raised_tracks(r, tracks)[a].clips, to)
                == edit::first_clip(tracks[a].clips, id)
        }),
{
    let at = edit::first_holder(tracks, id);
    let up = raised_tracks(r, tracks);
    edit::lemma_first_holder_is(tracks, id);
    assert forall|a: int| 0 <= a < tracks.len() implies edit::first_clip(
        (#[trigger] up[a]).clips,
        to,
    ) == edit::first_clip(tracks[a].clips, id) by {
        assert forall|i: int| 0 <= i < tracks[a].clips.len() implies (
        #[trigger] tracks[a].clips[i]).id.0 < next by {}
        lemma_first_clip(r, tracks[a].clips, next, id, to);
    }
    assert forall|j: int| #![trigger up[j]] 0 <= j < at implies !(edit::first_clip(up[j].clips, to)
        < up[j].clips.len()) by {
        assert(!(edit::first_clip(tracks[j].clips, id) < tracks[j].clips.len()));
    }
    if at < tracks.len() {
        assert(edit::first_clip(up[at].clips, to) == edit::first_clip(tracks[at].clips, id));
    }
    edit::lemma_first_holder(up, to, at);
}

proof fn lemma_clip_place(r: Raise, d: Document, id: ClipId, to: ClipId)
    requires
        fits(r, d),
        answers(r, d.next_clip_id, id, to),
    ensures
        edit::clip_place(raised(r, d), to) == edit::clip_place(d, id),
        match edit::clip_place(d, id) {
            Some((kind, a, i)) => {
                &&& 0 <= a < edit::list(d, kind).len()
                &&& 0 <= i < edit::clips_of(d, kind, a).len()
                &&& edit::clips_of(d, kind, a)[i].id == id
                &&& id.0 < d.next_clip_id
                &&& edit::clips_of(raised(r, d), kind, a) == raised_clips(
                    r,
                    edit::clips_of(d, kind, a),
                )
            },
            None => true,
        },
{
    lemma_first_holder(r, d.video, d.next_clip_id, d.next_track_id, id, to);
    lemma_first_holder(r, d.audio, d.next_clip_id, d.next_track_id, id, to);
    laws::place_is_carrier(d, id);
    if let Some((kind, a, i)) = edit::clip_place(d, id) {
        assert(edit::list(d, kind)[a].clips[i].id.0 < d.next_clip_id);
    }
}

proof fn lemma_track_place(r: Raise, d: Document, id: TrackId)
    requires
        fits(r, d),
        settled_track(r, d.next_track_id as nat, id),
    ensures
        edit::track_place(raised(r, d), id) == edit::track_place(d, id),
        match edit::track_place(d, id) {
            Some((kind, a)) => {
                &&& 0 <= a < edit::list(d, kind).len()
                &&& edit::clips_of(raised(r, d), kind, a) == raised_clips(
                    r,
                    edit::clips_of(d, kind, a),
                )
            },
            None => true,
        },
{
    lemma_first_track(r, d, d.video, id);
    lemma_first_track(r, d, d.audio, id);
}

proof fn lemma_first_track(r: Raise, d: Document, tracks: Seq<TrackState>, id: TrackId)
    requires
        fits(r, d),
        below(tracks, d.next_clip_id, d.next_track_id),
        settled_track(r, d.next_track_id as nat, id),
    ensures
        edit::first_track(raised_tracks(r, tracks), id) == edit::first_track(tracks, id),
        0 <= edit::first_track(tracks, id) <= tracks.len(),
{
    let at = edit::first_track(tracks, id);
    let up = raised_tracks(r, tracks);
    edit::lemma_first_track_is(tracks, id);
    assert forall|j: int| #![trigger up[j]] 0 <= j < at implies !(up[j].id == id) by {
        assert(tracks[j].id != id);
    }
    edit::lemma_first_track(up, id, at);
}

// Changes.

proof fn lemma_with_clips(r: Raise, d: Document, kind: TrackKind, a: int, clips: Seq<Clip>)
    requires
        0 <= a < edit::list(d, kind).len(),
    ensures
        raised(r, edit::with_clips(d, kind, a, clips)) == edit::with_clips(
            raised(r, d),
            kind,
            a,
            raised_clips(r, clips),
        ),
{
    let tracks = edit::list(d, kind);
    assert(raised_tracks(r, tracks.update(a, TrackState { clips, ..tracks[a] }))
        =~= raised_tracks(r, tracks).update(
        a,
        TrackState { clips: raised_clips(r, clips), ..raised_tracks(r, tracks)[a] },
    ));
}

proof fn lemma_with_clip(r: Raise, d: Document, kind: TrackKind, a: int, i: int, c: Clip)
    requires
        0 <= a < edit::list(d, kind).len(),
        0 <= i < edit::clips_of(d, kind, a).len(),
    ensures
        raised(r, edit::with_clip(d, kind, a, i, c)) == edit::with_clip(
            raised(r, d),
            kind,
            a,
            i,
            raised_clip(r, c),
        ),
{
    let clips = edit::clips_of(d, kind, a);
    lemma_with_clips(r, d, kind, a, clips.update(i, c));
    assert(raised_clips(r, clips.update(i, c)) =~= raised_clips(r, clips).update(
        i,
        raised_clip(r, c),
    ));
}

proof fn lemma_group_moved(
    r: Raise,
    tracks: Seq<TrackState>,
    next: u64,
    ids: u64,
    group: GroupId,
    except: ClipId,
    old_at: Duration,
    new_at: Duration,
)
    requires
        below(tracks, next, ids),
        answers(r, next, except, except),
    ensures
        raised_tracks(r, edit::group_moved(tracks, group, except, old_at, new_at))
            == edit::group_moved(raised_tracks(r, tracks), group, except, old_at, new_at),
{
    let left = raised_tracks(r, edit::group_moved(tracks, group, except, old_at, new_at));
    let right = edit::group_moved(raised_tracks(r, tracks), group, except, old_at, new_at);
    assert forall|a: int| 0 <= a < tracks.len() implies left[a] == right[a] by {
        assert forall|i: int| 0 <= i < tracks[a].clips.len() implies left[a].clips[i]
            == right[a].clips[i] by {
            let c = tracks[a].clips[i];
            assert(c.id.0 < next);
            assert((raised_id(r, c.id) == except) <==> c.id == except);
        }
        assert(left[a].clips =~= right[a].clips);
    }
    assert(left =~= right);
}

proof fn lemma_with_group_moved(
    r: Raise,
    d: Document,
    group: Option<GroupId>,
    except: ClipId,
    old_at: Duration,
    new_at: Duration,
)
    requires
        fits(r, d),
        answers(r, d.next_clip_id, except, except),
    ensures
        raised(r, edit::with_group_moved(d, group, except, old_at, new_at))
            == edit::with_group_moved(raised(r, d), group, except, old_at, new_at),
{
    if let Some(g) = group {
        lemma_group_moved(
            r,
            d.video,
            d.next_clip_id,
            d.next_track_id,
            g,
            except,
            old_at,
            new_at,
        );
        lemma_group_moved(
            r,
            d.audio,
            d.next_clip_id,
            d.next_track_id,
            g,
            except,
            old_at,
            new_at,
        );
    }
}

proof fn lemma_group_dissolved(r: Raise, tracks: Seq<TrackState>, group: GroupId)
    ensures
        raised_tracks(r, edit::group_dissolved(tracks, group)) == edit::group_dissolved(
            raised_tracks(r, tracks),
            group,
        ),
{
    let left = raised_tracks(r, edit::group_dissolved(tracks, group));
    let right = edit::group_dissolved(raised_tracks(r, tracks), group);
    assert forall|a: int| 0 <= a < tracks.len() implies left[a] == right[a] by {
        assert(left[a].clips =~= right[a].clips);
    }
    assert(left =~= right);
}

proof fn lemma_clip_members(r: Raise, clips: Seq<Clip>, group: GroupId)
    ensures
        edit::clip_members(raised_clips(r, clips), group) == raised_ids(
            r,
            edit::clip_members(clips, group),
        ),
    decreases clips.len(),
{
    let up = raised_clips(r, clips);
    if clips.len() > 0 {
        lemma_clip_members(r, clips.drop_last(), group);
        assert(up.drop_last() =~= raised_clips(r, clips.drop_last()));
    }
    assert(edit::clip_members(up, group) =~= raised_ids(r, edit::clip_members(clips, group)));
}

proof fn lemma_members(r: Raise, tracks: Seq<TrackState>, group: GroupId)
    ensures
        edit::members(raised_tracks(r, tracks), group) == raised_ids(
            r,
            edit::members(tracks, group),
        ),
    decreases tracks.len(),
{
    let up = raised_tracks(r, tracks);
    if tracks.len() > 0 {
        lemma_members(r, tracks.drop_last(), group);
        lemma_clip_members(r, tracks.last().clips, group);
        assert(up.drop_last() =~= raised_tracks(r, tracks.drop_last()));
    }
    assert(edit::members(up, group) =~= raised_ids(r, edit::members(tracks, group)));
}

proof fn lemma_clip_members_below(clips: Seq<Clip>, group: GroupId, next: u64)
    requires
        forall|i: int| 0 <= i < clips.len() ==> (#[trigger] clips[i]).id.0 < next,
    ensures
        forall|k: int|
            0 <= k < edit::clip_members(clips, group).len() ==> (#[trigger] edit::clip_members(
                clips,
                group,
            )[k]).0 < next,
    decreases clips.len(),
{
    if clips.len() > 0 {
        assert forall|i: int| 0 <= i < clips.drop_last().len() implies (
        #[trigger] clips.drop_last()[i]).id.0 < next by {
            assert(clips.drop_last()[i] == clips[i]);
        }
        lemma_clip_members_below(clips.drop_last(), group, next);
        assert(clips[clips.len() - 1].id.0 < next);
        let before = edit::clip_members(clips.drop_last(), group);
        let now = edit::clip_members(clips, group);
        assert forall|k: int| 0 <= k < now.len() implies (#[trigger] now[k]).0 < next by {
            if k < before.len() {
                assert(now[k] == before[k]);
            }
        }
    }
}

proof fn lemma_members_below(tracks: Seq<TrackState>, group: GroupId, next: u64, ids: u64)
    requires
        below(tracks, next, ids),
    ensures
        forall|k: int|
            0 <= k < edit::members(tracks, group).len() ==> (#[trigger] edit::members(
                tracks,
                group,
            )[k]).0 < next,
    decreases tracks.len(),
{
    if tracks.len() > 0 {
        let rest = tracks.drop_last();
        let clips = tracks.last().clips;
        assert forall|a: int| 0 <= a < rest.len() implies (#[trigger] rest[a]).id.0 < ids by {
            assert(rest[a] == tracks[a]);
        }
        assert forall|a: int, i: int|
            0 <= a < rest.len() && 0 <= i < rest[a].clips.len() implies (
        #[trigger] rest[a].clips[i]).id.0 < next by {
            assert(rest[a] == tracks[a]);
            assert(tracks[a].clips[i].id.0 < next);
        }
        lemma_members_below(rest, group, next, ids);
        assert forall|i: int| 0 <= i < clips.len() implies (#[trigger] clips[i]).id.0 < next by {
            assert(tracks[tracks.len() - 1].clips[i].id.0 < next);
        }
        lemma_clip_members_below(clips, group, next);
        let before = edit::members(rest, group);
        let own = edit::clip_members(clips, group);
        let now = edit::members(tracks, group);
        assert forall|k: int| 0 <= k < now.len() implies (#[trigger] now[k]).0 < next by {
            if k < before.len() {
                assert(now[k] == before[k]);
            } else {
                assert(now[k] == own[k - before.len()]);
            }
        }
    }
}

/// Replacing the clips of a track by clips below the counter keeps a document raisable.
proof fn lemma_fits_with_clips(r: Raise, d: Document, kind: TrackKind, a: int, clips: Seq<Clip>)
    requires
        fits(r, d),
        0 <= a < edit::list(d, kind).len(),
        forall|i: int| 0 <= i < clips.len() ==> (#[trigger] clips[i]).id.0 < d.next_clip_id,
    ensures
        fits(r, edit::with_clips(d, kind, a, clips)),
{
    let t = edit::list(edit::with_clips(d, kind, a, clips), kind);
    let s = edit::list(d, kind);
    assert forall|b: int| 0 <= b < t.len() implies (#[trigger] t[b]).id.0 < d.next_track_id by {
        assert(s[b].id.0 < d.next_track_id);
    }
    assert forall|b: int, i: int|
        0 <= b < t.len() && 0 <= i < t[b].clips.len() implies (#[trigger] t[b].clips[i]).id.0
        < d.next_clip_id by {
        if b == a {
            assert(clips[i].id.0 < d.next_clip_id);
        } else {
            assert(s[b].clips[i].id.0 < d.next_clip_id);
        }
    }
}

proof fn lemma_ripple_one(r: Raise, d: Document, id: ClipId)
    requires
        fits(r, d),
        id.0 < d.next_clip_id,
    ensures
        raised(r, edit::ripple_removed(d, id)) == edit::ripple_removed(
            raised(r, d),
            raised_id(r, id),
        ),
        fits(r, edit::ripple_removed(d, id)),
        edit::ripple_removed(d, id).next_clip_id == d.next_clip_id,
{
    lemma_raised_answers(r, d, id);
    lemma_ripple_as(r, d, id, raised_id(r, id));
}

proof fn lemma_ripple_as(r: Raise, d: Document, id: ClipId, to: ClipId)
    requires
        fits(r, d),
        answers(r, d.next_clip_id, id, to),
    ensures
        raised(r, edit::ripple_removed(d, id)) == edit::ripple_removed(raised(r, d), to),
        fits(r, edit::ripple_removed(d, id)),
        edit::ripple_removed(d, id).next_clip_id == d.next_clip_id,
{
    lemma_clip_place(r, d, id, to);
    if let Some((kind, a, i)) = edit::clip_place(d, id) {
        let clips = edit::clips_of(d, kind, a);
        let rest = clips.remove(i);
        let up = raised_clips(r, clips);
        assert(raised_clips(r, rest) =~= up.remove(i));
        let after = match edit::footprint(clips[i]) {
            Some(by) => edit::gap_closed(rest, clips[i].offset, by),
            None => rest,
        };
        assert forall|j: int| 0 <= j < after.len() implies (#[trigger] after[j]).id.0
            < d.next_clip_id by {
            let k = if j < i {
                j
            } else {
                j + 1
            };
            assert(edit::list(d, kind)[a].clips[k].id.0 < d.next_clip_id);
            assert(rest[j] == clips[k]);
        }
        lemma_with_clips(r, d, kind, a, after);
        lemma_fits_with_clips(r, d, kind, a, after);
        if let Some(by) = edit::footprint(clips[i]) {
            assert(raised_clips(r, after) =~= edit::gap_closed(
                raised_clips(r, rest),
                clips[i].offset,
                by,
            ));
        }
    }
}

proof fn lemma_ripple_all(r: Raise, d: Document, ids: Seq<ClipId>)
    requires
        fits(r, d),
        forall|k: int| 0 <= k < ids.len() ==> (#[trigger] ids[k]).0 < d.next_clip_id,
    ensures
        raised(r, edit::ripple_removed_all(d, ids)) == edit::ripple_removed_all(
            raised(r, d),
            raised_ids(r, ids),
        ),
        fits(r, edit::ripple_removed_all(d, ids)),
        edit::ripple_removed_all(d, ids).next_clip_id == d.next_clip_id,
    decreases ids.len(),
{
    if ids.len() > 0 {
        let rest = ids.drop_last();
        assert forall|k: int| 0 <= k < rest.len() implies (#[trigger] rest[k]).0
            < d.next_clip_id by {
            assert(rest[k] == ids[k]);
        }
        lemma_ripple_all(r, d, rest);
        assert(raised_ids(r, ids).drop_last() =~= raised_ids(r, rest));
        assert(ids[ids.len() - 1].0 < d.next_clip_id);
        lemma_ripple_one(r, edit::ripple_removed_all(d, rest), ids.last());
    }
}

proof fn lemma_grouped(r: Raise, d: Document, ids: Seq<ClipId>, group: GroupId)
    requires
        fits(r, d),
        forall|k: int| 0 <= k < ids.len() ==> settled(r, d.next_clip_id as nat, #[trigger] ids[k]),
    ensures
        edit::grouped(raised(r, d), ids, group) == (match edit::grouped(d, ids, group) {
            Ok(e) => Ok::<Document, EditError>(raised(r, e)),
            Err(e) => Err(e),
        }),
        edit::grouped(d, ids, group) matches Ok(e) ==> fits(r, e) && e.next_clip_id
            == d.next_clip_id,
    decreases ids.len(),
{
    if ids.len() > 0 {
        let rest = ids.drop_last();
        assert forall|k: int| 0 <= k < rest.len() implies settled(
            r,
            d.next_clip_id as nat,
            #[trigger] rest[k],
        ) by {
            assert(rest[k] == ids[k]);
        }
        lemma_grouped(r, d, rest, group);
        if let Ok(m) = edit::grouped(d, rest, group) {
            let id = ids.last();
            assert(settled(r, d.next_clip_id as nat, ids[ids.len() - 1]));
            lemma_settled_answers(r, m, id);
            lemma_clip_place(r, m, id, id);
            if let Some((kind, a, i)) = edit::clip_place(m, id) {
                let clips = edit::clips_of(m, kind, a);
                let c = Clip { group: Some(group), ..clips[i] };
                lemma_with_clip(r, m, kind, a, i, c);
                let after = clips.update(i, c);
                assert forall|j: int| 0 <= j < after.len() implies (#[trigger] after[j]).id.0
                    < m.next_clip_id by {
                    assert(edit::list(m, kind)[a].clips[j].id.0 < m.next_clip_id);
                }
                lemma_fits_with_clips(r, m, kind, a, after);
            }
        }
    }
}

// Edits.

/// What is raised of an edit's outcome.
pub open spec fn raised_outcome(r: Raise, outcome: Result<Document, EditError>) -> Result<
    Document,
    EditError,
> {
    match outcome {
        Ok(e) => Ok(raised(r, e)),
        Err(e) => Err(e),
    }
}

proof fn lemma_numbered_fits(r: Raise, d: Document)
    requires
        timeline::well_numbered(d),
        r.clips <= d.next_clip_id,
        r.tracks <= d.next_track_id,
        d.next_clip_id + r.clips_by <= u64::MAX,
        d.next_track_id + r.tracks_by <= u64::MAX,
    ensures
        fits(r, d),
{
    let all = timeline::all_tracks(d);
    let n = d.video.len() as int;
    assert forall|a: int| 0 <= a < d.video.len() implies (#[trigger] d.video[a]).id.0
        < d.next_track_id by {
        assert(all[a] == d.video[a]);
    }
    assert forall|a: int, i: int|
        0 <= a < d.video.len() && 0 <= i < d.video[a].clips.len() implies (
    #[trigger] d.video[a].clips[i]).id.0 < d.next_clip_id by {
        assert(all[a] == d.video[a]);
        assert(all[a].clips[i].id.0 < d.next_clip_id);
    }
    assert forall|a: int| 0 <= a < d.audio.len() implies (#[trigger] d.audio[a]).id.0
        < d.next_track_id by {
        assert(all[n + a] == d.audio[a]);
    }
    assert forall|a: int, i: int|
        0 <= a < d.audio.len() && 0 <= i < d.audio[a].clips.len() implies (
    #[trigger] d.audio[a].clips[i]).id.0 < d.next_clip_id by {
        assert(all[n + a] == d.audio[a]);
        assert(all[n + a].clips[i].id.0 < d.next_clip_id);
    }
}

proof fn lemma_add_clip(r: Raise, d: Document, track: TrackId, clip: Clip)
    requires
        fits(r, d),
        d.next_clip_id < u64::MAX,
        d.next_clip_id + r.clips_by < u64::MAX,
        settled_track(r, d.next_track_id as nat, track),
    ensures
        ({
            let command = Command::AddClip { track, clip: Box::new(clip) };
            edit::edited(raised(r, d), command) == raised_outcome(r, edit::edited(d, command))
        }),
{
    lemma_track_place(r, d, track);
    if let Some((kind, a)) = edit::track_place(d, track) {
        let clips = edit::clips_of(d, kind, a);
        let c = Clip { id: ClipId(d.next_clip_id), group: None, ..clip };
        lemma_with_clips(r, d, kind, a, clips.push(c));
        assert(raised_clips(r, clips.push(c)) =~= raised_clips(r, clips).push(raised_clip(r, c)));
    }
}

proof fn lemma_remove_clip(r: Raise, d: Document, clip: ClipId)
    requires
        fits(r, d),
        settled(r, d.next_clip_id as nat, clip),
    ensures
        ({
            let command = Command::RemoveClip { clip };
            edit::edited(raised(r, d), command) == raised_outcome(r, edit::edited(d, command))
        }),
{
    lemma_settled_answers(r, d, clip);
    lemma_clip_place(r, d, clip, clip);
    if let Some((kind, a, i)) = edit::clip_place(d, clip) {
        let clips = edit::clips_of(d, kind, a);
        lemma_with_clips(r, d, kind, a, clips.remove(i));
        assert(raised_clips(r, clips.remove(i)) =~= raised_clips(r, clips).remove(i));
    }
}

proof fn lemma_move_clip(r: Raise, d: Document, clip: ClipId, offset: Duration)
    requires
        fits(r, d),
        settled(r, d.next_clip_id as nat, clip),
    ensures
        ({
            let command = Command::MoveClip { clip, offset };
            edit::edited(raised(r, d), command) == raised_outcome(r, edit::edited(d, command))
        }),
{
    lemma_settled_answers(r, d, clip);
    lemma_clip_place(r, d, clip, clip);
    if let Some((kind, a, i)) = edit::clip_place(d, clip) {
        let clips = edit::clips_of(d, kind, a);
        let c = Clip { offset, ..clips[i] };
        lemma_with_clip(r, d, kind, a, i, c);
        let after = clips.update(i, c);
        assert forall|j: int| 0 <= j < after.len() implies (#[trigger] after[j]).id.0
            < d.next_clip_id by {
            assert(edit::list(d, kind)[a].clips[j].id.0 < d.next_clip_id);
        }
        lemma_fits_with_clips(r, d, kind, a, after);
        lemma_with_group_moved(
            r,
            edit::with_clip(d, kind, a, i, c),
            clips[i].group,
            clip,
            clips[i].offset,
            offset,
        );
    }
}

/// Replacing a clip by one with the same id commutes with raising.
proof fn lemma_replaced(r: Raise, d: Document, clip: ClipId, c: Clip)
    requires
        fits(r, d),
        settled(r, d.next_clip_id as nat, clip),
        edit::clip_place(d, clip) is Some,
        c.id == clip,
    ensures
        ({
            let (kind, a, i) = edit::clip_place(d, clip)->Some_0;
            &&& raised(r, edit::with_clip(d, kind, a, i, c)) == edit::with_clip(
                raised(r, d),
                kind,
                a,
                i,
                c,
            )
            &&& raised_clip(r, c) == c
        }),
{
    lemma_settled_answers(r, d, clip);
    lemma_clip_place(r, d, clip, clip);
    let (kind, a, i) = edit::clip_place(d, clip)->Some_0;
    lemma_with_clip(r, d, kind, a, i, c);
}

proof fn lemma_split_clip(r: Raise, d: Document, clip: ClipId, at: Duration)
    requires
        fits(r, d),
        d.next_clip_id < u64::MAX,
        d.next_clip_id + r.clips_by < u64::MAX,
        settled(r, d.next_clip_id as nat, clip),
    ensures
        ({
            let command = Command::SplitClip { clip, at };
            edit::edited(raised(r, d), command) == raised_outcome(r, edit::edited(d, command))
        }),
{
    lemma_settled_answers(r, d, clip);
    lemma_clip_place(r, d, clip, clip);
    if let Some((kind, a, i)) = edit::clip_place(d, clip) {
        let clips = edit::clips_of(d, kind, a);
        let c = clips[i];
        assert(edit::source_cut(raised_clip(r, c), at) == edit::source_cut(c, at));
        if let Some(cut) = edit::source_cut(c, at) {
            let left = edit::left_part(c, cut);
            let right = Clip { id: ClipId(d.next_clip_id), ..edit::right_part(c, cut, at) };
            let after = clips.update(i, left).insert(i + 1, right);
            lemma_with_clips(r, d, kind, a, after);
            assert(raised_clips(r, after) =~= raised_clips(r, clips).update(
                i,
                raised_clip(r, left),
            ).insert(i + 1, raised_clip(r, right)));
        }
    }
}

proof fn lemma_move_to_track(r: Raise, d: Document, clip: ClipId, to: TrackId, offset: Duration)
    requires
        fits(r, d),
        settled(r, d.next_clip_id as nat, clip),
        settled_track(r, d.next_track_id as nat, to),
    ensures
        ({
            let command = Command::MoveClipToTrack { clip, to, offset };
            edit::edited(raised(r, d), command) == raised_outcome(r, edit::edited(d, command))
        }),
{
    lemma_settled_answers(r, d, clip);
    lemma_clip_place(r, d, clip, clip);
    lemma_track_place(r, d, to);
    if let (Some((to_kind, to_a)), Some((kind, a, i))) = (
        edit::track_place(d, to),
        edit::clip_place(d, clip),
    ) {
        let clips = edit::clips_of(d, kind, a);
        let c = clips[i];
        let rest = clips.remove(i);
        let taken = edit::with_clips(d, kind, a, rest);
        assert forall|j: int| 0 <= j < rest.len() implies (#[trigger] rest[j]).id.0
            < d.next_clip_id by {
            let k = if j < i {
                j
            } else {
                j + 1
            };
            assert(edit::list(d, kind)[a].clips[k].id.0 < d.next_clip_id);
        }
        lemma_with_clips(r, d, kind, a, rest);
        lemma_fits_with_clips(r, d, kind, a, rest);
        assert(raised_clips(r, rest) =~= raised_clips(r, clips).remove(i));
        let there = edit::clips_of(taken, to_kind, to_a);
        let put = Clip { offset, ..c };
        let after = there.push(put);
        assert(edit::clips_of(raised(r, taken), to_kind, to_a) == raised_clips(r, there));
        assert forall|j: int| 0 <= j < after.len() implies (#[trigger] after[j]).id.0
            < d.next_clip_id by {
            if j < there.len() {
                assert(edit::list(taken, to_kind)[to_a].clips[j].id.0 < d.next_clip_id);
            }
        }
        lemma_with_clips(r, taken, to_kind, to_a, after);
        lemma_fits_with_clips(r, taken, to_kind, to_a, after);
        assert(raised_clips(r, after) =~= raised_clips(r, there).push(raised_clip(r, put)));
        lemma_with_group_moved(
            r,
            edit::with_clips(taken, to_kind, to_a, after),
            c.group,
            clip,
            c.offset,
            offset,
        );
    }
}

proof fn lemma_ripple_delete(r: Raise, d: Document, clip: ClipId)
    requires
        fits(r, d),
        settled(r, d.next_clip_id as nat, clip),
    ensures
        ({
            let command = Command::RippleDelete { clip };
            edit::edited(raised(r, d), command) == raised_outcome(r, edit::edited(d, command))
        }),
{
    lemma_settled_answers(r, d, clip);
    lemma_clip_place(r, d, clip, clip);
    if let Some((kind, a, i)) = edit::clip_place(d, clip) {
        match edit::clips_of(d, kind, a)[i].group {
            None => {
                lemma_ripple_as(r, d, clip, clip);
            },
            Some(g) => {
                let (v, w) = (edit::members(d.video, g), edit::members(d.audio, g));
                lemma_members(r, d.video, g);
                lemma_members(r, d.audio, g);
                lemma_members_below(d.video, g, d.next_clip_id, d.next_track_id);
                lemma_members_below(d.audio, g, d.next_clip_id, d.next_track_id);
                let ids = v + w;
                assert forall|k: int| 0 <= k < ids.len() implies (#[trigger] ids[k]).0
                    < d.next_clip_id by {
                    if k < v.len() {
                        assert(ids[k] == v[k]);
                    } else {
                        assert(ids[k] == w[k - v.len()]);
                    }
                }
                lemma_ripple_all(r, d, ids);
                assert(raised_ids(r, ids) =~= raised_ids(r, v) + raised_ids(r, w));
            },
        }
    }
}

proof fn lemma_ripple_trim(
    r: Raise,
    d: Document,
    clip: ClipId,
    in_point: Option<Duration>,
    out_point: Option<Duration>,
)
    requires
        fits(r, d),
        settled(r, d.next_clip_id as nat, clip),
    ensures
        ({
            let command = Command::RippleTrim { clip, in_point, out_point };
            edit::edited(raised(r, d), command) == raised_outcome(r, edit::edited(d, command))
        }),
{
    lemma_settled_answers(r, d, clip);
    lemma_clip_place(r, d, clip, clip);
    if let Some((kind, a, i)) = edit::clip_place(d, clip) {
        let before = edit::clips_of(d, kind, a);
        let c = before[i];
        let trimmed = Clip { in_point, out_point, ..c };
        let clips = before.update(i, trimmed);
        let up = raised_clips(r, before);
        assert(raised_clips(r, clips) =~= up.update(i, raised_clip(r, trimmed)));
        assert(edit::footprint(up[i]) == edit::footprint(c));
        assert(edit::footprint(raised_clip(r, trimmed)) == edit::footprint(trimmed));
        match (edit::footprint(c), edit::footprint(trimmed)) {
            (Some(old_length), Some(new_length)) => {
                let after = edit::reflowed(clips, c.offset, old_length, new_length);
                lemma_with_clips(r, d, kind, a, after);
                assert(raised_clips(r, after) =~= edit::reflowed(
                    raised_clips(r, clips),
                    c.offset,
                    old_length,
                    new_length,
                ));
            },
            _ => {
                lemma_with_clips(r, d, kind, a, clips);
            },
        }
    }
}

proof fn lemma_tracks_changed(r: Raise, d: Document, command: Command)
    requires
        fits(r, d),
        command is AddTrack || command is RemoveTrack,
        command is AddTrack ==> d.next_track_id + r.tracks_by < u64::MAX,
        names_settled(r, d.next_clip_id as nat, d.next_track_id as nat, command),
    ensures
        edit::edited(raised(r, d), command) == raised_outcome(r, edit::edited(d, command)),
{
    match command {
        Command::AddTrack { kind } => {
            let tracks = edit::list(d, kind);
            let t = edit::empty_track(TrackId(d.next_track_id));
            assert(raised_track(r, t).clips =~= t.clips);
            assert(raised_tracks(r, tracks.push(t)) =~= raised_tracks(r, tracks).push(
                raised_track(r, t),
            ));
        },
        Command::RemoveTrack { track } => {
            lemma_track_place(r, d, track);
            if let Some((kind, a)) = edit::track_place(d, track) {
                let tracks = edit::list(d, kind);
                assert(raised_tracks(r, tracks.remove(a)) =~= raised_tracks(r, tracks).remove(a));
            }
        },
        _ => {},
    }
}

/// An edit of the raised document is the raised edit: it fails where, and as, the edit fails,
/// and makes what the edit makes with the ids raised. The command names no id that either of
/// the two edits has handed out by then.
pub proof fn edit_commutes_with_raising(r: Raise, d: Document, command: Command)
    requires
        timeline::well_numbered(d),
        edit::has_room(d, edit::minted(command)),
        r.clips <= d.next_clip_id,
        r.tracks <= d.next_track_id,
        d.next_clip_id + r.clips_by + edit::minted(command).clips <= u64::MAX,
        d.next_track_id + r.tracks_by + edit::minted(command).tracks <= u64::MAX,
        names_settled(r, d.next_clip_id as nat, d.next_track_id as nat, command),
    ensures
        edit::edited(raised(r, d), command) == raised_outcome(r, edit::edited(d, command)),
    decreases command,
{
    lemma_numbered_fits(r, d);
    match command {
        Command::AddClip { track, clip } => {
            lemma_add_clip(r, d, track, *clip);
        },
        Command::RemoveClip { clip } => {
            lemma_remove_clip(r, d, clip);
        },
        Command::MoveClip { clip, offset } => {
            lemma_move_clip(r, d, clip, offset);
        },
        Command::TrimClip { clip, in_point, out_point } => {
            lemma_settled_answers(r, d, clip);
            lemma_clip_place(r, d, clip, clip);
            if let Some((kind, a, i)) = edit::clip_place(d, clip) {
                let c = edit::clips_of(d, kind, a)[i];
                lemma_replaced(r, d, clip, Clip { in_point, out_point, ..c });
            }
        },
        Command::SetClipProperty { clip, property } => {
            lemma_settled_answers(r, d, clip);
            lemma_clip_place(r, d, clip, clip);
            if let Some((kind, a, i)) = edit::clip_place(d, clip) {
                let c = edit::clips_of(d, kind, a)[i];
                lemma_replaced(r, d, clip, edit::with_property(c, property));
            }
        },
        Command::SetClip { clip, value } => {
            lemma_settled_answers(r, d, clip);
            lemma_clip_place(r, d, clip, clip);
            if edit::clip_place(d, clip) is Some {
                lemma_replaced(r, d, clip, Clip { id: clip, ..*value });
            }
        },
        Command::SplitClip { clip, at } => {
            lemma_split_clip(r, d, clip, at);
        },
        Command::MoveClipToTrack { clip, to, offset } => {
            lemma_move_to_track(r, d, clip, to, offset);
        },
        Command::RippleDelete { clip } => {
            lemma_ripple_delete(r, d, clip);
        },
        Command::RippleTrim { clip, in_point, out_point } => {
            lemma_ripple_trim(r, d, clip, in_point, out_point);
        },
        Command::GroupClips { clips } => {
            lemma_grouped(r, d, clips@, GroupId(d.next_group_id));
        },
        Command::UngroupClips { clip } => {
            lemma_settled_answers(r, d, clip);
            lemma_clip_place(r, d, clip, clip);
            if let Some((kind, a, i)) = edit::clip_place(d, clip) {
                if let Some(g) = edit::clips_of(d, kind, a)[i].group {
                    lemma_group_dissolved(r, d.video, g);
                    lemma_group_dissolved(r, d.audio, g);
                }
            }
        },
        Command::AddTrack { .. } => {
            lemma_tracks_changed(r, d, command);
        },
        Command::RemoveTrack { .. } => {
            lemma_tracks_changed(r, d, command);
        },
        Command::Batch(commands) => {
            batch_commutes_with_raising(r, d, commands@);
        },
        _ => {},
    }
}

/// A batch of the raised document is the raised batch.
pub proof fn batch_commutes_with_raising(r: Raise, d: Document, commands: Seq<Command>)
    requires
        timeline::well_numbered(d),
        edit::has_room(d, edit::minted_all(commands)),
        r.clips <= d.next_clip_id,
        r.tracks <= d.next_track_id,
        d.next_clip_id + r.clips_by + edit::minted_all(commands).clips <= u64::MAX,
        d.next_track_id + r.tracks_by + edit::minted_all(commands).tracks <= u64::MAX,
        names_settled_all(r, d.next_clip_id as nat, d.next_track_id as nat, commands),
    ensures
        edit::edited_all(raised(r, d), commands) == raised_outcome(
            r,
            edit::edited_all(d, commands),
        ),
    decreases commands,
{
    if commands.len() > 0 {
        let before = commands.drop_last();
        batch_commutes_with_raising(r, d, before);
        if let Ok(m) = edit::edited_all(d, before) {
            edit::batch_moves_counters(d, before);
            laws::batch_keeps_numbering(d, before, ClipId(0));
            edit_commutes_with_raising(r, m, commands.last());
        }
    }
}

// Sessions.

/// How the ids of a session's current version move when it is seated.
pub open spec fn seat(s: Session) -> Raise {
    Raise {
        clips: s.current().next_clip_id,
        clips_by: (s.next_clip_id - s.current().next_clip_id) as nat,
        tracks: s.current().next_track_id,
        tracks_by: (s.next_track_id - s.current().next_track_id) as nat,
    }
}

/// Whether a command names no id that it has handed out itself by then, neither as an edit of
/// the session's current version nor as one of the session.
pub open spec fn names_none_of_its_own(s: Session, command: Command) -> bool {
    names_settled(
        seat(s),
        s.current().next_clip_id as nat,
        s.current().next_track_id as nat,
        command,
    )
}

/// A single command names none of its own ids, and so does a batch that hands out neither a
/// clip id nor a track id.
pub proof fn only_minting_batches_name_their_own(s: Session, command: Command)
    requires
        command !is Batch || (edit::minted(command).clips == 0 && edit::minted(command).tracks
            == 0),
    ensures
        names_none_of_its_own(s, command),
{
    let (c, t) = (s.current().next_clip_id as nat, s.current().next_track_id as nat);
    if let Command::Batch(commands) = command {
        lemma_nothing_of_its_own(seat(s), c, t, commands@);
    }
}

proof fn lemma_nothing_of_its_own(r: Raise, c: nat, t: nat, commands: Seq<Command>)
    requires
        r.clips == c,
        r.tracks == t,
        edit::minted_all(commands).clips == 0,
        edit::minted_all(commands).tracks == 0,
    ensures
        names_settled_all(r, c, t, commands),
    decreases commands,
{
    if commands.len() > 0 {
        lemma_nothing_of_its_own(r, c, t, commands.drop_last());
        let last = commands.last();
        let before = edit::minted_all(commands.drop_last());
        assert(edit::minted_all(commands) == edit::plus(before, edit::minted(last)));
        assert(c + before.clips == c && t + before.tracks == t);
        if let Command::Batch(inner) = last {
            assert(edit::minted(last) == edit::minted_all(inner@));
            assert(decreases_to!(commands => commands[commands.len() - 1]));
            lemma_nothing_of_its_own(r, c, t, inner@);
        }
        assert(names_settled(r, c, t, last));
    }
}

/// A session applies a command as an edit of its current version does: it fails where, and as,
/// that edit fails, and makes what that edit makes, with the ids handed out raised past those
/// that undone versions hold. The command names no id that it has handed out itself by then.
pub proof fn session_edits_the_current_version(s: Session, command: Command)
    requires
        s.sound(),
        edit::has_room(s.seated(), edit::minted(command)),
        names_none_of_its_own(s, command),
    ensures
        edit::edited(s.seated(), command) == raised_outcome(
            seat(s),
            edit::edited(s.current(), command),
        ),
{
    let d = s.current();
    let r = seat(s);
    assert(timeline::well_numbered(s.history[s.cursor]));
    lemma_numbered_fits(r, d);
    lemma_raised_tracks_same(r, d, d.video);
    lemma_raised_tracks_same(r, d, d.audio);
    assert(raised(r, d) == s.seated());
    edit_commutes_with_raising(r, d, command);
}

proof fn lemma_raised_tracks_same(r: Raise, d: Document, tracks: Seq<TrackState>)
    requires
        below(tracks, d.next_clip_id, d.next_track_id),
        r.clips == d.next_clip_id,
        r.tracks == d.next_track_id,
    ensures
        raised_tracks(r, tracks) == tracks,
{
    assert forall|a: int| 0 <= a < tracks.len() implies raised_track(r, tracks[a])
        == tracks[a] by {
        assert(tracks[a].id.0 < d.next_track_id);
        assert forall|i: int| 0 <= i < tracks[a].clips.len() implies raised_clip(
            r,
            tracks[a].clips[i],
        ) == tracks[a].clips[i] by {
            assert(tracks[a].clips[i].id.0 < d.next_clip_id);
        }
        assert(raised_clips(r, tracks[a].clips) =~= tracks[a].clips);
    }
    assert(raised_tracks(r, tracks) =~= tracks);
}

/// Whether both succeed, or both fail with the same error.
pub open spec fn fail_alike(
    a: Result<Document, EditError>,
    b: Result<Document, EditError>,
) -> bool {
    match (a, b) {
        (Ok(_), Ok(_)) => true,
        (Err(e), Err(f)) => e == f,
        _ => false,
    }
}

/// A command fails in a session as it fails on the current version, and leaves the session as
/// it was. Only a batch that names an id which it has handed out itself by then is left out,
/// and that where the counters do not agree.
pub proof fn session_fails_as_the_current_version(s: Session, command: Command)
    requires
        s.sound(),
        edit::has_room(s.seated(), edit::minted(command)),
        names_none_of_its_own(s, command) || s.seated() == s.current(),
    ensures
        fail_alike(edit::edited(s.seated(), command), edit::edited(s.current(), command)),
        editor::advanced(s, command) matches Err(e) ==> edit::edited(s.current(), command) == Err::<
            Document,
            EditError,
        >(e) && lineage::moved(s, lineage::Move::Apply(command)) == s,
{
    if s.seated() != s.current() {
        session_edits_the_current_version(s, command);
    }
}

/// A command that failed might as well not have been tried: the run without it is a run, with
/// the same sessions before and after.
#[verifier::rlimit(40)]
pub proof fn failed_command_leaves_no_trace(
    sessions: Seq<Session>,
    moves: Seq<lineage::Move>,
    i: int,
)
    requires
        lineage::run(sessions, moves),
        0 <= i < moves.len(),
        moves[i] is Apply,
        editor::advanced(sessions[i], moves[i]->Apply_0) is Err,
    ensures
        sessions[i + 1] == sessions[i],
        lineage::run(sessions.remove(i + 1), moves.remove(i)),
{
    let t = sessions.remove(i + 1);
    let m = moves.remove(i);
    assert(sessions[i + 1] == lineage::moved(sessions[i], moves[i]));
    assert(sessions[i + 1] == sessions[i]);
    assert forall|j: int| #![trigger t[j]] 0 <= j < t.len() implies t[j] == (if j <= i {
        sessions[j]
    } else {
        sessions[j + 1]
    }) by {}
    assert forall|j: int| #![trigger m[j]] 0 <= j < m.len() implies lineage::has_room_for(
        t[j],
        m[j],
    ) && t[j + 1] == lineage::moved(t[j], m[j]) by {
        if j < i {
            assert(m[j] == moves[j]);
            assert(sessions[j + 1] == lineage::moved(sessions[j], moves[j]));
            assert(t[j + 1] == sessions[j + 1]);
        } else {
            assert(m[j] == moves[j + 1]);
            assert(sessions[j + 2] == lineage::moved(sessions[j + 1], moves[j + 1]));
            assert(t[j] == sessions[j + 1] && t[j + 1] == sessions[j + 2]);
        }
    }
}

} // verus!

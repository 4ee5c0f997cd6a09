//! Where ids come from. Over a line of versions, and over an editing session with its undos and
//! redos, an id that a command hands out was carried by no version before.

use vstd::prelude::*;

use crate::clip::Clip;
use crate::edit;
use crate::edit::{Command, EditError};
use crate::editor;
use crate::editor::Session;
use crate::ids::{ClipId, GroupId, TrackId, TrackKind};
use crate::laws;
use crate::time::Duration;
use crate::timeline;
use crate::timeline::Document;
use crate::track::TrackState;

verus! {

// Tracks.

/// Whether a track of the list has the id.
pub open spec fn holds_track(tracks: Seq<TrackState>, id: TrackId) -> bool {
    exists|a: int| 0 <= a < tracks.len() && (#[trigger] tracks[a]).id == id
}

/// Whether two lists have the same tracks in the same places, by their ids.
pub open spec fn same_tracks(s: Seq<TrackState>, t: Seq<TrackState>) -> bool {
    &&& s.len() == t.len()
    &&& forall|a: int| #![trigger t[a]] #![trigger s[a]] 0 <= a < t.len() ==> t[a].id == s[a].id
}

/// Whether a command may change which tracks there are.
pub open spec fn changes_tracks(command: Command) -> bool {
    command is AddTrack || command is RemoveTrack || command is Batch
}

proof fn lemma_same_tracks(d: Document, e: Document, id: TrackId)
    requires
        same_tracks(d.video, e.video),
        same_tracks(d.audio, e.audio),
    ensures
        holds_track(timeline::all_tracks(d), id) == holds_track(timeline::all_tracks(e), id),
{
    let s = timeline::all_tracks(d);
    let t = timeline::all_tracks(e);
    let n = d.video.len();
    assert forall|a: int| 0 <= a < s.len() implies (#[trigger] s[a]).id == t[a].id by {
        if a < n {
            assert(s[a] == d.video[a] && t[a] == e.video[a]);
        } else {
            assert(s[a] == d.audio[a - n] && t[a] == e.audio[a - n]);
        }
    }
    if holds_track(s, id) {
        let a = choose|a: int| 0 <= a < s.len() && (#[trigger] s[a]).id == id;
        assert(t[a].id == id);
    }
    if holds_track(t, id) {
        let a = choose|a: int| 0 <= a < t.len() && (#[trigger] t[a]).id == id;
        assert(s[a].id == id);
    }
}

proof fn lemma_ripple_same_tracks(d: Document, ids: Seq<ClipId>)
    ensures
        same_tracks(d.video, edit::ripple_removed_all(d, ids).video),
        same_tracks(d.audio, edit::ripple_removed_all(d, ids).audio),
    decreases ids.len(),
{
    if ids.len() > 0 {
        lemma_ripple_same_tracks(d, ids.drop_last());
        laws::place_is_carrier(edit::ripple_removed_all(d, ids.drop_last()), ids.last());
    }
}

proof fn lemma_grouped_same_tracks(d: Document, ids: Seq<ClipId>, group: GroupId)
    requires
        edit::grouped(d, ids, group) is Ok,
    ensures
        same_tracks(d.video, edit::grouped(d, ids, group)->Ok_0.video),
        same_tracks(d.audio, edit::grouped(d, ids, group)->Ok_0.audio),
    decreases ids.len(),
{
    if ids.len() > 0 {
        lemma_grouped_same_tracks(d, ids.drop_last(), group);
        laws::place_is_carrier(edit::grouped(d, ids.drop_last(), group)->Ok_0, ids.last());
    }
}

/// A command that neither adds nor removes a track keeps every track in its place, with its id.
pub proof fn tracks_keep_their_places(d: Document, command: Command)
    requires
        !changes_tracks(command),
        edit::edited(d, command) is Ok,
    ensures
        ({
            let e = edit::edited(d, command)->Ok_0;
            &&& same_tracks(d.video, e.video)
            &&& same_tracks(d.audio, e.audio)
            &&& e.next_track_id == d.next_track_id
        }),
{
    match command {
        Command::AddClip { track, .. } => {
            edit::lemma_first_track_is(d.video, track);
            edit::lemma_first_track_is(d.audio, track);
        },
        Command::RemoveClip { clip } => {
            laws::place_is_carrier(d, clip);
        },
        Command::SplitClip { clip, .. } => {
            laws::place_is_carrier(d, clip);
        },
        Command::MoveClipToTrack { clip, to, .. } => {
            laws::place_is_carrier(d, clip);
            edit::lemma_first_track_is(d.video, to);
            edit::lemma_first_track_is(d.audio, to);
        },
        Command::RippleDelete { clip } => {
            laws::place_is_carrier(d, clip);
            if let Some((kind, a, i)) = edit::clip_place(d, clip) {
                if let Some(g) = edit::clips_of(d, kind, a)[i].group {
                    let ids = edit::members(d.video, g) + edit::members(d.audio, g);
                    lemma_ripple_same_tracks(d, ids);
                    lemma_ripple_counters(d, ids);
                }
            }
        },
        Command::GroupClips { clips } => {
            if clips@.len() > 0 {
                lemma_grouped_same_tracks(d, clips@, GroupId(d.next_group_id));
                laws::in_place_keeps_identity(d, command);
            }
        },
        _ => {
            if laws::in_place(command) {
                laws::in_place_keeps_identity(d, command);
            }
        },
    }
}

proof fn lemma_ripple_counters(d: Document, ids: Seq<ClipId>)
    ensures
        edit::ripple_removed_all(d, ids).next_track_id == d.next_track_id,
    decreases ids.len(),
{
    if ids.len() > 0 {
        lemma_ripple_counters(d, ids.drop_last());
    }
}

/// A track id found after an edit was there before it, or is one that the edit handed out.
pub proof fn track_ids_are_kept_or_new(d: Document, command: Command, id: TrackId)
    requires
        edit::has_room(d, edit::minted(command)),
        edit::edited(d, command) is Ok,
        holds_track(timeline::all_tracks(edit::edited(d, command)->Ok_0), id),
    ensures
        holds_track(timeline::all_tracks(d), id) || id.0 >= d.next_track_id,
    decreases command,
{
    let e = edit::edited(d, command)->Ok_0;
    let s = timeline::all_tracks(d);
    let t = timeline::all_tracks(e);
    match command {
        Command::Batch(commands) => {
            batch_track_ids_are_kept_or_new(d, commands@, id);
        },
        Command::AddTrack { kind } => {
            let a = choose|a: int| 0 <= a < t.len() && (#[trigger] t[a]).id == id;
            let n = laws::flat(d, kind, edit::list(d, kind).len() as int);
            if a < n {
                assert(t[a] == s[a]);
            } else if a > n {
                assert(t[a] == s[a - 1]);
            }
        },
        Command::RemoveTrack { track } => {
            edit::lemma_first_track_is(d.video, track);
            edit::lemma_first_track_is(d.audio, track);
            let (kind, f) = edit::track_place(d, track)->Some_0;
            let n = laws::flat(d, kind, f);
            let a = choose|a: int| 0 <= a < t.len() && (#[trigger] t[a]).id == id;
            if a < n {
                assert(t[a] == s[a]);
            } else {
                assert(t[a] == s[a + 1]);
            }
        },
        _ => {
            tracks_keep_their_places(d, command);
            lemma_same_tracks(d, e, id);
        },
    }
}

/// A track id found after a batch was there before it, or is one that the batch handed out.
pub proof fn batch_track_ids_are_kept_or_new(d: Document, commands: Seq<Command>, id: TrackId)
    requires
        edit::has_room(d, edit::minted_all(commands)),
        edit::edited_all(d, commands) is Ok,
        holds_track(timeline::all_tracks(edit::edited_all(d, commands)->Ok_0), id),
    ensures
        holds_track(timeline::all_tracks(d), id) || id.0 >= d.next_track_id,
    decreases commands,
{
    if commands.len() > 0 {
        let m = edit::edited_all(d, commands.drop_last())->Ok_0;
        edit::batch_moves_counters(d, commands.drop_last());
        track_ids_are_kept_or_new(m, commands.last(), id);
        if holds_track(timeline::all_tracks(m), id) {
            batch_track_ids_are_kept_or_new(d, commands.drop_last(), id);
        }
    }
}

/// No track has an id that has not been handed out.
pub proof fn fresh_track_id_is_nowhere(d: Document, id: TrackId)
    requires
        timeline::well_numbered(d),
        id.0 >= d.next_track_id,
    ensures
        !holds_track(timeline::all_tracks(d), id),
{
}

// Clips.

/// The ids of the clips that a command removes by itself.
pub open spec fn removed_ids(d: Document, command: Command) -> Seq<ClipId> {
    match command {
        Command::RemoveClip { clip } => seq![clip],
        Command::RippleDelete { clip } => match edit::clip_place(d, clip) {
            None => Seq::empty(),
            Some((kind, a, i)) => match edit::clips_of(d, kind, a)[i].group {
                None => seq![clip],
                Some(g) => edit::members(d.video, g) + edit::members(d.audio, g),
            },
        },
        _ => Seq::empty(),
    }
}

/// An id stays carried where the track that carries it keeps it.
proof fn lemma_still_carried(d: Document, kind: TrackKind, a: int, clips: Seq<Clip>, id: ClipId)
    requires
        0 <= a < edit::list(d, kind).len(),
        laws::carried(timeline::all_tracks(d), id),
        laws::among(edit::clips_of(d, kind, a), id) ==> laws::among(clips, id),
    ensures
        laws::carried(timeline::all_tracks(edit::with_clips(d, kind, a, clips)), id),
{
    laws::lemma_flat(d, kind, a, clips);
    let s = timeline::all_tracks(d);
    let t = timeline::all_tracks(edit::with_clips(d, kind, a, clips));
    let b = choose|b: int| 0 <= b < s.len() && laws::among((#[trigger] s[b]).clips, id);
    assert(laws::among(t[b].clips, id));
}

/// The same ids in the same places carry the same ids.
proof fn lemma_still_carried_in_place(d: Document, e: Document, id: ClipId)
    requires
        laws::same_ids(d.video, e.video),
        laws::same_ids(d.audio, e.audio),
        laws::carried(timeline::all_tracks(d), id),
    ensures
        laws::carried(timeline::all_tracks(e), id),
{
    let s = timeline::all_tracks(d);
    let t = timeline::all_tracks(e);
    let n = d.video.len() as int;
    let a = choose|a: int| 0 <= a < s.len() && laws::among((#[trigger] s[a]).clips, id);
    let i = choose|i: int| 0 <= i < s[a].clips.len() && (#[trigger] s[a].clips[i]).id == id;
    if a < n {
        assert(s[a] == d.video[a] && t[a] == e.video[a]);
        assert(e.video[a].clips[i].id == id);
    } else {
        assert(s[a] == d.audio[a - n] && t[a] == e.audio[a - n]);
        assert(e.audio[a - n].clips[i].id == id);
    }
    assert(t[a].clips[i].id == id);
    assert(laws::among(t[a].clips, id));
}

proof fn lemma_among_rest(clips: Seq<Clip>, i: int, id: ClipId)
    requires
        0 <= i < clips.len(),
        laws::among(clips, id),
        clips[i].id != id,
    ensures
        laws::among(clips.remove(i), id),
{
    let j = choose|j: int| 0 <= j < clips.len() && (#[trigger] clips[j]).id == id;
    if j < i {
        assert(clips.remove(i)[j].id == id);
    } else {
        assert(clips.remove(i)[j - 1].id == id);
    }
}

proof fn lemma_ripple_keeps(d: Document, target: ClipId, id: ClipId)
    requires
        laws::carried(timeline::all_tracks(d), id),
        id != target,
    ensures
        laws::carried(timeline::all_tracks(edit::ripple_removed(d, target)), id),
{
    laws::place_is_carrier(d, target);
    if let Some((kind, a, i)) = edit::clip_place(d, target) {
        let clips = edit::clips_of(d, kind, a);
        let rest = clips.remove(i);
        let after = match edit::footprint(clips[i]) {
            Some(by) => edit::gap_closed(rest, clips[i].offset, by),
            None => rest,
        };
        if laws::among(clips, id) {
            lemma_among_rest(clips, i, id);
            let j = choose|j: int| 0 <= j < rest.len() && (#[trigger] rest[j]).id == id;
            assert(after[j].id == id);
        }
        lemma_still_carried(d, kind, a, after, id);
    }
}

proof fn lemma_ripple_keeps_all(d: Document, targets: Seq<ClipId>, id: ClipId)
    requires
        laws::carried(timeline::all_tracks(d), id),
        !targets.contains(id),
    ensures
        laws::carried(timeline::all_tracks(edit::ripple_removed_all(d, targets)), id),
    decreases targets.len(),
{
    if targets.len() > 0 {
        let rest = targets.drop_last();
        assert(!rest.contains(id)) by {
            if rest.contains(id) {
                let k = choose|k: int| 0 <= k < rest.len() && rest[k] == id;
                assert(targets[k] == id);
            }
        }
        assert(targets[targets.len() - 1] != id);
        lemma_ripple_keeps_all(d, rest, id);
        lemma_ripple_keeps(edit::ripple_removed_all(d, rest), targets.last(), id);
    }
}

proof fn lemma_move_keeps(d: Document, clip: ClipId, to: TrackId, offset: Duration, id: ClipId)
    requires
        edit::edited(d, Command::MoveClipToTrack { clip, to, offset }) is Ok,
        laws::carried(timeline::all_tracks(d), id),
    ensures
        laws::carried(
            timeline::all_tracks(
                edit::edited(d, Command::MoveClipToTrack { clip, to, offset })->Ok_0,
            ),
            id,
        ),
{
    laws::place_is_carrier(d, clip);
    edit::lemma_first_track_is(d.video, to);
    edit::lemma_first_track_is(d.audio, to);
    let (to_kind, to_a) = edit::track_place(d, to)->Some_0;
    let (kind, a, i) = edit::clip_place(d, clip)->Some_0;
    let clips = edit::clips_of(d, kind, a);
    let c = clips[i];
    let taken = edit::with_clips(d, kind, a, clips.remove(i));
    let there = edit::clips_of(taken, to_kind, to_a);
    let after = there.push(Clip { offset, ..c });
    let put = edit::with_clips(taken, to_kind, to_a, after);
    if id == clip {
        laws::lemma_flat(taken, to_kind, to_a, after);
        assert(after[there.len() as int].id == id);
        assert(laws::among(after, id));
        assert(laws::among(
            timeline::all_tracks(put)[laws::flat(taken, to_kind, to_a)].clips,
            id,
        ));
    } else {
        if laws::among(clips, id) {
            lemma_among_rest(clips, i, id);
        }
        lemma_still_carried(d, kind, a, clips.remove(i), id);
        if laws::among(there, id) {
            let j = choose|j: int| 0 <= j < there.len() && (#[trigger] there[j]).id == id;
            assert(after[j].id == id);
        }
        lemma_still_carried(taken, to_kind, to_a, after, id);
    }
    let e = edit::with_group_moved(put, c.group, clip, c.offset, offset);
    assert(laws::same_ids(put.video, e.video) && laws::same_ids(put.audio, e.audio));
    lemma_still_carried_in_place(put, e, id);
}

/// A clip that a command does not remove keeps its id: every id carried before an edit that
/// removes no track is carried after it, but for those of the clips that the command removes.
pub proof fn kept_clips_keep_their_ids(d: Document, command: Command, id: ClipId)
    requires
        command !is Batch,
        command !is RemoveTrack,
        edit::edited(d, command) is Ok,
        laws::carried(timeline::all_tracks(d), id),
        !removed_ids(d, command).contains(id),
    ensures
        laws::carried(timeline::all_tracks(edit::edited(d, command)->Ok_0), id),
{
    let e = edit::edited(d, command)->Ok_0;
    match command {
        Command::AddClip { track, clip } => {
            edit::lemma_first_track_is(d.video, track);
            edit::lemma_first_track_is(d.audio, track);
            let (kind, a) = edit::track_place(d, track)->Some_0;
            let clips = edit::clips_of(d, kind, a);
            let after = clips.push(Clip { id: ClipId(d.next_clip_id), group: None, ..*clip });
            if laws::among(clips, id) {
                let j = choose|j: int| 0 <= j < clips.len() && (#[trigger] clips[j]).id == id;
                assert(after[j].id == id);
            }
            lemma_still_carried(d, kind, a, after, id);
        },
        Command::RemoveClip { clip } => {
            assert(removed_ids(d, command)[0] == clip);
            laws::place_is_carrier(d, clip);
            let (kind, a, i) = edit::clip_place(d, clip)->Some_0;
            let clips = edit::clips_of(d, kind, a);
            if laws::among(clips, id) {
                lemma_among_rest(clips, i, id);
            }
            lemma_still_carried(d, kind, a, clips.remove(i), id);
        },
        Command::SplitClip { clip, at } => {
            laws::place_is_carrier(d, clip);
            let (kind, a, i) = edit::clip_place(d, clip)->Some_0;
            let clips = edit::clips_of(d, kind, a);
            let after = edit::clips_of(e, kind, a);
            if laws::among(clips, id) {
                let j = choose|j: int| 0 <= j < clips.len() && (#[trigger] clips[j]).id == id;
                let k = if j <= i {
                    j
                } else {
                    j + 1
                };
                assert(after[k].id == id);
            }
            lemma_still_carried(d, kind, a, after, id);
        },
        Command::MoveClipToTrack { clip, to, offset } => {
            lemma_move_keeps(d, clip, to, offset, id);
        },
        Command::RippleDelete { clip } => {
            let (kind, a, i) = edit::clip_place(d, clip)->Some_0;
            match edit::clips_of(d, kind, a)[i].group {
                None => {
                    assert(removed_ids(d, command)[0] == clip);
                    lemma_ripple_keeps(d, clip, id);
                },
                Some(g) => {
                    lemma_ripple_keeps_all(d, removed_ids(d, command), id);
                },
            }
        },
        Command::AddTrack { kind } => {
            let s = timeline::all_tracks(d);
            let t = timeline::all_tracks(e);
            let b = choose|b: int| 0 <= b < s.len() && laws::among((#[trigger] s[b]).clips, id);
            let n = laws::flat(d, kind, edit::list(d, kind).len() as int);
            if b < n {
                assert(t[b] == s[b]);
            } else {
                assert(t[b + 1] == s[b]);
            }
        },
        _ => {
            if laws::in_place(command) {
                laws::in_place_keeps_identity(d, command);
                lemma_still_carried_in_place(d, e, id);
            }
        },
    }
}

// Lines of versions.

/// Whether each version is what a command makes of the one before it, from a well-numbered
/// document on.
pub open spec fn line(versions: Seq<Document>, commands: Seq<Command>) -> bool {
    &&& versions.len() == commands.len() + 1
    &&& timeline::well_numbered(versions[0])
    &&& forall|i: int|
        #![trigger commands[i]]
        0 <= i < commands.len() ==> {
            &&& edit::has_room(versions[i], edit::minted(commands[i]))
            &&& edit::edited(versions[i], commands[i]) == Ok::<Document, EditError>(versions[i + 1])
        }
}

/// Every version of a line is well numbered, and the counters never go back.
pub proof fn line_stays_numbered(
    versions: Seq<Document>,
    commands: Seq<Command>,
    i: int,
    j: int,
)
    requires
        line(versions, commands),
        0 <= i <= j < versions.len(),
    ensures
        timeline::well_numbered(versions[j]),
        versions[i].next_clip_id <= versions[j].next_clip_id,
        versions[i].next_track_id <= versions[j].next_track_id,
        versions[i].next_group_id <= versions[j].next_group_id,
        versions[i].next_marker_id <= versions[j].next_marker_id,
    decreases j,
{
    if j > 0 {
        let command = commands[j - 1];
        line_stays_numbered(versions, commands, 0, j - 1);
        laws::edit_keeps_numbering(versions[j - 1], command, ClipId(0));
        edit::edit_moves_counters(versions[j - 1], command);
        if i < j {
            line_stays_numbered(versions, commands, i, j - 1);
        }
    }
}

/// A clip id that an edit brings in was carried by no earlier version of the line, and is set.
pub proof fn minted_clip_id_is_new_to_the_line(
    versions: Seq<Document>,
    commands: Seq<Command>,
    i: int,
    j: int,
    id: ClipId,
)
    requires
        line(versions, commands),
        0 <= j <= i < commands.len(),
        laws::carried(timeline::all_tracks(versions[i + 1]), id),
        !laws::carried(timeline::all_tracks(versions[i]), id),
    ensures
        !laws::carried(timeline::all_tracks(versions[j]), id),
        id != ClipId(0),
{
    let command = commands[i];
    line_stays_numbered(versions, commands, j, i);
    line_stays_numbered(versions, commands, 0, j);
    laws::edit_keeps_numbering(versions[i], command, id);
    laws::fresh_id_is_nowhere(versions[j], id);
}

/// A track id that an edit brings in belonged to no track of an earlier version of the line,
/// and is set.
pub proof fn minted_track_id_is_new_to_the_line(
    versions: Seq<Document>,
    commands: Seq<Command>,
    i: int,
    j: int,
    id: TrackId,
)
    requires
        line(versions, commands),
        0 <= j <= i < commands.len(),
        holds_track(timeline::all_tracks(versions[i + 1]), id),
        !holds_track(timeline::all_tracks(versions[i]), id),
    ensures
        !holds_track(timeline::all_tracks(versions[j]), id),
        id != TrackId(0),
{
    let command = commands[i];
    line_stays_numbered(versions, commands, j, i);
    line_stays_numbered(versions, commands, 0, j);
    track_ids_are_kept_or_new(versions[i], command, id);
    fresh_track_id_is_nowhere(versions[j], id);
}

/// A clip id that a line has dropped never comes back on it.
pub proof fn dropped_clip_id_stays_off_the_line(
    versions: Seq<Document>,
    commands: Seq<Command>,
    i: int,
    j: int,
    k: int,
    id: ClipId,
)
    requires
        line(versions, commands),
        0 <= i <= j <= k < versions.len(),
        laws::carried(timeline::all_tracks(versions[i]), id),
        !laws::carried(timeline::all_tracks(versions[j]), id),
    ensures
        !laws::carried(timeline::all_tracks(versions[k]), id),
    decreases k,
{
    if k > j {
        dropped_clip_id_stays_off_the_line(versions, commands, i, j, k - 1, id);
        if laws::carried(timeline::all_tracks(versions[k]), id) {
            minted_clip_id_is_new_to_the_line(versions, commands, k - 1, i, id);
        }
    }
}

/// A track id that a line has dropped never comes back on it.
pub proof fn dropped_track_id_stays_off_the_line(
    versions: Seq<Document>,
    commands: Seq<Command>,
    i: int,
    j: int,
    k: int,
    id: TrackId,
)
    requires
        line(versions, commands),
        0 <= i <= j <= k < versions.len(),
        holds_track(timeline::all_tracks(versions[i]), id),
        !holds_track(timeline::all_tracks(versions[j]), id),
    ensures
        !holds_track(timeline::all_tracks(versions[k]), id),
    decreases k,
{
    if k > j {
        dropped_track_id_stays_off_the_line(versions, commands, i, j, k - 1, id);
        if holds_track(timeline::all_tracks(versions[k]), id) {
            minted_track_id_is_new_to_the_line(versions, commands, k - 1, i, id);
        }
    }
}

// Sessions.

/// What may be done in a session.
pub enum Move {
    Apply(Command),
    Undo,
    Redo,
}

/// The session after a move. A command that cannot be applied leaves it as it was.
pub open spec fn moved(s: Session, m: Move) -> Session {
    match m {
        Move::Apply(command) => match editor::advanced(s, command) {
            Ok(t) => t,
            Err(_) => s,
        },
        Move::Undo => editor::undone(s),
        Move::Redo => editor::redone(s),
    }
}

/// Whether the session can number what a move may add.
pub open spec fn has_room_for(s: Session, m: Move) -> bool {
    m matches Move::Apply(command) ==> edit::has_room(s.seated(), edit::minted(command))
}

/// Whether each session is what a move makes of the one before it, from a sound one on.
pub open spec fn run(sessions: Seq<Session>, moves: Seq<Move>) -> bool {
    &&& sessions.len() == moves.len() + 1
    &&& sessions[0].sound()
    &&& forall|i: int|
        #![trigger moves[i]]
        0 <= i < moves.len() ==> has_room_for(sessions[i], moves[i]) && sessions[i + 1] == moved(
            sessions[i],
            moves[i],
        )
}

/// A move keeps a session sound and takes no id back.
pub proof fn move_keeps_session_sound(s: Session, m: Move)
    requires
        s.sound(),
        has_room_for(s, m),
    ensures
        moved(s, m).sound(),
        s.next_clip_id <= moved(s, m).next_clip_id,
        s.next_track_id <= moved(s, m).next_track_id,
{
    if let Move::Apply(command) = m {
        editor::session_stays_sound(s, command);
        if editor::advanced(s, command) is Ok {
            edit::edit_moves_counters(s.seated(), command);
        }
    }
}

/// Every session of a run is sound, and the session's counters never go back, not by undo
/// either.
pub proof fn run_stays_sound(sessions: Seq<Session>, moves: Seq<Move>, i: int, j: int)
    requires
        run(sessions, moves),
        0 <= i <= j < sessions.len(),
    ensures
        sessions[j].sound(),
        sessions[i].next_clip_id <= sessions[j].next_clip_id,
        sessions[i].next_track_id <= sessions[j].next_track_id,
    decreases j,
{
    if j > 0 {
        let m = moves[j - 1];
        run_stays_sound(sessions, moves, 0, j - 1);
        move_keeps_session_sound(sessions[j - 1], m);
        if i < j {
            run_stays_sound(sessions, moves, i, j - 1);
        }
    }
}

/// A clip id that a command brings in was carried by no version that the session ever held:
/// not by one that was undone, and not by one that was dropped since.
pub proof fn minted_clip_id_is_new_to_the_session(
    sessions: Seq<Session>,
    moves: Seq<Move>,
    i: int,
    j: int,
    k: int,
    id: ClipId,
)
    requires
        run(sessions, moves),
        0 <= j <= i < moves.len(),
        moves[i] is Apply,
        editor::advanced(sessions[i], moves[i]->Apply_0) is Ok,
        laws::carried(timeline::all_tracks(sessions[i + 1].current()), id),
        !laws::carried(timeline::all_tracks(sessions[i].current()), id),
        0 <= k < sessions[j].history.len(),
    ensures
        !laws::carried(timeline::all_tracks(sessions[j].history[k]), id),
        id != ClipId(0),
{
    let s = sessions[i];
    let command = moves[i]->Apply_0;
    run_stays_sound(sessions, moves, j, i);
    run_stays_sound(sessions, moves, 0, j);
    editor::lemma_seated(s);
    laws::edit_keeps_numbering(s.seated(), command, id);
    assert(sessions[j].history[k].next_clip_id <= sessions[j].next_clip_id);
    laws::fresh_id_is_nowhere(sessions[j].history[k], id);
}

/// A track id that a command brings in belonged to no track of a version that the session ever
/// held: not of one that was undone, and not of one that was dropped since.
pub proof fn minted_track_id_is_new_to_the_session(
    sessions: Seq<Session>,
    moves: Seq<Move>,
    i: int,
    j: int,
    k: int,
    id: TrackId,
)
    requires
        run(sessions, moves),
        0 <= j <= i < moves.len(),
        moves[i] is Apply,
        editor::advanced(sessions[i], moves[i]->Apply_0) is Ok,
        holds_track(timeline::all_tracks(sessions[i + 1].current()), id),
        !holds_track(timeline::all_tracks(sessions[i].current()), id),
        0 <= k < sessions[j].history.len(),
    ensures
        !holds_track(timeline::all_tracks(sessions[j].history[k]), id),
        id != TrackId(0),
{
    let s = sessions[i];
    let command = moves[i]->Apply_0;
    run_stays_sound(sessions, moves, j, i);
    run_stays_sound(sessions, moves, 0, j);
    editor::lemma_seated(s);
    track_ids_are_kept_or_new(s.seated(), command, id);
    assert(sessions[j].history[k].next_track_id <= sessions[j].next_track_id);
    fresh_track_id_is_nowhere(sessions[j].history[k], id);
}

} // verus!

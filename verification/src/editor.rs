//! Undo and redo over the immutable timeline document.
//!
//! An [`Editor`] holds a line of versions and a cursor into it. Applying a command pushes the
//! version it makes and drops the versions after the cursor; undo and redo move the cursor.
//!
//! The counters of clip and track ids are kept here too, as a high-water mark of the session.
//! An undo brings back an older version with its older counters; seating the high-water mark
//! before each edit keeps a later addition from handing out an id that a dropped version
//! already used.

use vstd::prelude::*;

use crate::edit;
use crate::edit::{Command, EditError};
use crate::ids::ClipId;
use crate::laws;
use crate::timeline;
use crate::timeline::{Document, Timeline};

verus! {

/// An editing session.
#[derive(Debug)]
pub struct Editor {
    history: Vec<Timeline>,
    cursor: usize,
    next_clip_id: u64,
    next_track_id: u64,
}

/// What a session holds.
pub struct Session {
    /// The versions, oldest first.
    pub history: Seq<Document>,
    /// The place of the current version.
    pub cursor: int,
    /// The next clip id to hand out.
    pub next_clip_id: u64,
    /// The next track id to hand out.
    pub next_track_id: u64,
}

impl View for Editor {
    type V = Session;

    closed spec fn view(&self) -> Session {
        Session {
            history: versions(self.history@),
            cursor: self.cursor as int,
            next_clip_id: self.next_clip_id,
            next_track_id: self.next_track_id,
        }
    }
}

/// What a line of versions holds.
pub open spec fn versions(history: Seq<Timeline>) -> Seq<Document> {
    Seq::new(history.len(), |i: int| history[i]@)
}

impl Session {
    /// The history is never empty and the cursor points into it.
    pub open spec fn valid(self) -> bool {
        0 <= self.cursor < self.history.len()
    }

    /// The current version.
    pub open spec fn current(self) -> Document {
        self.history[self.cursor]
    }

    /// The current version with the session's counters.
    pub open spec fn seated(self) -> Document {
        Document {
            next_clip_id: self.next_clip_id,
            next_track_id: self.next_track_id,
            ..self.current()
        }
    }

    /// Whether every version is well numbered and below the session's counters.
    pub open spec fn sound(self) -> bool {
        &&& self.valid()
        &&& forall|i: int|
            #![trigger self.history[i]]
            0 <= i < self.history.len() ==> {
                &&& timeline::well_numbered(self.history[i])
                &&& self.history[i].next_clip_id <= self.next_clip_id
                &&& self.history[i].next_track_id <= self.next_track_id
            }
    }
}

/// The session as a command leaves it, or why the command cannot be applied.
pub open spec fn advanced(s: Session, command: Command) -> Result<Session, EditError> {
    match edit::edited(s.seated(), command) {
        Ok(n) => Ok(
            Session {
                history: s.history.take(s.cursor + 1).push(n),
                cursor: s.cursor + 1,
                next_clip_id: n.next_clip_id,
                next_track_id: n.next_track_id,
            },
        ),
        Err(e) => Err(e),
    }
}

/// The session after an undo.
pub open spec fn undone(s: Session) -> Session {
    if s.cursor > 0 {
        Session { cursor: s.cursor - 1, ..s }
    } else {
        s
    }
}

/// The session after a redo.
pub open spec fn redone(s: Session) -> Session {
    if s.cursor + 1 < s.history.len() {
        Session { cursor: s.cursor + 1, ..s }
    } else {
        s
    }
}

impl Editor {
    /// The history is never empty and the cursor points into it.
    #[verifier::type_invariant]
    spec fn points_into_history(self) -> bool {
        self.cursor < self.history@.len()
    }

    /// Starts a session at `initial`.
    #[must_use]
    pub fn new(initial: Timeline) -> (r: Editor)
        ensures
            r@.history == seq![initial@],
            r@.cursor == 0,
            r@.next_clip_id == initial@.next_clip_id,
            r@.next_track_id == initial@.next_track_id,
    {
        let next_clip_id = initial.next_clip_id;
        let next_track_id = initial.next_track_id;
        let mut history: Vec<Timeline> = Vec::new();
        let ghost first = initial@;
        history.push(initial);
        assert(versions(history@) =~= seq![first]);
        Editor { history, cursor: 0, next_clip_id, next_track_id }
    }

    /// The current version.
    #[must_use]
    pub fn current(&self) -> (r: &Timeline)
        ensures
            self@.valid(),
            r@ == self@.current(),
    {
        proof {
            use_type_invariant(self);
        }
        &self.history[self.cursor]
    }

    /// Whether the session can still number all that a command may add.
    pub fn has_room_for(&self, command: &Command) -> (r: bool)
        ensures
            r == edit::has_room(self@.seated(), edit::minted(*command)),
    {
        proof {
            use_type_invariant(self);
        }
        let current = &self.history[self.cursor];
        match edit::ids_needed(command) {
            Some(n) => self.next_clip_id <= u64::MAX - n.clips && self.next_track_id <= u64::MAX
                - n.tracks && current.next_group_id <= u64::MAX - n.groups
                && current.next_marker_id <= u64::MAX - n.markers,
            None => false,
        }
    }

    /// Applies a command to the current version and makes the result current, dropping the
    /// versions after it. A command that cannot be applied leaves the session as it was.
    pub fn apply(&mut self, command: &Command) -> (r: Result<&Timeline, EditError>)
        requires
            edit::has_room(old(self)@.seated(), edit::minted(*command)),
        ensures
            match advanced(old(self)@, *command) {
                Ok(s) => {
                    &&& final(self)@ == s
                    &&& r is Ok
                    &&& r->Ok_0@ == s.current()
                },
                Err(e) => final(self)@ == old(self)@ && r == Err::<&Timeline, EditError>(e),
            },
    {
        proof {
            use_type_invariant(&*self);
        }
        let ghost s = self@;
        let mut current = self.history[self.cursor].clone();
        current.next_clip_id = self.next_clip_id;
        current.next_track_id = self.next_track_id;
        let next = match edit::apply(&current, command) {
            Ok(next) => next,
            Err(e) => {
                return Err(e);
            },
        };
        self.next_clip_id = next.next_clip_id;
        self.next_track_id = next.next_track_id;
        let at: usize = self.cursor;
        let mut history: Vec<Timeline> = Vec::new();
        history.push(current);
        self.cursor = 0;
        std::mem::swap(&mut history, &mut self.history);
        assert(at < history.len());
        history.truncate(at + 1);
        history.push(next);
        self.history = history;
        self.cursor = at + 1;
        assert(versions(self.history@) =~= s.history.take(s.cursor + 1).push(next@));
        Ok(&self.history[self.cursor])
    }

    /// Moves back one version and returns it, or `None` at the start of the history.
    pub fn undo(&mut self) -> (r: Option<&Timeline>)
        ensures
            final(self)@ == undone(old(self)@),
            r is Some <==> old(self)@.cursor > 0,
            r matches Some(t) ==> t@ == undone(old(self)@).current(),
    {
        proof {
            use_type_invariant(&*self);
        }
        if self.cursor == 0 {
            return None;
        }
        self.cursor = self.cursor - 1;
        Some(&self.history[self.cursor])
    }

    /// Moves forward one version and returns it, or `None` at the end of the history.
    pub fn redo(&mut self) -> (r: Option<&Timeline>)
        ensures
            final(self)@ == redone(old(self)@),
            r is Some <==> old(self)@.cursor + 1 < old(self)@.history.len(),
            r matches Some(t) ==> t@ == redone(old(self)@).current(),
    {
        proof {
            use_type_invariant(&*self);
        }
        assert(self.cursor < self.history.len());
        if self.cursor + 1 >= self.history.len() {
            return None;
        }
        self.cursor = self.cursor + 1;
        Some(&self.history[self.cursor])
    }

    /// Whether [`undo`](Self::undo) would move to an earlier version.
    #[must_use]
    pub fn can_undo(&self) -> (r: bool)
        ensures
            r == (self@.cursor > 0),
    {
        self.cursor > 0
    }

    /// Whether [`redo`](Self::redo) would move to a later version.
    #[must_use]
    pub fn can_redo(&self) -> (r: bool)
        ensures
            r == (self@.cursor + 1 < self@.history.len()),
    {
        proof {
            use_type_invariant(self);
        }
        assert(self.cursor < self.history.len());
        self.cursor + 1 < self.history.len()
    }
}

/// Undoing a command brings the version before it back, and redoing brings its own.
pub proof fn undo_reverses_apply(s: Session, command: Command)
    requires
        s.valid(),
        advanced(s, command) is Ok,
    ensures
        ({
            let t = advanced(s, command)->Ok_0;
            &&& t.valid()
            &&& undone(t).valid()
            &&& undone(t).current() == s.current()
            &&& redone(undone(t)) == t
        }),
{
}

/// A command drops what could be redone.
pub proof fn apply_clears_redo(s: Session, command: Command)
    requires
        s.valid(),
        advanced(s, command) is Ok,
    ensures
        ({
            let t = advanced(s, command)->Ok_0;
            &&& t.cursor + 1 == t.history.len()
            &&& redone(t) == t
            &&& t.history.take(s.cursor + 1) == s.history.take(s.cursor + 1)
        }),
{
    let t = advanced(s, command)->Ok_0;
    assert(t.history.take(s.cursor + 1) =~= s.history.take(s.cursor + 1));
}

/// Undo and redo drop no version and rewind no counter, and one takes back the other.
pub proof fn undo_and_redo_move_only(s: Session)
    requires
        s.valid(),
    ensures
        undone(s) == (Session { cursor: undone(s).cursor, ..s }),
        redone(s) == (Session { cursor: redone(s).cursor, ..s }),
        undone(s).valid() && redone(s).valid(),
        s.cursor > 0 ==> redone(undone(s)) == s,
        s.cursor + 1 < s.history.len() ==> undone(redone(s)) == s,
{
}

/// Raising the counters of a version keeps it well numbered.
pub proof fn lemma_seated(s: Session)
    requires
        s.sound(),
    ensures
        timeline::well_numbered(s.seated()),
        timeline::all_tracks(s.seated()) == timeline::all_tracks(s.current()),
{
    let d = s.current();
    let tracks = timeline::all_tracks(d);
    assert(timeline::all_tracks(s.seated()) =~= tracks);
    assert forall|a: int, i: int|
        0 <= a < tracks.len() && 0 <= i < tracks[a].clips.len() implies 0 < (
    #[trigger] tracks[a].clips[i]).id.0 < s.next_clip_id by {
        assert(tracks[a].clips[i].id.0 < d.next_clip_id);
    }
    assert forall|a: int| 0 <= a < tracks.len() implies 0 < (
    #[trigger] tracks[a]).id.0 < s.next_track_id by {
        assert(tracks[a].id.0 < d.next_track_id);
    }
}

/// Every version of a session stays well numbered and below the session's counters, through
/// every command, undo and redo.
pub proof fn session_stays_sound(s: Session, command: Command)
    requires
        s.sound(),
        edit::has_room(s.seated(), edit::minted(command)),
    ensures
        advanced(s, command) is Ok ==> advanced(s, command)->Ok_0.sound(),
        undone(s).sound(),
        redone(s).sound(),
{
    lemma_seated(s);
    if advanced(s, command) is Ok {
        laws::edit_keeps_numbering(s.seated(), command, ClipId(0));
        edit::edit_moves_counters(s.seated(), command);
        let t = advanced(s, command)->Ok_0;
        assert forall|i: int|
            #![trigger t.history[i]]
            0 <= i < t.history.len() implies timeline::well_numbered(t.history[i])
            && t.history[i].next_clip_id <= t.next_clip_id && t.history[i].next_track_id
            <= t.next_track_id by {
            if i <= s.cursor {
                assert(t.history[i] == s.history[i]);
            }
        }
    }
}

/// An id that a command hands out is carried by no version of the session, not even by one
/// that was undone and is dropped.
pub proof fn minted_ids_are_new(s: Session, command: Command, id: ClipId, i: int)
    requires
        s.sound(),
        edit::has_room(s.seated(), edit::minted(command)),
        advanced(s, command) is Ok,
        laws::carried(timeline::all_tracks(advanced(s, command)->Ok_0.current()), id),
        !laws::carried(timeline::all_tracks(s.current()), id),
        0 <= i < s.history.len(),
    ensures
        !laws::carried(timeline::all_tracks(s.history[i]), id),
{
    lemma_seated(s);
    laws::edit_keeps_numbering(s.seated(), command, id);
    assert(s.history[i].next_clip_id <= s.next_clip_id);
    laws::fresh_id_is_nowhere(s.history[i], id);
}

} // verus!

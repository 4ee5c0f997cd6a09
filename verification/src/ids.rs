//! Stable identity for the editing document.
//!
//! Clips, tracks, groups, markers and effects carry ids that stay the same across edits,
//! undo and redo. An id is a 64-bit count taken from a counter of the document: a fresh one
//! is handed out for each addition and none is ever handed out twice, so that a command
//! naming a removed clip fails instead of reaching another one. Zero is the unset id.

use vstd::prelude::*;

verus! {

/// Identity of a clip within a timeline; unset until the clip is placed in one.
#[derive(Clone, Copy, Debug, PartialEq, Eq, PartialOrd, Ord, Hash, Structural)]
pub struct ClipId(pub u64);

impl ClipId {
    /// The id of a clip that has not yet been placed in a document.
    pub fn unset() -> (r: ClipId)
        ensures
            r == ClipId(0),
    {
        ClipId(0)
    }

    /// Whether this id has been assigned by a document.
    #[must_use]
    pub fn is_set(self) -> (r: bool)
        ensures
            r == (self != ClipId(0)),
    {
        self.0 != 0
    }

    /// The id with the given counter value.
    pub fn from_raw(value: u64) -> (r: ClipId)
        ensures
            r == ClipId(value),
    {
        ClipId(value)
    }
}

/// Identity of a track within a timeline; unset until the track is placed in one.
///
/// Video and audio tracks draw from one counter, so a track id names a track without its kind.
#[derive(Clone, Copy, Debug, PartialEq, Eq, PartialOrd, Ord, Hash, Structural)]
pub struct TrackId(pub u64);

impl TrackId {
    /// The id of a track that has not yet been placed in a document.
    pub fn unset() -> (r: TrackId)
        ensures
            r == TrackId(0),
    {
        TrackId(0)
    }

    /// Whether this id has been assigned by a document.
    #[must_use]
    pub fn is_set(self) -> (r: bool)
        ensures
            r == (self != TrackId(0)),
    {
        self.0 != 0
    }

    /// The id with the given counter value.
    pub fn from_raw(value: u64) -> (r: TrackId)
        ensures
            r == TrackId(value),
    {
        TrackId(value)
    }
}

/// Identity of a group of linked clips within a timeline; unset until the group is placed in
/// one.
#[derive(Clone, Copy, Debug, PartialEq, Eq, PartialOrd, Ord, Hash, Structural)]
pub struct GroupId(pub u64);

impl GroupId {
    /// The id of a group of linked clips that has not yet been placed in a document.
    pub fn unset() -> (r: GroupId)
        ensures
            r == GroupId(0),
    {
        GroupId(0)
    }

    /// Whether this id has been assigned by a document.
    #[must_use]
    pub fn is_set(self) -> (r: bool)
        ensures
            r == (self != GroupId(0)),
    {
        self.0 != 0
    }

    /// The id with the given counter value.
    pub fn from_raw(value: u64) -> (r: GroupId)
        ensures
            r == GroupId(value),
    {
        GroupId(value)
    }
}

/// Identity of a marker within a timeline; unset until the marker is placed in one.
#[derive(Clone, Copy, Debug, PartialEq, Eq, PartialOrd, Ord, Hash, Structural)]
pub struct MarkerId(pub u64);

impl MarkerId {
    /// The id of a marker that has not yet been placed in a document.
    pub fn unset() -> (r: MarkerId)
        ensures
            r == MarkerId(0),
    {
        MarkerId(0)
    }

    /// Whether this id has been assigned by a document.
    #[must_use]
    pub fn is_set(self) -> (r: bool)
        ensures
            r == (self != MarkerId(0)),
    {
        self.0 != 0
    }

    /// The id with the given counter value.
    pub fn from_raw(value: u64) -> (r: MarkerId)
        ensures
            r == MarkerId(value),
    {
        MarkerId(value)
    }
}

/// Identity of a clip effect within a timeline; unset until the clip effect is placed in one.
#[derive(Clone, Copy, Debug, PartialEq, Eq, PartialOrd, Ord, Hash, Structural)]
pub struct EffectId(pub u64);

impl EffectId {
    /// The id of a clip effect that has not yet been placed in a document.
    pub fn unset() -> (r: EffectId)
        ensures
            r == EffectId(0),
    {
        EffectId(0)
    }

    /// Whether this id has been assigned by a document.
    #[must_use]
    pub fn is_set(self) -> (r: bool)
        ensures
            r == (self != EffectId(0)),
    {
        self.0 != 0
    }

    /// The id with the given counter value.
    pub fn from_raw(value: u64) -> (r: EffectId)
        ensures
            r == EffectId(value),
    {
        EffectId(value)
    }
}

/// Which list of tracks is meant.
#[derive(Clone, Copy, Debug, PartialEq, Eq, Structural)]
pub enum TrackKind {
    /// A video track.
    Video,
    /// An audio track.
    Audio,
}

} // verus!

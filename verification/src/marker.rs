//! Markers: labelled points on the timeline, for navigation and notes.
//!
//! A marker is metadata only. It never changes what is derived, rendered or previewed.

use vstd::prelude::*;

use crate::clip::copy_text;
use crate::filter::Color;
use crate::ids::MarkerId;
use crate::time::Duration;

verus! {

/// A labelled point on the timeline.
#[derive(Debug, PartialEq)]
pub struct Marker {
    /// Identity within a timeline; unset until the marker is added to one.
    pub id: MarkerId,
    /// Position on the timeline.
    pub pts: Duration,
    /// Label; `None` for an unnamed marker.
    pub name: Option<String>,
    /// Colour; `None` for the host's default.
    pub color: Option<Color>,
    /// Note; `None` for no comment.
    pub comment: Option<String>,
}

impl Clone for Marker {
    fn clone(&self) -> (r: Self)
        ensures
            r == *self,
    {
        Marker {
            id: self.id,
            pts: self.pts,
            name: copy_text(&self.name),
            color: self.color,
            comment: copy_text(&self.comment),
        }
    }
}

impl Marker {
    /// An unnamed marker at `pts`, with no colour or comment, not yet in a document.
    #[must_use]
    pub fn new(pts: Duration) -> (r: Marker)
        ensures
            r == (Marker { id: MarkerId(0), pts, name: None, color: None, comment: None }),
    {
        Marker { id: MarkerId::unset(), pts, name: None, color: None, comment: None }
    }

    /// Sets the label.
    #[must_use]
    pub fn with_name(self, name: String) -> (r: Marker)
        ensures
            r == (Marker { name: Some(name), ..self }),
    {
        let mut marker = self;
        marker.name = Some(name);
        marker
    }

    /// Sets the colour.
    #[must_use]
    pub fn with_color(self, color: Color) -> (r: Marker)
        ensures
            r == (Marker { color: Some(color), ..self }),
    {
        let mut marker = self;
        marker.color = Some(color);
        marker
    }

    /// Sets the comment.
    #[must_use]
    pub fn with_comment(self, comment: String) -> (r: Marker)
        ensures
            r == (Marker { comment: Some(comment), ..self }),
    {
        let mut marker = self;
        marker.comment = Some(comment);
        marker
    }
}

} // verus!

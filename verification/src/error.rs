//! Failures of building and rendering the editing model.

use vstd::prelude::*;

use crate::ids::ClipId;

verus! {

/// Why a timeline could not be built or rendered.
#[derive(Debug, PartialEq, Eq)]
pub enum TimelineError {
    /// A decoding step failed, with the decoder's words.
    Decode(String),
    /// A filter graph step failed, with the graph's words.
    Filter(String),
    /// An encoding step failed, with the encoder's words.
    Encode(String),
    /// Both track lists were empty.
    NoInput,
    /// The progress callback asked to stop.
    Cancelled,
    /// A structural failure that no other variant covers.
    TimelineRenderFailed { reason: String },
    /// A clip's source file is missing.
    ClipNotFound { path: String },
    /// A generated clip has no end to bound its endless source.
    GeneratedSourceNeedsDuration { clip: ClipId },
}

/// The failure in words.
pub open spec fn words(e: TimelineError) -> Seq<char> {
    match e {
        TimelineError::Decode(m) => "decode failed: "@ + m@,
        TimelineError::Filter(m) => "filter failed: "@ + m@,
        TimelineError::Encode(m) => "encode failed: "@ + m@,
        TimelineError::NoInput => "no input specified"@,
        TimelineError::Cancelled => "timeline render cancelled by caller"@,
        TimelineError::TimelineRenderFailed { reason } => "timeline render failed: "@ + reason@,
        TimelineError::ClipNotFound { path } => "clip source not found: path="@ + path@,
        TimelineError::GeneratedSourceNeedsDuration { .. } => "generated source needs a duration"@,
    }
}

fn joined(lead: &str, detail: &String) -> (r: String)
    ensures
        r@ == lead@ + detail@,
{
    let mut text = lead.to_owned();
    text.append(detail.as_str());
    text
}

impl TimelineError {
    /// The failure in words.
    pub fn message(&self) -> (r: String)
        ensures
            r@ == words(*self),
    {
        match self {
            TimelineError::Decode(m) => joined("decode failed: ", m),
            TimelineError::Filter(m) => joined("filter failed: ", m),
            TimelineError::Encode(m) => joined("encode failed: ", m),
            TimelineError::NoInput => "no input specified".to_owned(),
            TimelineError::Cancelled => "timeline render cancelled by caller".to_owned(),
            TimelineError::TimelineRenderFailed { reason } => joined(
                "timeline render failed: ",
                reason,
            ),
            TimelineError::ClipNotFound { path } => joined("clip source not found: path=", path),
            TimelineError::GeneratedSourceNeedsDuration { .. } => {
                "generated source needs a duration".to_owned()
            },
        }
    }
}

} // verus!

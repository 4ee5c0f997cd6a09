//! The one rule for where a transition sits and how long it lasts.
//!
//! A transition into a clip occupies the clip's first moments and is fed by the outgoing
//! clip's *handle*: what its source holds past its out-point. The length of the timeline does
//! not change, so no clip moves. A length cut down to the handle comes from
//! [`effective_duration`] alone; the layers of the filter graph and the scene of the preview
//! carry the authored length.

use vstd::prelude::*;

use crate::clip::{Clip, ClipSource};
use crate::float::double;
use crate::float::double::F64;
use crate::float::values;
use crate::time;
use crate::time::Duration;

verus! {

/// Whether a speed is one, within a billionth.
pub open spec fn unity(speed: F64) -> bool {
    double::less(
        double::difference(speed, F64 { bits: values::ONE }).unsigned(),
        F64 { bits: values::BILLIONTH },
    )
}

/// A speed, which counts as one hundredth at least.
pub open spec fn floored(speed: F64) -> F64 {
    double::greater_of(speed, F64 { bits: values::HUNDREDTH })
}

fn is_unity(speed: F64) -> (r: bool)
    ensures
        r == unity(speed),
{
    speed.minus(F64 { bits: values::ONE }).abs().below(F64 { bits: values::BILLIONTH })
}

/// The authored duration cut down to the handle; `None` is a handle without end.
pub open spec fn clamped(authored: Duration, handle: Option<Duration>) -> Duration {
    match handle {
        Some(h) if h.nanos < authored.nanos => h,
        _ => authored,
    }
}

/// What a clip's source holds past its out-point, in source time.
pub open spec fn source_tail(clip: Clip, source: Option<Duration>) -> Duration {
    match (clip.out_point, source) {
        (Some(o), Some(s)) => time::earlier(s, o),
        _ => Duration { nanos: 0 },
    }
}

/// How long a clip can go on past its out-point, in timeline time, given how long its source
/// is. A generated source has no end. A clip that runs to the end of its file has nothing past
/// it, and neither has one whose source cannot be read.
pub open spec fn handle_of(clip: Clip, source: Option<Duration>) -> Option<Duration> {
    if clip.source !is File {
        None
    } else if unity(clip.speed) {
        Some(source_tail(clip, source))
    } else {
        time::span(
            double::quotient(time::seconds(source_tail(clip, source)), floored(clip.speed)),
        )
    }
}

/// Whether a clip's tail, divided by its speed, is still a span of time.
pub open spec fn tail_fits(clip: Clip, source: Option<Duration>) -> bool {
    clip.source is File && !unity(clip.speed) ==> time::span(
        double::quotient(time::seconds(source_tail(clip, source)), floored(clip.speed)),
    ) is Some
}

/// Whether the tail that feeds each transition of a track, divided by its clip's speed, is still
/// a span of time. A clip that no transition leaves need not have such a tail.
pub open spec fn tails_fit(clips: Seq<Clip>, sources: Seq<Option<Duration>>) -> bool {
    forall|i: int|
        #![trigger clips[i]]
        1 <= i < clips.len() && clips[i].transition is Some ==> tail_fits(
            clips[i - 1],
            sources[i - 1],
        )
}

/// How long the transition from `outgoing` into `incoming` lasts, given how long the outgoing
/// source is.
pub open spec fn effective(outgoing: Clip, incoming: Clip, source: Option<Duration>) -> Duration {
    if incoming.transition is None {
        Duration { nanos: 0 }
    } else {
        clamped(incoming.transition_duration, handle_of(outgoing, source))
    }
}

/// Cuts an authored duration down to the handle.
pub fn clamp_to_handle(authored: Duration, handle: Option<Duration>) -> (r: Duration)
    ensures
        r == clamped(authored, handle),
{
    match handle {
        Some(h) => {
            if h.nanos >= authored.nanos {
                authored
            } else {
                h
            }
        },
        None => authored,
    }
}

/// The file whose length decides a clip's handle, or `None` where no file does.
pub fn handle_path(clip: &Clip) -> (r: Option<String>)
    ensures
        r == match (clip.source, clip.out_point) {
            (ClipSource::File(path), Some(_)) => Some(path),
            _ => None,
        },
{
    if clip.out_point.is_none() {
        return None;
    }
    match &clip.source {
        ClipSource::File(path) => Some(path.clone()),
        _ => None,
    }
}

/// Whether a clip's tail, divided by its speed, is still a span of time.
pub fn has_finite_tail(clip: &Clip, source: Option<Duration>) -> (r: bool)
    ensures
        r == tail_fits(*clip, source),
{
    let is_file = match &clip.source {
        ClipSource::File(_) => true,
        _ => false,
    };
    if !is_file || is_unity(clip.speed) {
        return true;
    }
    let tail = match (clip.out_point, source) {
        (Some(o), Some(s)) => s.saturating_sub(o),
        _ => Duration::zero(),
    };
    Duration::try_from_secs_f64(
        tail.as_secs_f64().over(clip.speed.max(F64 { bits: values::HUNDREDTH })),
    ).is_some()
}

/// How long a clip can go on past its out-point. `source` is the length of the file that
/// [`handle_path`] names, or `None` where it cannot be read.
pub fn video_handle(clip: &Clip, source: Option<Duration>) -> (r: Option<Duration>)
    requires
        tail_fits(*clip, source),
    ensures
        r == handle_of(*clip, source),
{
    match &clip.source {
        ClipSource::File(_) => {},
        _ => {
            return None;
        },
    }
    let tail = match (clip.out_point, source) {
        (Some(o), Some(s)) => s.saturating_sub(o),
        _ => Duration::zero(),
    };
    if is_unity(clip.speed) {
        Some(tail)
    } else {
        Duration::try_from_secs_f64(
            tail.as_secs_f64().over(clip.speed.max(F64 { bits: values::HUNDREDTH })),
        )
    }
}

/// How long the transition from `outgoing` into `incoming` really lasts: nothing where
/// `incoming` carries none, else the authored duration cut down to the outgoing handle.
pub fn effective_duration(outgoing: &Clip, incoming: &Clip, source: Option<Duration>) -> (r:
    Duration)
    requires
        incoming.transition is Some ==> tail_fits(*outgoing, source),
    ensures
        r == effective(*outgoing, *incoming, source),
{
    if incoming.transition.is_none() {
        return Duration::zero();
    }
    clamp_to_handle(incoming.transition_duration, video_handle(outgoing, source))
}

/// Every boundary of one track: entry `i` is the transition into clip `i`, so the first one is
/// nothing. `sources[i]` is the length of clip `i`'s source.
pub fn effective_durations(clips: &Vec<Clip>, sources: &Vec<Option<Duration>>) -> (r: Vec<Duration>)
    requires
        sources@.len() == clips@.len(),
        tails_fit(clips@, sources@),
    ensures
        r@.len() == clips@.len(),
        clips@.len() > 0 ==> r@[0] == (Duration { nanos: 0 }),
        forall|i: int|
            #![trigger r@[i]]
            1 <= i < clips@.len() ==> r@[i] == effective(clips@[i - 1], clips@[i], sources@[i - 1]),
{
    let mut found: Vec<Duration> = Vec::new();
    let mut i: usize = 0;
    while i < clips.len()
        invariant
            i <= clips@.len(),
            sources@.len() == clips@.len(),
            tails_fit(clips@, sources@),
            found@.len() == i,
            i > 0 ==> found@[0] == (Duration { nanos: 0 }),
            forall|j: int|
                #![trigger found@[j]]
                1 <= j < i ==> found@[j] == effective(clips@[j - 1], clips@[j], sources@[j - 1]),
        decreases clips@.len() - i,
    {
        if i == 0 {
            found.push(Duration::zero());
        } else {
            assert(clips@[i as int].transition is Some ==> tail_fits(
                clips@[i - 1],
                sources@[i - 1],
            ));
            found.push(effective_duration(&clips[i - 1], &clips[i], sources[i - 1]));
        }
        i = i + 1;
    }
    found
}

/// A span of timeline time in source time: `span * speed`, or the span itself where that is no
/// span of time.
pub open spec fn in_source(span: Duration, speed: F64) -> Duration {
    if unity(speed) {
        span
    } else {
        match time::span(double::product(time::seconds(span), floored(speed))) {
            Some(d) => d,
            None => span,
        }
    }
}

/// Converts a span of timeline time to the source time that a trim is written in.
pub fn to_source(span: Duration, speed: F64) -> (r: Duration)
    ensures
        r == in_source(span, speed),
{
    if is_unity(speed) {
        return span;
    }
    match Duration::try_from_secs_f64(
        span.as_secs_f64().times(speed.max(F64 { bits: values::HUNDREDTH })),
    ) {
        Some(d) => d,
        None => span,
    }
}

/// The seconds that a clip contributes to its track once its speed has scaled it: the measure in
/// which a cross-fade is placed.
pub fn composited_secs(source_secs: F64, speed: F64) -> (r: F64)
    ensures
        r == double::quotient(source_secs, floored(speed)),
{
    source_secs.over(speed.max(F64 { bits: values::HUNDREDTH }))
}

/// A transition lasts no longer than it was authored to, and no longer than the handle that
/// feeds it; with enough handle it lasts as authored, and otherwise as long as the handle. Where
/// there is no transition it takes no time.
pub proof fn transition_fits_its_handle(outgoing: Clip, incoming: Clip, source: Option<Duration>)
    ensures
        effective(outgoing, incoming, source).nanos <= incoming.transition_duration.nanos,
        handle_of(outgoing, source) matches Some(h) ==> effective(
            outgoing,
            incoming,
            source,
        ).nanos <= h.nanos,
        incoming.transition is Some && (handle_of(outgoing, source) matches Some(h)
            ==> h.nanos >= incoming.transition_duration.nanos) ==> effective(
            outgoing,
            incoming,
            source,
        ) == incoming.transition_duration,
        incoming.transition is Some ==> (handle_of(outgoing, source) matches Some(h) ==> (h.nanos
            <= incoming.transition_duration.nanos ==> effective(outgoing, incoming, source).nanos
            == h.nanos)),
        incoming.transition is None ==> effective(outgoing, incoming, source).nanos == 0,
{
}

} // verus!

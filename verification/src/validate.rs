//! Pure, informational validation of a timeline.
//!
//! [`Timeline::validate`] lists problems so that a host can show them before rendering:
//! overlapping clips, bad trims, generated clips with no end, transitions with nothing to
//! fade from. It reads no file and blocks nothing.

use vstd::prelude::*;

use crate::clip;
use crate::clip::{Clip, ClipSource};
use crate::edit;
use crate::error::TimelineError;
use crate::ids::{ClipId, TrackId};
use crate::laws;
use crate::time;
use crate::time::Duration;
use crate::timeline;
use crate::timeline::{Document, Timeline};
use crate::track;
use crate::track::{Track, TrackState};

verus! {

/// A problem found by [`Timeline::validate`].
#[allow(inconsistent_fields)]
#[derive(Clone, Copy, Debug, PartialEq, Eq, Structural)]
pub enum TimelineIssue {
    /// Two clips of a track overlap in time. Only clips of known length are looked at.
    ClipOverlap { track: TrackId, earlier: ClipId, later: ClipId },
    /// A clip ends in its source before it starts.
    TrimOutBeforeIn { clip: ClipId },
    /// A clip ends in its source where it starts.
    EmptyFootprint { clip: ClipId },
    /// A generated clip has no end to bound it.
    GeneratedClipWithoutOutPoint { clip: ClipId },
    /// The first clip of a track carries a transition, with nothing to fade from.
    DanglingTransition { track: TrackId, clip: ClipId },
}

/// The problem with a clip's trim, if any.
pub open spec fn trim_issues(c: Clip) -> Seq<TimelineIssue> {
    match (c.in_point, c.out_point) {
        (Some(i), Some(o)) => {
            if o.nanos < i.nanos {
                seq![TimelineIssue::TrimOutBeforeIn { clip: c.id }]
            } else if o.nanos == i.nanos {
                seq![TimelineIssue::EmptyFootprint { clip: c.id }]
            } else {
                Seq::empty()
            }
        },
        _ => Seq::empty(),
    }
}

/// The problem with a generated clip's end, if any.
pub open spec fn end_issues(c: Clip) -> Seq<TimelineIssue> {
    if clip::file_of(c) is None && c.out_point is None {
        seq![TimelineIssue::GeneratedClipWithoutOutPoint { clip: c.id }]
    } else {
        Seq::empty()
    }
}

/// The problems of each clip by itself, in order.
pub open spec fn clip_issues(clips: Seq<Clip>) -> Seq<TimelineIssue>
    decreases clips.len(),
{
    if clips.len() == 0 {
        Seq::empty()
    } else {
        clip_issues(clips.drop_last()) + trim_issues(clips.last()) + end_issues(clips.last())
    }
}

/// The problem with the first clip's transition, if any.
pub open spec fn transition_issues(t: TrackState) -> Seq<TimelineIssue> {
    if t.clips.len() > 0 && t.clips[0].transition is Some {
        seq![TimelineIssue::DanglingTransition { track: t.id, clip: t.clips[0].id }]
    } else {
        Seq::empty()
    }
}

/// The time that a clip takes on its track.
#[derive(Clone, Copy, Debug, PartialEq, Eq, Structural)]
pub struct Span {
    /// The clip's place on the track.
    pub place: usize,
    /// The clip.
    pub id: ClipId,
    /// Where it starts.
    pub start: Duration,
    /// Where it ends.
    pub end: Duration,
}

/// The time that the clip at `place` takes.
pub open spec fn span_of(c: Clip, place: int, length: Duration) -> Span {
    Span { place: place as usize, id: c.id, start: c.offset, end: time::later(c.offset, length) }
}

/// The times that the clips of known length take, in the order of the track.
pub open spec fn spans(clips: Seq<Clip>) -> Seq<Span>
    decreases clips.len(),
{
    if clips.len() == 0 {
        Seq::empty()
    } else {
        let before = spans(clips.drop_last());
        match edit::footprint(clips.last()) {
            Some(length) => before.push(span_of(clips.last(), clips.len() - 1, length)),
            None => before,
        }
    }
}

/// `x` put behind everything that starts no later.
pub open spec fn placed(sorted: Seq<Span>, x: Span) -> Seq<Span>
    decreases sorted.len(),
{
    if sorted.len() == 0 || sorted.last().start.nanos <= x.start.nanos {
        sorted.push(x)
    } else {
        placed(sorted.drop_last(), x).push(sorted.last())
    }
}

/// The spans by their start, equal ones in the order they had.
pub open spec fn by_start(s: Seq<Span>) -> Seq<Span>
    decreases s.len(),
{
    if s.len() == 0 {
        s
    } else {
        placed(by_start(s.drop_last()), s.last())
    }
}

/// The overlaps of span `i` with the spans after it, up to `n`.
pub open spec fn overlaps_with(track: TrackId, s: Seq<Span>, i: int, n: int) -> Seq<TimelineIssue>
    decreases n - i,
{
    if n <= i + 1 {
        Seq::empty()
    } else {
        let before = overlaps_with(track, s, i, n - 1);
        if s[n - 1].start.nanos < s[i].end.nanos {
            before.push(
                TimelineIssue::ClipOverlap { track, earlier: s[i].id, later: s[n - 1].id },
            )
        } else {
            before
        }
    }
}

/// The overlaps of the first `n` spans with the spans after them.
pub open spec fn overlaps(track: TrackId, s: Seq<Span>, n: int) -> Seq<TimelineIssue>
    decreases n,
{
    if n <= 0 {
        Seq::empty()
    } else {
        overlaps(track, s, n - 1) + overlaps_with(track, s, n - 1, s.len() as int)
    }
}

/// The problems of one track: of each clip, of the first transition, and the overlaps.
pub open spec fn track_issues(t: TrackState) -> Seq<TimelineIssue> {
    let s = by_start(spans(t.clips));
    clip_issues(t.clips) + transition_issues(t) + overlaps(t.id, s, s.len() as int)
}

/// The problems of a list of tracks, in order.
pub open spec fn list_issues(tracks: Seq<TrackState>) -> Seq<TimelineIssue>
    decreases tracks.len(),
{
    if tracks.len() == 0 {
        Seq::empty()
    } else {
        list_issues(tracks.drop_last()) + track_issues(tracks.last())
    }
}

/// The problems of a document, video tracks first.
pub open spec fn issues(d: Document) -> Seq<TimelineIssue> {
    list_issues(d.video) + list_issues(d.audio)
}

/// Notes an out-of-order trim or an empty one.
pub fn check_clip_trim(clip: &Clip, issues: &mut Vec<TimelineIssue>)
    ensures
        final(issues)@ == old(issues)@ + trim_issues(*clip),
{
    let ghost want = issues@ + trim_issues(*clip);
    if let Some(in_point) = clip.in_point {
        if let Some(out_point) = clip.out_point {
            if out_point.nanos < in_point.nanos {
                issues.push(TimelineIssue::TrimOutBeforeIn { clip: clip.id });
            } else if out_point.nanos == in_point.nanos {
                issues.push(TimelineIssue::EmptyFootprint { clip: clip.id });
            }
        }
    }
    assert(issues@ =~= want);
}

fn check_clips(clips: &Vec<Clip>, issues: &mut Vec<TimelineIssue>)
    ensures
        final(issues)@ == old(issues)@ + clip_issues(clips@),
{
    let ghost lead = issues@;
    let mut i: usize = 0;
    proof {
        assert(clips@.take(0) =~= Seq::empty());
        assert(issues@ =~= lead + clip_issues(clips@.take(0)));
    }
    while i < clips.len()
        invariant
            i <= clips@.len(),
            issues@ == lead + clip_issues(clips@.take(i as int)),
        decreases clips@.len() - i,
    {
        let c = &clips[i];
        proof {
            assert(clips@.take(i + 1).drop_last() =~= clips@.take(i as int));
            assert(clips@.take(i + 1).last() == *c);
        }
        check_clip_trim(c, issues);
        let generated = match &c.source {
            ClipSource::File(_) => false,
            _ => true,
        };
        if generated && c.out_point.is_none() {
            issues.push(TimelineIssue::GeneratedClipWithoutOutPoint { clip: c.id });
        }
        assert(issues@ =~= lead + clip_issues(clips@.take(i + 1)));
        i = i + 1;
    }
    assert(clips@.take(i as int) =~= clips@);
}

/// What [`placed`] keeps: the order, and everything that was there.
proof fn lemma_placed(sorted: Seq<Span>, x: Span)
    requires
        ascending(sorted),
    ensures
        ascending(placed(sorted, x)),
        placed(sorted, x).len() == sorted.len() + 1,
        forall|y: Span| #[trigger]
            placed(sorted, x).contains(y) <==> sorted.contains(y) || y == x,
        sorted.len() > 0 && x.start.nanos < sorted.last().start.nanos ==> placed(
            sorted,
            x,
        ).last() == sorted.last(),
        sorted.len() == 0 || sorted.last().start.nanos <= x.start.nanos ==> placed(
            sorted,
            x,
        ).last() == x,
    decreases sorted.len(),
{
    let p = placed(sorted, x);
    if sorted.len() == 0 || sorted.last().start.nanos <= x.start.nanos {
        assert forall|y: Span| #[trigger] p.contains(y) <==> sorted.contains(y) || y == x by {
            lemma_contains_push(sorted, x, y);
        }
    } else {
        let shorter = sorted.drop_last();
        let q = placed(shorter, x);
        assert(ascending(shorter)) by {
            assert forall|i: int, j: int|
                #![trigger shorter[i], shorter[j]]
                0 <= i <= j < shorter.len() implies shorter[i].start.nanos
                <= shorter[j].start.nanos by {
                assert(sorted[i].start.nanos <= sorted[j].start.nanos);
            }
        }
        lemma_placed(shorter, x);
        assert(ascending(p)) by {
            assert(q.last().start.nanos <= sorted.last().start.nanos) by {
                if shorter.len() > 0 {
                    assert(shorter.last() == sorted[sorted.len() - 2]);
                    assert(sorted[sorted.len() - 2].start.nanos <= sorted[sorted.len()
                        - 1].start.nanos);
                }
            }
            assert forall|i: int, j: int|
                #![trigger p[i], p[j]]
                0 <= i <= j < p.len() implies p[i].start.nanos <= p[j].start.nanos by {
                if i < q.len() {
                    assert(q[i].start.nanos <= q[q.len() - 1].start.nanos);
                }
            }
        }
        assert forall|y: Span| #[trigger] p.contains(y) <==> sorted.contains(y) || y == x by {
            lemma_contains_push(q, sorted.last(), y);
            lemma_contains_push(shorter, sorted.last(), y);
            assert(shorter.push(sorted.last()) =~= sorted);
            assert(q.contains(y) <==> shorter.contains(y) || y == x);
        }
    }
}

proof fn lemma_contains_push(s: Seq<Span>, x: Span, y: Span)
    ensures
        s.push(x).contains(y) <==> s.contains(y) || y == x,
{
    let p = s.push(x);
    if s.contains(y) {
        let i = choose|i: int| 0 <= i < s.len() && s[i] == y;
        assert(p[i] == y);
    }
    if y == x {
        assert(p[s.len() as int] == y);
    }
    if p.contains(y) && y != x {
        let i = choose|i: int| 0 <= i < p.len() && p[i] == y;
        assert(s[i] == y);
    }
}

/// Whether the spans are in the order of their starts.
pub open spec fn ascending(s: Seq<Span>) -> bool {
    forall|i: int, j: int|
        #![trigger s[i], s[j]]
        0 <= i <= j < s.len() ==> s[i].start.nanos <= s[j].start.nanos
}

/// Ordering by start gives ascending spans, the same ones.
pub proof fn by_start_is_ordered(s: Seq<Span>)
    ensures
        ascending(by_start(s)),
        by_start(s).len() == s.len(),
        forall|y: Span| #[trigger] by_start(s).contains(y) <==> s.contains(y),
    decreases s.len(),
{
    if s.len() > 0 {
        by_start_is_ordered(s.drop_last());
        lemma_placed(by_start(s.drop_last()), s.last());
        assert forall|y: Span| #[trigger] by_start(s).contains(y) <==> s.contains(y) by {
            lemma_contains_push(s.drop_last(), s.last(), y);
            assert(s.drop_last().push(s.last()) =~= s);
            assert(by_start(s.drop_last()).contains(y) <==> s.drop_last().contains(y));
        }
    }
}

/// Puts a span behind everything that starts no later.
fn place(sorted: &mut Vec<Span>, x: Span)
    ensures
        final(sorted)@ == placed(old(sorted)@, x),
    decreases old(sorted)@.len(),
{
    let n: usize = sorted.len();
    if n == 0 || sorted[n - 1].start.nanos <= x.start.nanos {
        sorted.push(x);
    } else {
        let last = sorted[n - 1];
        sorted.pop();
        assert(sorted@ =~= old(sorted)@.drop_last());
        place(sorted, x);
        sorted.push(last);
    }
}

fn sorted_spans(clips: &Vec<Clip>) -> (r: Vec<Span>)
    ensures
        r@ == by_start(spans(clips@)),
{
    let mut sorted: Vec<Span> = Vec::new();
    let mut i: usize = 0;
    assert(clips@.take(0) =~= Seq::empty());
    while i < clips.len()
        invariant
            i <= clips@.len(),
            sorted@ == by_start(spans(clips@.take(i as int))),
        decreases clips@.len() - i,
    {
        let c = &clips[i];
        proof {
            assert(clips@.take(i + 1).drop_last() =~= clips@.take(i as int));
            assert(clips@.take(i + 1).last() == *c);
        }
        if let Some(length) = edit::clip_footprint(c) {
            let x = Span {
                place: i,
                id: c.id,
                start: c.offset,
                end: c.offset.saturating_add(length),
            };
            proof {
                let before = spans(clips@.take(i as int));
                assert(before.push(x).drop_last() =~= before);
            }
            place(&mut sorted, x);
        }
        i = i + 1;
    }
    assert(clips@.take(i as int) =~= clips@);
    sorted
}

/// Beyond a span that starts at or after the end of span `i`, none overlaps it.
proof fn lemma_no_more(track: TrackId, s: Seq<Span>, i: int, j: int, n: int)
    requires
        ascending(s),
        0 <= i < j <= n <= s.len(),
        j == n || s[j].start.nanos >= s[i].end.nanos,
    ensures
        overlaps_with(track, s, i, n) == overlaps_with(track, s, i, j),
    decreases n,
{
    if j < n {
        lemma_no_more(track, s, i, j, n - 1);
        assert(s[j].start.nanos <= s[n - 1].start.nanos);
    }
}

/// Notes the overlapping clips of a track.
fn check_overlaps(track: &Track, issues: &mut Vec<TimelineIssue>)
    ensures
        ({
            let s = by_start(spans(track.clips@));
            final(issues)@ == old(issues)@ + overlaps(track.id, s, s.len() as int)
        }),
{
    let sorted = sorted_spans(&track.clips);
    let ghost s = sorted@;
    let ghost lead = issues@;
    proof {
        by_start_is_ordered(spans(track.clips@));
        assert(issues@ =~= lead + overlaps(track.id, s, 0));
    }
    let mut i: usize = 0;
    while i < sorted.len()
        invariant
            i <= sorted@.len(),
            s == sorted@,
            ascending(s),
            issues@ == lead + overlaps(track.id, s, i as int),
        decreases sorted@.len() - i,
    {
        let first = sorted[i];
        let ghost before = issues@;
        let mut j: usize = i + 1;
        assert(issues@ =~= before + overlaps_with(track.id, s, i as int, j as int));
        while j < sorted.len() && sorted[j].start.nanos < first.end.nanos
            invariant
                i < j <= sorted@.len(),
                s == sorted@,
                first == s[i as int],
                issues@ == before + overlaps_with(track.id, s, i as int, j as int),
            decreases sorted@.len() - j,
        {
            issues.push(
                TimelineIssue::ClipOverlap {
                    track: track.id,
                    earlier: first.id,
                    later: sorted[j].id,
                },
            );
            assert(issues@ =~= before + overlaps_with(track.id, s, i as int, j + 1));
            j = j + 1;
        }
        proof {
            lemma_no_more(track.id, s, i as int, j as int, s.len() as int);
            assert(issues@ =~= lead + overlaps(track.id, s, i + 1));
        }
        i = i + 1;
    }
}

/// Notes the problems of one track.
fn check_track(track: &Track, issues: &mut Vec<TimelineIssue>)
    ensures
        final(issues)@ == old(issues)@ + track_issues(track@),
{
    let ghost want = issues@ + track_issues(track@);
    check_clips(&track.clips, issues);
    if track.clips.len() > 0 && track.clips[0].transition.is_some() {
        issues.push(
            TimelineIssue::DanglingTransition { track: track.id, clip: track.clips[0].id },
        );
    }
    check_overlaps(track, issues);
    assert(issues@ =~= want);
}

fn check_list(tracks: &Vec<Track>, issues: &mut Vec<TimelineIssue>)
    ensures
        final(issues)@ == old(issues)@ + list_issues(track::states(tracks@)),
{
    let ghost all = track::states(tracks@);
    let ghost lead = issues@;
    let mut i: usize = 0;
    proof {
        assert(all.take(0) =~= Seq::empty());
        assert(issues@ =~= lead + list_issues(all.take(0)));
    }
    while i < tracks.len()
        invariant
            i <= tracks@.len(),
            all == track::states(tracks@),
            issues@ == lead + list_issues(all.take(i as int)),
        decreases tracks@.len() - i,
    {
        check_track(&tracks[i], issues);
        proof {
            assert(all.take(i + 1).drop_last() =~= all.take(i as int));
            assert(issues@ =~= lead + list_issues(all.take(i + 1)));
        }
        i = i + 1;
    }
    assert(all.take(i as int) =~= all);
}

impl Timeline {
    /// Lists the timeline's problems: for each track, video first, those of each clip, that
    /// of the first transition, and the overlaps in the order of the clips' starts.
    #[must_use]
    pub fn validate(&self) -> (r: Vec<TimelineIssue>)
        ensures
            r@ == issues(self@),
    {
        let mut found: Vec<TimelineIssue> = Vec::new();
        check_list(&self.video_tracks, &mut found);
        check_list(&self.audio_tracks, &mut found);
        assert(found@ =~= issues(self@));
        found
    }
}

/// A reported overlap, by its place in the rows of overlaps.
proof fn lemma_reported(track: TrackId, s: Seq<Span>, i: int, j: int, n: int)
    requires
        0 <= i < j < n <= s.len(),
        s[j].start.nanos < s[i].end.nanos,
    ensures
        overlaps_with(track, s, i, n).contains(
            TimelineIssue::ClipOverlap { track, earlier: s[i].id, later: s[j].id },
        ),
    decreases n,
{
    let issue = TimelineIssue::ClipOverlap { track, earlier: s[i].id, later: s[j].id };
    let now = overlaps_with(track, s, i, n);
    if j == n - 1 {
        assert(now.last() == issue);
        assert(now[now.len() - 1] == issue);
    } else {
        lemma_reported(track, s, i, j, n - 1);
        let before = overlaps_with(track, s, i, n - 1);
        let k = choose|k: int| 0 <= k < before.len() && before[k] == issue;
        assert(now[k] == issue);
    }
}

proof fn lemma_reported_in_rows(track: TrackId, s: Seq<Span>, i: int, j: int, n: int)
    requires
        0 <= i < j < s.len(),
        i < n <= s.len(),
        s[j].start.nanos < s[i].end.nanos,
    ensures
        overlaps(track, s, n).contains(
            TimelineIssue::ClipOverlap { track, earlier: s[i].id, later: s[j].id },
        ),
    decreases n,
{
    let issue = TimelineIssue::ClipOverlap { track, earlier: s[i].id, later: s[j].id };
    let now = overlaps(track, s, n);
    let before = overlaps(track, s, n - 1);
    if i == n - 1 {
        lemma_reported(track, s, i, j, s.len() as int);
        let row = overlaps_with(track, s, i, s.len() as int);
        let k = choose|k: int| 0 <= k < row.len() && row[k] == issue;
        assert(now[before.len() + k] == issue);
    } else {
        lemma_reported_in_rows(track, s, i, j, n - 1);
        let k = choose|k: int| 0 <= k < before.len() && before[k] == issue;
        assert(now[k] == issue);
    }
}

/// No overlap goes unreported: any two clips of a track whose known times intersect are named
/// together in an issue.
pub proof fn overlapping_clips_are_reported(t: TrackState, x: Span, y: Span)
    requires
        spans(t.clips).contains(x),
        spans(t.clips).contains(y),
        x.place != y.place,
        x.start.nanos < y.end.nanos,
        y.start.nanos < x.end.nanos,
    ensures
        track_issues(t).contains(
            TimelineIssue::ClipOverlap { track: t.id, earlier: x.id, later: y.id },
        ) || track_issues(t).contains(
            TimelineIssue::ClipOverlap { track: t.id, earlier: y.id, later: x.id },
        ),
{
    let s = by_start(spans(t.clips));
    by_start_is_ordered(spans(t.clips));
    assert(s.contains(x) && s.contains(y));
    let i = choose|i: int| 0 <= i < s.len() && s[i] == x;
    let j = choose|j: int| 0 <= j < s.len() && s[j] == y;
    let rows = overlaps(t.id, s, s.len() as int);
    let lead = clip_issues(t.clips) + transition_issues(t);
    let (a, b) = if i < j {
        (i, j)
    } else {
        (j, i)
    };
    lemma_reported_in_rows(t.id, s, a, b, s.len() as int);
    let issue = TimelineIssue::ClipOverlap { track: t.id, earlier: s[a].id, later: s[b].id };
    let k = choose|k: int| 0 <= k < rows.len() && rows[k] == issue;
    assert(track_issues(t)[lead.len() + k] == issue);
}

/// Whether `x` goes before `y`: it starts earlier, or as early and stands earlier on the track.
pub open spec fn goes_before(x: Span, y: Span) -> bool {
    x.start.nanos < y.start.nanos || (x.start.nanos == y.start.nanos && x.place < y.place)
}

/// Whether the spans are in order, without a repeat.
pub open spec fn in_order(s: Seq<Span>) -> bool {
    forall|i: int, j: int|
        #![trigger s[i], s[j]]
        0 <= i < j < s.len() ==> goes_before(s[i], s[j])
}

/// Whether `x` and `y` are clips of the track that overlap, `x` being the earlier one.
pub open spec fn overlap(t: TrackState, x: Span, y: Span) -> bool {
    &&& spans(t.clips).contains(x)
    &&& spans(t.clips).contains(y)
    &&& goes_before(x, y)
    &&& y.start.nanos < x.end.nanos
}

/// The issue that names `x` and `y`.
pub open spec fn overlap_issue(t: TrackState, x: Span, y: Span) -> TimelineIssue {
    TimelineIssue::ClipOverlap { track: t.id, earlier: x.id, later: y.id }
}

/// Whether two issues name the same two clips of a track as overlapping, in either order.
pub open spec fn same_overlap(a: TimelineIssue, b: TimelineIssue) -> bool {
    match (a, b) {
        (
            TimelineIssue::ClipOverlap { track: t, earlier: w, later: x },
            TimelineIssue::ClipOverlap { track: u, earlier: y, later: z },
        ) => t == u && ((w == y && x == z) || (w == z && x == y)),
        _ => false,
    }
}

proof fn lemma_span_places(clips: Seq<Clip>)
    requires
        clips.len() <= usize::MAX,
    ensures
        forall|k: int|
            #![trigger spans(clips)[k]]
            0 <= k < spans(clips).len() ==> spans(clips)[k].place < clips.len() && spans(
                clips,
            )[k].id == clips[spans(clips)[k].place as int].id,
        forall|i: int, j: int|
            #![trigger spans(clips)[i], spans(clips)[j]]
            0 <= i < j < spans(clips).len() ==> spans(clips)[i].place < spans(clips)[j].place,
    decreases clips.len(),
{
    if clips.len() > 0 {
        let rest = clips.drop_last();
        lemma_span_places(rest);
        assert forall|k: int|
            #![trigger spans(clips)[k]]
            0 <= k < spans(clips).len() implies spans(clips)[k].place < clips.len() && spans(
            clips,
        )[k].id == clips[spans(clips)[k].place as int].id by {
            if k < spans(rest).len() {
                assert(spans(clips)[k] == spans(rest)[k]);
            }
        }
        assert forall|i: int, j: int|
            #![trigger spans(clips)[i], spans(clips)[j]]
            0 <= i < j < spans(clips).len() implies spans(clips)[i].place
            < spans(clips)[j].place by {
            assert(spans(clips)[i] == spans(rest)[i]);
            if j < spans(rest).len() {
                assert(spans(clips)[j] == spans(rest)[j]);
            }
        }
    }
}

proof fn lemma_placed_in_order(sorted: Seq<Span>, x: Span)
    requires
        in_order(sorted),
        forall|i: int| #![trigger sorted[i]] 0 <= i < sorted.len() ==> sorted[i].place < x.place,
    ensures
        in_order(placed(sorted, x)),
    decreases sorted.len(),
{
    let p = placed(sorted, x);
    if sorted.len() == 0 || sorted.last().start.nanos <= x.start.nanos {
        assert forall|i: int, j: int|
            #![trigger p[i], p[j]]
            0 <= i < j < p.len() implies goes_before(p[i], p[j]) by {
            if j == sorted.len() {
                assert(i < sorted.len() - 1 ==> goes_before(sorted[i], sorted[sorted.len() - 1]));
            }
        }
    } else {
        let shorter = sorted.drop_last();
        lemma_placed_in_order(shorter, x);
        lemma_placed_members(shorter, x);
        let q = placed(shorter, x);
        assert forall|i: int, j: int|
            #![trigger p[i], p[j]]
            0 <= i < j < p.len() implies goes_before(p[i], p[j]) by {
            if j == q.len() {
                if q[i] != x {
                    let k = choose|k: int| 0 <= k < shorter.len() && shorter[k] == q[i];
                    assert(goes_before(sorted[k], sorted[sorted.len() - 1]));
                }
            } else {
                assert(goes_before(q[i], q[j]));
            }
        }
    }
}

proof fn lemma_placed_members(sorted: Seq<Span>, x: Span)
    ensures
        forall|i: int|
            #![trigger placed(sorted, x)[i]]
            0 <= i < placed(sorted, x).len() ==> placed(sorted, x)[i] == x || sorted.contains(
                placed(sorted, x)[i],
            ),
    decreases sorted.len(),
{
    let p = placed(sorted, x);
    if sorted.len() == 0 || sorted.last().start.nanos <= x.start.nanos {
        assert forall|i: int| #![trigger p[i]] 0 <= i < p.len() implies p[i] == x
            || sorted.contains(p[i]) by {
            if i < sorted.len() {
                assert(p[i] == sorted[i]);
            }
        }
    } else {
        let shorter = sorted.drop_last();
        let q = placed(shorter, x);
        lemma_placed_members(shorter, x);
        assert forall|i: int| #![trigger p[i]] 0 <= i < p.len() implies p[i] == x
            || sorted.contains(p[i]) by {
            if i < q.len() {
                assert(p[i] == q[i]);
                if q[i] != x {
                    let k = choose|k: int| 0 <= k < shorter.len() && shorter[k] == q[i];
                    assert(sorted[k] == p[i]);
                }
            } else {
                assert(p[i] == sorted[sorted.len() - 1]);
            }
        }
    }
}

/// Spans whose places ascend come out in order, without a repeat.
proof fn lemma_by_start_in_order(s: Seq<Span>)
    requires
        forall|i: int, j: int|
            #![trigger s[i], s[j]]
            0 <= i < j < s.len() ==> s[i].place < s[j].place,
    ensures
        in_order(by_start(s)),
    decreases s.len(),
{
    if s.len() > 0 {
        let rest = s.drop_last();
        lemma_by_start_in_order(rest);
        by_start_is_ordered(rest);
        let sorted = by_start(rest);
        assert forall|i: int| #![trigger sorted[i]] 0 <= i < sorted.len() implies sorted[i].place
            < s.last().place by {
            assert(sorted.contains(sorted[i]));
            let k = choose|k: int| 0 <= k < rest.len() && rest[k] == sorted[i];
            assert(s[k].place < s[s.len() - 1].place);
        }
        lemma_placed_in_order(sorted, s.last());
    }
}

/// What the overlaps of one span name.
proof fn lemma_row(track: TrackId, s: Seq<Span>, i: int, n: int, k: int)
    requires
        0 <= i < n <= s.len(),
        0 <= k < overlaps_with(track, s, i, n).len(),
    ensures
        exists|j: int|
            #![trigger s[j]]
            i < j < n && s[j].start.nanos < s[i].end.nanos && overlaps_with(track, s, i, n)[k]
                == (TimelineIssue::ClipOverlap { track, earlier: s[i].id, later: s[j].id }),
    decreases n,
{
    let now = overlaps_with(track, s, i, n);
    let before = overlaps_with(track, s, i, n - 1);
    if k < before.len() {
        lemma_row(track, s, i, n - 1, k);
        let j = choose|j: int|
            #![trigger s[j]]
            i < j < n - 1 && s[j].start.nanos < s[i].end.nanos && before[k] == (
            TimelineIssue::ClipOverlap { track, earlier: s[i].id, later: s[j].id });
        assert(now[k] == before[k]);
        assert(i < j < n && s[j].start.nanos < s[i].end.nanos);
    } else {
        assert(s[n - 1].start.nanos < s[i].end.nanos);
        assert(now[k] == (TimelineIssue::ClipOverlap {
            track,
            earlier: s[i].id,
            later: s[n - 1].id,
        }));
    }
}

/// What the rows of overlaps name.
proof fn lemma_rows(track: TrackId, s: Seq<Span>, n: int, k: int)
    requires
        0 <= n <= s.len(),
        0 <= k < overlaps(track, s, n).len(),
    ensures
        exists|i: int, j: int|
            #![trigger s[i], s[j]]
            0 <= i < n && i < j < s.len() && s[j].start.nanos < s[i].end.nanos && overlaps(
                track,
                s,
                n,
            )[k] == (TimelineIssue::ClipOverlap { track, earlier: s[i].id, later: s[j].id }),
    decreases n,
{
    let now = overlaps(track, s, n);
    let before = overlaps(track, s, n - 1);
    if k < before.len() {
        lemma_rows(track, s, n - 1, k);
        assert(now[k] == before[k]);
    } else {
        lemma_row(track, s, n - 1, s.len() as int, k - before.len());
        assert(now[k] == overlaps_with(track, s, n - 1, s.len() as int)[k - before.len()]);
        assert(s[n - 1] == s[n - 1]);
    }
}

/// Whether no two spans carry the same id.
spec fn ids_differ(s: Seq<Span>) -> bool {
    forall|i: int, j: int|
        #![trigger s[i], s[j]]
        0 <= i < s.len() && 0 <= j < s.len() && s[i].id == s[j].id ==> i == j
}

proof fn lemma_row_once(track: TrackId, s: Seq<Span>, i: int, n: int, p: int, q: int)
    requires
        ids_differ(s),
        0 <= i < n <= s.len(),
        0 <= p < q < overlaps_with(track, s, i, n).len(),
    ensures
        !same_overlap(overlaps_with(track, s, i, n)[p], overlaps_with(track, s, i, n)[q]),
    decreases n,
{
    let now = overlaps_with(track, s, i, n);
    let before = overlaps_with(track, s, i, n - 1);
    if q < before.len() {
        lemma_row_once(track, s, i, n - 1, p, q);
        assert(now[p] == before[p] && now[q] == before[q]);
    } else {
        lemma_row(track, s, i, n - 1, p);
        let j = choose|j: int|
            #![trigger s[j]]
            i < j < n - 1 && s[j].start.nanos < s[i].end.nanos && before[p] == (
            TimelineIssue::ClipOverlap { track, earlier: s[i].id, later: s[j].id });
        assert(now[p] == before[p]);
        assert(now[q]->ClipOverlap_later == s[n - 1].id);
        assert(s[j].id != s[n - 1].id);
        assert(s[i].id != s[n - 1].id);
    }
}

proof fn lemma_rows_once(track: TrackId, s: Seq<Span>, n: int, p: int, q: int)
    requires
        ids_differ(s),
        0 <= n <= s.len(),
        0 <= p < q < overlaps(track, s, n).len(),
    ensures
        !same_overlap(overlaps(track, s, n)[p], overlaps(track, s, n)[q]),
    decreases n,
{
    let now = overlaps(track, s, n);
    let before = overlaps(track, s, n - 1);
    let row = overlaps_with(track, s, n - 1, s.len() as int);
    if q < before.len() {
        lemma_rows_once(track, s, n - 1, p, q);
        assert(now[p] == before[p] && now[q] == before[q]);
    } else if p >= before.len() {
        lemma_row_once(
            track,
            s,
            n - 1,
            s.len() as int,
            p - before.len(),
            q - before.len(),
        );
        assert(now[p] == row[p - before.len()] && now[q] == row[q - before.len()]);
    } else {
        lemma_rows(track, s, n - 1, p);
        lemma_row(track, s, n - 1, s.len() as int, q - before.len());
        assert(now[p] == before[p] && now[q] == row[q - before.len()]);
        let (i, j) = choose|i: int, j: int|
            #![trigger s[i], s[j]]
            0 <= i < n - 1 && i < j < s.len() && s[j].start.nanos < s[i].end.nanos && before[p]
                == (TimelineIssue::ClipOverlap { track, earlier: s[i].id, later: s[j].id });
        let k = choose|k: int|
            #![trigger s[k]]
            n - 1 < k < s.len() && s[k].start.nanos < s[n - 1].end.nanos && row[q - before.len()]
                == (TimelineIssue::ClipOverlap { track, earlier: s[n - 1].id, later: s[k].id });
        assert(s[i].id != s[n - 1].id);
        assert(s[i].id != s[k].id);
    }
}

proof fn lemma_clip_issues_are_not_overlaps(clips: Seq<Clip>)
    ensures
        forall|k: int|
            #![trigger clip_issues(clips)[k]]
            0 <= k < clip_issues(clips).len() ==> clip_issues(clips)[k] !is ClipOverlap,
    decreases clips.len(),
{
    if clips.len() > 0 {
        let rest = clip_issues(clips.drop_last());
        let trim = trim_issues(clips.last());
        lemma_clip_issues_are_not_overlaps(clips.drop_last());
        assert forall|k: int|
            #![trigger clip_issues(clips)[k]]
            0 <= k < clip_issues(clips).len() implies clip_issues(clips)[k] !is ClipOverlap by {
            if k < rest.len() {
                assert(clip_issues(clips)[k] == rest[k]);
            } else if k < rest.len() + trim.len() {
                assert(clip_issues(clips)[k] == trim[k - rest.len()]);
            } else {
                assert(clip_issues(clips)[k] == end_issues(clips.last())[k - rest.len()
                    - trim.len()]);
            }
        }
    }
}

/// Where a track's overlaps stand among its problems.
proof fn lemma_overlap_at(t: TrackState, k: int)
    requires
        0 <= k < track_issues(t).len(),
        track_issues(t)[k] is ClipOverlap,
    ensures
        ({
            let s = by_start(spans(t.clips));
            let lead = clip_issues(t.clips).len() + transition_issues(t).len();
            &&& k >= lead
            &&& track_issues(t)[k] == overlaps(t.id, s, s.len() as int)[k - lead]
        }),
{
    lemma_clip_issues_are_not_overlaps(t.clips);
    let c = clip_issues(t.clips);
    if k < c.len() {
        assert(track_issues(t)[k] == c[k]);
    } else if k < c.len() + transition_issues(t).len() {
        assert(track_issues(t)[k] == transition_issues(t)[k - c.len()]);
    }
}

/// A track's problems name two clips as overlapping exactly where they do: the later one starts
/// before the earlier one ends. The one that starts earlier is named first.
pub proof fn overlap_issues_are_overlaps(t: TrackState, issue: TimelineIssue)
    requires
        t.clips.len() <= usize::MAX,
        issue is ClipOverlap,
    ensures
        track_issues(t).contains(issue) <==> exists|x: Span, y: Span| #[trigger]
            overlap(t, x, y) && issue == overlap_issue(t, x, y),
{
    let all = track_issues(t);
    let s = by_start(spans(t.clips));
    let rows = overlaps(t.id, s, s.len() as int);
    let lead = (clip_issues(t.clips) + transition_issues(t)).len();
    lemma_span_places(t.clips);
    lemma_by_start_in_order(spans(t.clips));
    by_start_is_ordered(spans(t.clips));
    if all.contains(issue) {
        let k = choose|k: int| 0 <= k < all.len() && all[k] == issue;
        lemma_overlap_at(t, k);
        lemma_rows(t.id, s, s.len() as int, k - lead);
        let (i, j) = choose|i: int, j: int|
            #![trigger s[i], s[j]]
            0 <= i < s.len() && i < j < s.len() && s[j].start.nanos < s[i].end.nanos && rows[k
                - lead] == (TimelineIssue::ClipOverlap {
                track: t.id,
                earlier: s[i].id,
                later: s[j].id,
            });
        assert(s.contains(s[i]) && s.contains(s[j]));
        assert(overlap(t, s[i], s[j]));
    }
    if exists|x: Span, y: Span| #[trigger]
        overlap(t, x, y) && issue == overlap_issue(t, x, y) {
        let (x, y) = choose|x: Span, y: Span| #[trigger]
            overlap(t, x, y) && issue == overlap_issue(t, x, y);
        assert(s.contains(x) && s.contains(y));
        let i = choose|i: int| 0 <= i < s.len() && s[i] == x;
        let j = choose|j: int| 0 <= j < s.len() && s[j] == y;
        if j < i {
            assert(goes_before(s[j], s[i]));
        }
        lemma_reported_in_rows(t.id, s, i, j, s.len() as int);
        let k = choose|k: int| 0 <= k < rows.len() && rows[k] == issue;
        assert(all[lead + k] == issue);
    }
}

/// No two problems of a track name the same two clips as overlapping.
pub proof fn overlaps_are_reported_once(t: TrackState, p: int, q: int)
    requires
        t.clips.len() <= usize::MAX,
        laws::distinct(t.clips),
        0 <= p < q < track_issues(t).len(),
    ensures
        !same_overlap(track_issues(t)[p], track_issues(t)[q]),
{
    let all = track_issues(t);
    if all[p] is ClipOverlap && all[q] is ClipOverlap {
        let of = spans(t.clips);
        let s = by_start(of);
        let lead = (clip_issues(t.clips) + transition_issues(t)).len();
        lemma_overlap_at(t, p);
        lemma_overlap_at(t, q);
        lemma_span_places(t.clips);
        lemma_by_start_in_order(of);
        by_start_is_ordered(of);
        assert forall|i: int, j: int|
            #![trigger s[i], s[j]]
            0 <= i < s.len() && 0 <= j < s.len() && s[i].id == s[j].id implies i == j by {
            assert(s.contains(s[i]) && s.contains(s[j]));
            let k = choose|k: int| 0 <= k < of.len() && of[k] == s[i];
            let l = choose|l: int| 0 <= l < of.len() && of[l] == s[j];
            assert(t.clips[of[k].place as int].id == t.clips[of[l].place as int].id);
            assert(s[i].place == s[j].place);
            if k < l {
                assert(of[k].place < of[l].place);
            } else if l < k {
                assert(of[l].place < of[k].place);
            }
            if i < j {
                assert(goes_before(s[i], s[j]));
            } else if j < i {
                assert(goes_before(s[j], s[i]));
            }
        }
        lemma_rows_once(t.id, s, s.len() as int, p - lead, q - lead);
    }
}

proof fn lemma_list_joined(a: Seq<TrackState>, b: Seq<TrackState>)
    ensures
        list_issues(a + b) == list_issues(a) + list_issues(b),
    decreases b.len(),
{
    if b.len() == 0 {
        assert(a + b =~= a);
        assert(list_issues(a) + list_issues(b) =~= list_issues(a));
    } else {
        lemma_list_joined(a, b.drop_last());
        assert((a + b).drop_last() =~= a + b.drop_last());
        assert(list_issues(a + b) =~= list_issues(a) + list_issues(b));
    }
}

/// Which track a problem comes from.
proof fn lemma_list_at(tracks: Seq<TrackState>, k: int)
    requires
        0 <= k < list_issues(tracks).len(),
    ensures
        exists|a: int|
            0 <= a < tracks.len() && #[trigger] track_issues(tracks[a]).contains(
                list_issues(tracks)[k],
            ),
    decreases tracks.len(),
{
    let rest = tracks.drop_last();
    let before = list_issues(rest);
    if k < before.len() {
        lemma_list_at(rest, k);
        let a = choose|a: int|
            0 <= a < rest.len() && #[trigger] track_issues(rest[a]).contains(before[k]);
        assert(tracks[a] == rest[a]);
        assert(list_issues(tracks)[k] == before[k]);
    } else {
        let own = track_issues(tracks[tracks.len() - 1]);
        assert(list_issues(tracks)[k] == own[k - before.len()]);
        assert(own.contains(list_issues(tracks)[k]));
    }
}

proof fn lemma_list_holds(tracks: Seq<TrackState>, a: int, issue: TimelineIssue)
    requires
        0 <= a < tracks.len(),
        track_issues(tracks[a]).contains(issue),
    ensures
        list_issues(tracks).contains(issue),
    decreases tracks.len(),
{
    let rest = tracks.drop_last();
    let before = list_issues(rest);
    if a < rest.len() {
        lemma_list_holds(rest, a, issue);
        let k = choose|k: int| 0 <= k < before.len() && before[k] == issue;
        assert(list_issues(tracks)[k] == issue);
    } else {
        let own = track_issues(tracks[a]);
        let k = choose|k: int| 0 <= k < own.len() && own[k] == issue;
        assert(list_issues(tracks)[before.len() + k] == issue);
    }
}

/// The problems of a document are those of its tracks, and no others.
pub proof fn document_issues_are_its_tracks(d: Document, issue: TimelineIssue)
    ensures
        issues(d).contains(issue) <==> exists|a: int|
            0 <= a < timeline::all_tracks(d).len() && #[trigger] track_issues(
                timeline::all_tracks(d)[a],
            ).contains(issue),
{
    let all = timeline::all_tracks(d);
    lemma_list_joined(d.video, d.audio);
    if issues(d).contains(issue) {
        let k = choose|k: int| 0 <= k < issues(d).len() && issues(d)[k] == issue;
        lemma_list_at(all, k);
    }
    if exists|a: int| 0 <= a < all.len() && #[trigger] track_issues(all[a]).contains(issue) {
        let a = choose|a: int|
            0 <= a < all.len() && #[trigger] track_issues(all[a]).contains(issue);
        lemma_list_holds(all, a, issue);
    }
}

proof fn lemma_list_once(tracks: Seq<TrackState>, p: int, q: int)
    requires
        forall|a: int|
            #![trigger tracks[a]]
            0 <= a < tracks.len() ==> tracks[a].clips.len() <= usize::MAX && laws::distinct(
                tracks[a].clips,
            ),
        forall|a: int, b: int|
            #![trigger tracks[a], tracks[b]]
            0 <= a < b < tracks.len() ==> tracks[a].id != tracks[b].id,
        0 <= p < q < list_issues(tracks).len(),
    ensures
        !same_overlap(list_issues(tracks)[p], list_issues(tracks)[q]),
    decreases tracks.len(),
{
    let all = list_issues(tracks);
    let rest = tracks.drop_last();
    let before = list_issues(rest);
    let t = tracks[tracks.len() - 1];
    let own = track_issues(t);
    if q < before.len() {
        assert forall|a: int| #![trigger rest[a]] 0 <= a < rest.len() implies rest[a].clips.len()
            <= usize::MAX && laws::distinct(rest[a].clips) by {
            assert(rest[a] == tracks[a]);
        }
        assert forall|a: int, b: int|
            #![trigger rest[a], rest[b]]
            0 <= a < b < rest.len() implies rest[a].id != rest[b].id by {
            assert(rest[a] == tracks[a] && rest[b] == tracks[b]);
        }
        lemma_list_once(rest, p, q);
        assert(all[p] == before[p] && all[q] == before[q]);
    } else if p >= before.len() {
        overlaps_are_reported_once(t, p - before.len(), q - before.len());
        assert(all[p] == own[p - before.len()] && all[q] == own[q - before.len()]);
    } else {
        assert(all[p] == before[p] && all[q] == own[q - before.len()]);
        lemma_list_at(rest, p);
        let a = choose|a: int|
            0 <= a < rest.len() && #[trigger] track_issues(rest[a]).contains(before[p]);
        assert(rest[a] == tracks[a]);
        if before[p] is ClipOverlap && all[q] is ClipOverlap {
            overlap_issues_are_overlaps(tracks[a], before[p]);
            assert(own.contains(all[q]));
            overlap_issues_are_overlaps(t, all[q]);
            assert(tracks[a].id != t.id);
        }
    }
}

/// No two problems of a document name the same two clips as overlapping.
pub proof fn document_overlaps_are_reported_once(d: Document, p: int, q: int)
    requires
        timeline::well_numbered(d),
        forall|a: int|
            0 <= a < timeline::all_tracks(d).len() ==> (#[trigger] timeline::all_tracks(
                d,
            )[a]).clips.len() <= usize::MAX,
        0 <= p < q < issues(d).len(),
    ensures
        !same_overlap(issues(d)[p], issues(d)[q]),
{
    let all = timeline::all_tracks(d);
    lemma_list_joined(d.video, d.audio);
    assert forall|a: int| #![trigger all[a]] 0 <= a < all.len() implies all[a].clips.len()
        <= usize::MAX && laws::distinct(all[a].clips) by {
        assert forall|i: int, j: int|
            #![trigger all[a].clips[i], all[a].clips[j]]
            0 <= i < all[a].clips.len() && 0 <= j < all[a].clips.len() && all[a].clips[i].id
                == all[a].clips[j].id implies i == j by {}
    }
    lemma_list_once(all, p, q);
}

// Sources without an end.

/// The generated clips that have no end, in order.
pub open spec fn unbounded_clips(clips: Seq<Clip>) -> Seq<ClipId>
    decreases clips.len(),
{
    if clips.len() == 0 {
        Seq::empty()
    } else {
        let before = unbounded_clips(clips.drop_last());
        if clip::file_of(clips.last()) is None && clips.last().out_point is None {
            before.push(clips.last().id)
        } else {
            before
        }
    }
}

/// The generated clips of a list of tracks that have no end, in order.
pub open spec fn unbounded_list(tracks: Seq<TrackState>) -> Seq<ClipId>
    decreases tracks.len(),
{
    if tracks.len() == 0 {
        Seq::empty()
    } else {
        unbounded_list(tracks.drop_last()) + unbounded_clips(tracks.last().clips)
    }
}

/// The generated clips of a document that have no end, video tracks first.
pub open spec fn unbounded(d: Document) -> Seq<ClipId> {
    unbounded_list(d.video) + unbounded_list(d.audio)
}

fn push_unbounded(found: &mut Vec<ClipId>, clips: &Vec<Clip>)
    ensures
        final(found)@ == old(found)@ + unbounded_clips(clips@),
{
    let ghost lead = found@;
    let mut i: usize = 0;
    while i < clips.len()
        invariant
            i <= clips@.len(),
            found@ =~= lead + unbounded_clips(clips@.take(i as int)),
        decreases clips@.len() - i,
    {
        proof {
            let part = clips@.take(i + 1);
            assert(part.drop_last() =~= clips@.take(i as int));
            assert(part.last() == clips@[i as int]);
        }
        if clips[i].source_path().is_none() && clips[i].out_point.is_none() {
            found.push(clips[i].id);
        }
        i = i + 1;
    }
    assert(clips@.take(i as int) =~= clips@);
}

fn push_unbounded_list(found: &mut Vec<ClipId>, tracks: &Vec<Track>)
    ensures
        final(found)@ == old(found)@ + unbounded_list(track::states(tracks@)),
{
    let ghost lead = found@;
    let ghost all = track::states(tracks@);
    let mut k: usize = 0;
    while k < tracks.len()
        invariant
            k <= tracks@.len(),
            all == track::states(tracks@),
            found@ =~= lead + unbounded_list(all.take(k as int)),
        decreases tracks@.len() - k,
    {
        proof {
            let part = all.take(k + 1);
            assert(part.drop_last() =~= all.take(k as int));
            assert(part.last() == tracks@[k as int]@);
        }
        push_unbounded(found, &tracks[k].clips);
        k = k + 1;
    }
    assert(all.take(k as int) =~= all);
}

impl Timeline {
    /// Why the timeline cannot be rendered for want of an end: the first generated clip without
    /// an out-point, or `None` where every generated clip has one.
    #[must_use]
    pub fn unbounded_source(&self) -> (r: Option<TimelineError>)
        ensures
            r == (if unbounded(self@).len() == 0 {
                None
            } else {
                Some(TimelineError::GeneratedSourceNeedsDuration { clip: unbounded(self@)[0] })
            }),
    {
        let mut found: Vec<ClipId> = Vec::new();
        push_unbounded_list(&mut found, &self.video_tracks);
        push_unbounded_list(&mut found, &self.audio_tracks);
        assert(found@ =~= unbounded(self@));
        if found.len() == 0 {
            None
        } else {
            Some(TimelineError::GeneratedSourceNeedsDuration { clip: found[0] })
        }
    }
}

proof fn lemma_unbounded_clips(clips: Seq<Clip>, id: ClipId)
    ensures
        clip_issues(clips).contains(TimelineIssue::GeneratedClipWithoutOutPoint { clip: id })
            <==> unbounded_clips(clips).contains(id),
    decreases clips.len(),
{
    let issue = TimelineIssue::GeneratedClipWithoutOutPoint { clip: id };
    if clips.len() > 0 {
        let rest = clips.drop_last();
        let (before, trim, end) = (
            clip_issues(rest),
            trim_issues(clips.last()),
            end_issues(clips.last()),
        );
        let now = clip_issues(clips);
        let (ids, more) = (unbounded_clips(rest), unbounded_clips(clips));
        lemma_unbounded_clips(rest, id);
        if now.contains(issue) {
            let k = choose|k: int| 0 <= k < now.len() && now[k] == issue;
            if k < before.len() {
                assert(before[k] == issue);
                let j = choose|j: int| 0 <= j < ids.len() && ids[j] == id;
                assert(more[j] == id);
            } else if k < before.len() + trim.len() {
                assert(trim[k - before.len()] == issue);
            } else {
                assert(end[k - before.len() - trim.len()] == issue);
                assert(more[more.len() - 1] == id);
            }
        }
        if more.contains(id) {
            let j = choose|j: int| 0 <= j < more.len() && more[j] == id;
            if j < ids.len() {
                assert(ids[j] == id);
                let k = choose|k: int| 0 <= k < before.len() && before[k] == issue;
                assert(now[k] == issue);
            } else {
                assert(end[0] == issue);
                assert(now[(before.len() + trim.len()) as int] == issue);
            }
        }
    }
}

proof fn lemma_unbounded_track(t: TrackState, id: ClipId)
    ensures
        track_issues(t).contains(TimelineIssue::GeneratedClipWithoutOutPoint { clip: id })
            <==> unbounded_clips(t.clips).contains(id),
{
    let issue = TimelineIssue::GeneratedClipWithoutOutPoint { clip: id };
    let all = track_issues(t);
    let own = clip_issues(t.clips);
    let s = by_start(spans(t.clips));
    let lead = (own + transition_issues(t)).len();
    lemma_unbounded_clips(t.clips, id);
    if all.contains(issue) {
        let k = choose|k: int| 0 <= k < all.len() && all[k] == issue;
        if k < own.len() {
            assert(own[k] == issue);
        } else if k < lead {
            assert(all[k] == transition_issues(t)[k - own.len()]);
        } else {
            assert(all[k] == overlaps(t.id, s, s.len() as int)[k - lead]);
            lemma_rows(t.id, s, s.len() as int, k - lead);
        }
    }
    if own.contains(issue) {
        let k = choose|k: int| 0 <= k < own.len() && own[k] == issue;
        assert(all[k] == issue);
    }
}

proof fn lemma_unbounded_list(tracks: Seq<TrackState>, id: ClipId)
    ensures
        unbounded_list(tracks).contains(id) <==> exists|a: int|
            0 <= a < tracks.len() && #[trigger] unbounded_clips(tracks[a].clips).contains(id),
    decreases tracks.len(),
{
    if tracks.len() > 0 {
        let rest = tracks.drop_last();
        let (before, own) = (unbounded_list(rest), unbounded_clips(tracks.last().clips));
        let now = unbounded_list(tracks);
        lemma_unbounded_list(rest, id);
        if now.contains(id) {
            let k = choose|k: int| 0 <= k < now.len() && now[k] == id;
            if k < before.len() {
                assert(before[k] == id);
                let a = choose|a: int|
                    0 <= a < rest.len() && #[trigger] unbounded_clips(rest[a].clips).contains(id);
                assert(tracks[a] == rest[a]);
            } else {
                assert(own[k - before.len()] == id);
                assert(unbounded_clips(tracks[tracks.len() - 1].clips).contains(id));
            }
        }
        if exists|a: int|
            0 <= a < tracks.len() && #[trigger] unbounded_clips(tracks[a].clips).contains(id) {
            let a = choose|a: int|
                0 <= a < tracks.len() && #[trigger] unbounded_clips(tracks[a].clips).contains(id);
            if a < rest.len() {
                assert(rest[a] == tracks[a]);
                assert(unbounded_clips(rest[a].clips).contains(id));
                let k = choose|k: int| 0 <= k < before.len() && before[k] == id;
                assert(now[k] == id);
            } else {
                let k = choose|k: int| 0 <= k < own.len() && own[k] == id;
                assert(now[before.len() + k] == id);
            }
        }
    }
}

/// What validation reports of generated clips is what keeps a timeline from being rendered: the
/// clips reported as having no end are the ones that have none.
pub proof fn unbounded_clips_are_reported(d: Document, id: ClipId)
    ensures
        issues(d).contains(TimelineIssue::GeneratedClipWithoutOutPoint { clip: id })
            <==> unbounded(d).contains(id),
{
    let issue = TimelineIssue::GeneratedClipWithoutOutPoint { clip: id };
    let all = timeline::all_tracks(d);
    let (v, w) = (unbounded_list(d.video), unbounded_list(d.audio));
    let n = d.video.len() as int;
    document_issues_are_its_tracks(d, issue);
    lemma_unbounded_list(d.video, id);
    lemma_unbounded_list(d.audio, id);
    if issues(d).contains(issue) {
        let a = choose|a: int|
            0 <= a < all.len() && #[trigger] track_issues(all[a]).contains(issue);
        lemma_unbounded_track(all[a], id);
        if a < n {
            assert(all[a] == d.video[a]);
            assert(unbounded_clips(d.video[a].clips).contains(id));
            let k = choose|k: int| 0 <= k < v.len() && v[k] == id;
            assert(unbounded(d)[k] == id);
        } else {
            assert(all[a] == d.audio[a - n]);
            assert(unbounded_clips(d.audio[a - n].clips).contains(id));
            let k = choose|k: int| 0 <= k < w.len() && w[k] == id;
            assert(unbounded(d)[v.len() + k] == id);
        }
    }
    if unbounded(d).contains(id) {
        let k = choose|k: int| 0 <= k < unbounded(d).len() && unbounded(d)[k] == id;
        if k < v.len() {
            assert(v[k] == id);
            let a = choose|a: int|
                0 <= a < d.video.len() && #[trigger] unbounded_clips(d.video[a].clips).contains(id);
            assert(all[a] == d.video[a]);
            lemma_unbounded_track(all[a], id);
            assert(track_issues(all[a]).contains(issue));
        } else {
            assert(w[k - v.len()] == id);
            let a = choose|a: int|
                0 <= a < d.audio.len() && #[trigger] unbounded_clips(d.audio[a].clips).contains(id);
            assert(all[n + a] == d.audio[a]);
            lemma_unbounded_track(all[n + a], id);
            assert(track_issues(all[n + a]).contains(issue));
        }
    }
}

/// Whether a clip has by itself the problem that `issue` names: its trim ends before it starts,
/// or where it starts, or it is generated and has no end.
pub open spec fn suffers(c: Clip, issue: TimelineIssue) -> bool {
    match issue {
        TimelineIssue::TrimOutBeforeIn { clip } => c.id == clip && c.in_point is Some
            && c.out_point is Some && c.out_point->0.nanos < c.in_point->0.nanos,
        TimelineIssue::EmptyFootprint { clip } => c.id == clip && c.in_point is Some
            && c.out_point is Some && c.out_point->0.nanos == c.in_point->0.nanos,
        TimelineIssue::GeneratedClipWithoutOutPoint { clip } => c.id == clip && c.out_point is None
            && c.source !is File,
        _ => false,
    }
}

proof fn lemma_suffering(clips: Seq<Clip>, issue: TimelineIssue)
    ensures
        clip_issues(clips).contains(issue) <==> exists|i: int|
            0 <= i < clips.len() && suffers(#[trigger] clips[i], issue),
    decreases clips.len(),
{
    if clips.len() > 0 {
        let rest = clips.drop_last();
        let last = clips.len() - 1;
        let c = clips[last];
        let (before, own) = (clip_issues(rest), trim_issues(c) + end_issues(c));
        let now = clip_issues(clips);
        lemma_suffering(rest, issue);
        assert(now =~= before + own);
        assert(own.contains(issue) <==> suffers(c, issue)) by {
            let (x, y) = (trim_issues(c), end_issues(c));
            if own.contains(issue) {
                let k = own.index_of(issue);
                assert(own[k] == issue);
            }
            if suffers(c, issue) {
                assert(own.len() == 1 && own[0] == issue);
            }
        }
        if now.contains(issue) {
            let k = now.index_of(issue);
            if k < before.len() {
                assert(before[k] == issue);
                let i = choose|i: int| 0 <= i < rest.len() && suffers(#[trigger] rest[i], issue);
                assert(suffers(clips[i], issue));
            } else {
                assert(own[k - before.len()] == issue);
                assert(suffers(clips[last], issue));
            }
        }
        if exists|i: int| 0 <= i < clips.len() && suffers(#[trigger] clips[i], issue) {
            let i = choose|i: int| 0 <= i < clips.len() && suffers(#[trigger] clips[i], issue);
            if i < last {
                assert(suffers(rest[i], issue));
                let k = before.index_of(issue);
                assert(now[k] == issue);
            } else {
                let k = own.index_of(issue);
                assert(now[before.len() + k] == issue);
            }
        }
    }
}

/// A track's problems name a clip by itself exactly where it has the problem, and a transition as
/// leading from nothing exactly where the track's first clip has one.
pub proof fn clip_problems_are_reported(t: TrackState, issue: TimelineIssue)
    requires
        issue !is ClipOverlap,
    ensures
        track_issues(t).contains(issue) <==> {
            ||| exists|i: int| 0 <= i < t.clips.len() && suffers(#[trigger] t.clips[i], issue)
            ||| issue matches TimelineIssue::DanglingTransition { track, clip } && track == t.id
                && t.clips.len() > 0 && clip == t.clips[0].id && t.clips[0].transition is Some
        },
{
    let all = track_issues(t);
    let (own, first) = (clip_issues(t.clips), transition_issues(t));
    let s = by_start(spans(t.clips));
    let lead = (own + first).len();
    lemma_suffering(t.clips, issue);
    if all.contains(issue) {
        let k = all.index_of(issue);
        if k < own.len() {
            assert(own[k] == issue);
        } else if k < lead {
            assert(all[k] == first[k - own.len()]);
        } else {
            assert(all[k] == overlaps(t.id, s, s.len() as int)[k - lead]);
            lemma_rows(t.id, s, s.len() as int, k - lead);
        }
    }
    if own.contains(issue) {
        let k = own.index_of(issue);
        assert(all[k] == issue);
    }
    if issue is DanglingTransition && first.len() == 1 && first[0] == issue {
        assert(all[own.len() as int] == issue);
    }
}

proof fn lemma_spans_are_clips(clips: Seq<Clip>, x: Span)
    requires
        clips.len() <= usize::MAX,
    ensures
        spans(clips).contains(x) <==> x.place < clips.len() && edit::footprint(
            clips[x.place as int],
        ) is Some && x == span_of(
            clips[x.place as int],
            x.place as int,
            edit::footprint(clips[x.place as int])->0,
        ),
    decreases clips.len(),
{
    if clips.len() > 0 {
        let rest = clips.drop_last();
        let last = clips.len() - 1;
        let (before, now) = (spans(rest), spans(clips));
        lemma_spans_are_clips(rest, x);
        if now.contains(x) {
            let k = now.index_of(x);
            if k < before.len() {
                assert(before[k] == x);
            }
        }
        if before.contains(x) {
            let k = before.index_of(x);
            assert(now[k] == x);
        }
        if x.place == last && edit::footprint(clips[last]) is Some && x == span_of(
            clips[last],
            last,
            edit::footprint(clips[last])->0,
        ) {
            assert(now[now.len() - 1] == x);
        }
    }
}

/// Two clips of known length are named as overlapping where each starts before the other ends,
/// each running from its offset for its length.
pub proof fn clips_that_meet_are_reported(t: TrackState, i: int, j: int)
    requires
        t.clips.len() <= usize::MAX,
        0 <= i < t.clips.len() && 0 <= j < t.clips.len() && i != j,
        edit::footprint(t.clips[i]) is Some && edit::footprint(t.clips[j]) is Some,
        t.clips[i].offset.nanos < t.clips[j].offset.nanos + edit::footprint(t.clips[j])->0.nanos,
        t.clips[j].offset.nanos < t.clips[i].offset.nanos + edit::footprint(t.clips[i])->0.nanos,
        t.clips[i].offset.nanos < time::MAX_NANOS && t.clips[j].offset.nanos < time::MAX_NANOS,
    ensures
        track_issues(t).contains(
            TimelineIssue::ClipOverlap {
                track: t.id,
                earlier: t.clips[i].id,
                later: t.clips[j].id,
            },
        ) || track_issues(t).contains(
            TimelineIssue::ClipOverlap {
                track: t.id,
                earlier: t.clips[j].id,
                later: t.clips[i].id,
            },
        ),
{
    let x = span_of(t.clips[i], i, edit::footprint(t.clips[i])->0);
    let y = span_of(t.clips[j], j, edit::footprint(t.clips[j])->0);
    lemma_spans_are_clips(t.clips, x);
    lemma_spans_are_clips(t.clips, y);
    overlapping_clips_are_reported(t, x, y);
}

/// Two clips that are named as overlapping do: the later one starts no earlier than the other,
/// and before the other's length has run.
pub proof fn reported_clips_meet(t: TrackState, earlier: ClipId, later: ClipId)
    requires
        t.clips.len() <= usize::MAX,
        track_issues(t).contains(TimelineIssue::ClipOverlap { track: t.id, earlier, later }),
    ensures
        exists|i: int, j: int|
            #![trigger t.clips[i], t.clips[j]]
            {
                &&& 0 <= i < t.clips.len() && 0 <= j < t.clips.len() && i != j
                &&& t.clips[i].id == earlier && t.clips[j].id == later
                &&& edit::footprint(t.clips[i]) is Some && edit::footprint(t.clips[j]) is Some
                &&& t.clips[i].offset.nanos <= t.clips[j].offset.nanos
                &&& t.clips[j].offset.nanos < t.clips[i].offset.nanos + edit::footprint(
                    t.clips[i],
                )->0.nanos
            },
{
    let issue = TimelineIssue::ClipOverlap { track: t.id, earlier, later };
    overlap_issues_are_overlaps(t, issue);
    let (x, y) = choose|x: Span, y: Span| #[trigger]
        overlap(t, x, y) && issue == overlap_issue(t, x, y);
    lemma_spans_are_clips(t.clips, x);
    lemma_spans_are_clips(t.clips, y);
    let (i, j) = (x.place as int, y.place as int);
    assert(t.clips[i].id == earlier && t.clips[j].id == later);
}

} // verus!

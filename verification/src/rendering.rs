//! From a document to what runs: the order of layers and effects, and where each clip ends.

use vstd::prelude::*;

use crate::clip;
use crate::clip::{Clip, ClipSource};
use crate::derive::{LayerSource, VideoLayer};
use crate::effect;
use crate::effect::{ClipEffect, EffectDomain};
use crate::fidelity;
use crate::filter::{AnimatedValue, FilterStep};
use crate::float::accuracy;
use crate::float::double;
use crate::float::double::F64;
use crate::float::grid;
use crate::gpu_compositor;
use crate::gpu_compositor::LutFormat;
use crate::render;
use crate::render::Opened;
use crate::time;
use crate::time::Duration;
use crate::timeline::Document;
use crate::timing;
use crate::track;
use crate::track::TrackState;
use crate::transition;
use crate::validate;
use crate::validate::TimelineIssue;

verus! {

/// A clip as it is made plays its source as it is: from the start, at its own speed, opaque, in
/// place, at its own loudness and pitch; on a track without automation nothing runs on its frames
/// or leads its sound.
pub proof fn plain_clips_change_nothing(
    c: Clip,
    width: u32,
    height: u32,
    prev_end: Option<F64>,
    starts: Seq<F64>,
    steps: Seq<FilterStep<AnimatedValue>>,
    length: Option<Duration>,
    start: F64,
)
    requires
        clip::plain(c),
        crate::derive::is_export_chain(
            c,
            track::no_automation(),
            width,
            height,
            prev_end,
            starts,
            steps,
        ),
    ensures
        c.speed.finite() && c.speed.units() == accuracy::unit(),
        c.scale.finite() && c.scale.units() == accuracy::unit(),
        c.x.units() == 0 && c.y.units() == 0 && c.rotation.units() == 0,
        c.volume_db.units() == 0 && c.pan.units() == 0 && c.pitch.units() == 0,
        c.opacity.finite() && c.opacity.units() == accuracy::single_unit(),
        c.offset.nanos == 0 && c.in_point is None && c.out_point is None,
        steps.len() == 0,
        crate::derive::audio_lead(c, crate::derive::pitch_of(c, start), length).len() == 0,
{
    accuracy::doubles_are_their_numbers();
    accuracy::singles_are_their_numbers();
    accuracy::lemma_powers();
    vstd::arithmetic::power2::lemma_pow2_pos(149);
    let a = track::no_automation();
    fidelity::export_is_timed(c, a, width, height, prev_end, starts, steps);
    let lead = fidelity::trims(c) + fidelity::moves(c) + fidelity::respeeds(c);
    fidelity::chain_is_as_authored(
        c,
        a,
        width,
        height,
        starts,
        steps.subrange(lead, steps.len() as int),
    );
    timing::lemma_off_one(c.speed);
}

/// How many of the first `n` effects of a chain's domain run: those that are enabled and do
/// something.
pub open spec fn running(
    effects: Seq<ClipEffect>,
    domain: EffectDomain,
    starts: Seq<F64>,
    n: int,
) -> int
    decreases n,
{
    if n <= 0 {
        0
    } else {
        running(effects, domain, starts, n - 1) + (if runs(effects, domain, starts, n - 1) {
            1int
        } else {
            0
        })
    }
}

/// Whether an effect runs in a chain of its domain: it is enabled and does something.
pub open spec fn runs(
    effects: Seq<ClipEffect>,
    domain: EffectDomain,
    starts: Seq<F64>,
    i: int,
) -> bool {
    &&& effects[i].enabled
    &&& effect::domain_of(effects[i].kind) == domain
    &&& !effect::compiles_to(effects[i].kind, starts[i], None)
}

/// Effects run in the order in which the clip has them: each one that runs is one step of the
/// chain, after as many steps as effects before it run, and the chain has no other step.
pub proof fn effects_run_in_order(
    effects: Seq<ClipEffect>,
    domain: EffectDomain,
    starts: Seq<F64>,
    steps: Seq<FilterStep<AnimatedValue>>,
    i: int,
)
    requires
        clip::compiled_effects(effects, domain, starts, steps),
        0 <= i < effects.len(),
    ensures
        steps.len() == running(effects, domain, starts, effects.len() as int),
        0 <= running(effects, domain, starts, i) <= steps.len(),
        runs(effects, domain, starts, i) ==> {
            let k = running(effects, domain, starts, i);
            k < steps.len() && effect::compiles_to(effects[i].kind, starts[i], Some(steps[k]))
        },
    decreases effects.len(),
{
    let rest = effects.drop_last();
    let n = rest.len() as int;
    let fewer = if runs(effects, domain, starts, n) {
        steps.drop_last()
    } else {
        steps
    };
    assert(effects.last() == effects[n]);
    assert(clip::compiled_effects(rest, domain, starts, fewer));
    lemma_running_of_prefix(effects, domain, starts, n);
    lemma_running_of_prefix(effects, domain, starts, i);
    if n > 0 {
        effects_run_in_order(rest, domain, starts, fewer, if i < n {
            i
        } else {
            0
        });
        if i < n {
            assert(rest[i] == effects[i]);
        }
    }
    assert(running(rest, domain, starts, n) == fewer.len());
}

proof fn lemma_running_of_prefix(
    effects: Seq<ClipEffect>,
    domain: EffectDomain,
    starts: Seq<F64>,
    n: int,
)
    requires
        0 <= n < effects.len(),
    ensures
        running(effects.drop_last(), domain, starts, n) == running(effects, domain, starts, n),
        running(effects, domain, starts, n) >= 0,
    decreases n,
{
    if n > 0 {
        lemma_running_of_prefix(effects, domain, starts, n - 1);
        assert(effects.drop_last()[n - 1] == effects[n - 1]);
    }
}

/// Layers lie in the order of the document: those of a lower track below those of a higher one,
/// those of a track in the order of its clips, each reading its own clip's source and mixing as
/// its own clip says; and the overlay lies above them all.
pub proof fn layers_lie_in_order<F: Fn(&AnimatedValue) -> F64>(
    d: Document,
    sources: Seq<Seq<Opened>>,
    eval: F,
    layers: Seq<VideoLayer<AnimatedValue>>,
    k: int,
    i: int,
    m: int,
)
    requires
        render::is_stack(d, sources, eval, layers),
        0 <= k < d.video.len(),
        fidelity::audible(d.video, k),
        0 <= i < d.video[k].clips.len(),
        k < m <= d.video.len(),
    ensures
        ({
            let at = render::layers_before(d.video, k) + i;
            let c = d.video[k].clips[i];
            &&& 0 <= at < render::layers_before(d.video, m) <= layers.len()
            &&& layers[at].blend_mode == c.blend_mode && layers[at].composite_op == c.composite_op
            &&& c.source matches ClipSource::File(path) ==> layers[at].source == LayerSource::File(
                path,
            )
            &&& c.source matches ClipSource::Text(spec) ==> layers[at].source == LayerSource::Text(
                spec,
            )
            &&& c.source matches ClipSource::Solid(color) ==> layers[at].source
                == LayerSource::Solid(color)
            &&& c.proxy is None ==> layers[at].proxy is None
            &&& d.lavfi_overlay matches Some(graph) ==> layers.last().source == LayerSource::Lavfi(
                graph,
            ) && at < layers.len() - 1
        }),
{
    fidelity::lemma_audible(d.video, k);
    render::layers_grow(d.video, k, k + 1);
    render::layers_grow(d.video, k + 1, m);
    render::layers_grow(d.video, m, d.video.len() as int);
    let t = d.video[k];
    let own = render::layers_of(d.video, k, layers);
    let canvas = (d.canvas_width, d.canvas_height);
    assert(render::are_layers(t, canvas, sources[k], eval, own));
    assert(own[i] == layers[render::layers_before(d.video, k) + i]);
    assert(render::is_clip_layer(t, i, canvas, sources[k], eval, own[i]));
}

/// A stand-in is read at the size of the source that it stands for, side by side.
pub proof fn stand_ins_have_the_source_size(c: Clip, source: Opened)
    ensures
        render::stand_in(c, source) is Some <==> c.proxy is Some && source.size is Some,
        render::stand_in(c, source) matches Some(p) ==> Some(p.path) == c.proxy && source.size
            == Some((p.width, p.height)),
{
}

/// A clip shows as much of its source as it is trimmed to; one without both trim points shows what
/// its file holds from the in-point on, or all of it.
pub proof fn clips_show_what_they_are_trimmed_to(c: Clip, source: Opened)
    requires
        fidelity::is_span(c.in_point) && fidelity::is_span(c.out_point) && fidelity::is_span(
            source.length,
        ),
    ensures
        ({
            let r = render::added_seconds(c, source);
            &&& r.finite() && r.units() >= 0
            &&& c.in_point matches Some(from) ==> (c.out_point matches Some(to) ==> timing::tells(
                r,
                Duration {
                    nanos: if from.nanos <= to.nanos {
                        (to.nanos - from.nanos) as u128
                    } else {
                        0
                    },
                },
            ))
            &&& c.in_point is None ==> (source.length matches Some(all) ==> timing::tells(r, all))
            &&& c.in_point matches Some(from) ==> (c.out_point is None ==> (
            source.length matches Some(all) ==> {
                let left = if from.nanos <= all.nanos {
                    all.nanos - from.nanos
                } else {
                    0
                };
                accuracy::P48 * accuracy::gap(r.units() * 1_000_000_000, left * accuracy::unit())
                    <= (all.nanos + from.nanos) * accuracy::unit()
            }))
            &&& (c.in_point is None || c.out_point is None) && source.length is None ==> r.units()
                == 0
        }),
{
    accuracy::lemma_powers();
    accuracy::doubles_are_their_numbers();
    let r = render::added_seconds(c, source);
    if let Some(d) = clip::source_span(c) {
        timing::seconds_are_accurate(d);
        grid::lemma_grid_increases(52, 0, r.magnitude() as nat);
    } else if let Some(all) = source.length {
        timing::seconds_are_accurate(all);
        let a = time::seconds(all);
        grid::lemma_grid_increases(52, 0, a.magnitude() as nat);
        if let Some(from) = c.in_point {
            timing::seconds_are_accurate(from);
            let b = time::seconds(from);
            fidelity::lemma_held_difference(a, b);
            grid::lemma_grid_increases(52, 0, b.magnitude() as nat);
            let u = accuracy::unit();
            let (x, y) = (all.nanos * u, from.nanos * u);
            assert(x >= 0 && y >= 0) by (nonlinear_arith)
                requires
                    x == all.nanos * u,
                    y == from.nanos * u,
                    u > 0,
            ;
            assert((all.nanos - from.nanos) * u == x - y) by (nonlinear_arith)
                requires
                    x == all.nanos * u,
                    y == from.nanos * u,
            ;
            assert((all.nanos + from.nanos) * u == x + y) by (nonlinear_arith)
                requires
                    x == all.nanos * u,
                    y == from.nanos * u,
            ;
            assert(0 * u == 0);
            assert(from.nanos <= all.nanos ==> y <= x) by (nonlinear_arith)
                requires
                    x == all.nanos * u,
                    y == from.nanos * u,
                    u > 0,
            ;
            assert(from.nanos >= all.nanos ==> y >= x) by (nonlinear_arith)
                requires
                    x == all.nanos * u,
                    y == from.nanos * u,
                    u > 0,
            ;
        }
    }
}

/// How long a clip sounds is asked where it fades out: what it is trimmed to, or what its file
/// holds from the in-point on, or all of it.
pub proof fn fading_clips_know_their_length(c: Clip, source: Opened)
    ensures
        ({
            let r = render::sounding_length(c, source);
            &&& c.fade_out.nanos == 0 ==> r is None
            &&& c.fade_out.nanos > 0 ==> {
                &&& c.in_point matches Some(from) ==> (c.out_point matches Some(to) ==> (
                from.nanos <= to.nanos ==> r is Some && r->0.nanos == to.nanos - from.nanos))
                &&& c.in_point matches Some(from) ==> (c.out_point is None ==> (
                source.length matches Some(all) ==> (from.nanos <= all.nanos ==> r is Some
                    && r->0.nanos == all.nanos - from.nanos)))
                &&& c.in_point is None ==> r == source.length
            }
        }),
{
}

/// A track's stream ends after a clip where it ended before it, and what the clip shows of its
/// source divided by its speed later: up to one part in `2^50`.
pub proof fn streams_end_clip_by_clip(clips: Seq<Clip>, sources: Seq<Opened>, i: int)
    requires
        0 <= i,
        ({
            let c = clips[i];
            let e = render::stream_end(clips, sources, i);
            let a = render::added_seconds(c, sources[i]);
            let (u, p) = (accuracy::unit(), c.speed.units());
            &&& c.speed.finite() && 100 * p >= u && p <= 0x100_0000_0000 * u
            &&& e.finite() && !e.negative() && (e.units() == 0 || e.units() * 0x4000_0000 >= u)
            &&& e.units() <= 0x1_0000_0000_0000_0000 * u
            &&& a.finite() && !a.negative() && (a.units() == 0 || a.units() * 0x8000_0000 >= u)
            &&& a.units() <= 0x1_0000_0000_0000_0000 * u
        }),
    ensures
        ({
            let c = clips[i];
            let e = render::stream_end(clips, sources, i).units();
            let next = render::stream_end(clips, sources, i + 1);
            let a = render::added_seconds(c, sources[i]).units();
            let (u, p) = (accuracy::unit(), c.speed.units());
            &&& next.finite() && !next.negative()
            &&& accuracy::P50 * accuracy::gap(next.units() * p, e * p + a * u) <= e * p + a * u
        }),
{
    accuracy::lemma_powers();
    let c = clips[i];
    let e = render::stream_end(clips, sources, i);
    let a = render::added_seconds(c, sources[i]);
    let (u, p) = (accuracy::unit(), c.speed.units());
    timing::lemma_hundredth(c.speed);
    assert(transition::floored(c.speed) == c.speed);
    assert(!c.speed.negative()) by {
        grid::lemma_grid_increases(52, 0, c.speed.magnitude() as nat);
    }
    grid::lemma_grid_increases(52, 0, e.magnitude() as nat);
    grid::lemma_grid_increases(52, 0, a.magnitude() as nat);
    let (x, y) = (e.units(), a.units());
    assert(y == 0 || y * u >= accuracy::P52 * p) by (nonlinear_arith)
        requires
            y == 0 || y * 0x8000_0000 >= u,
            p <= 0x100_0000_0000 * u,
            u >= 0x1_0000_0000_0000_0000_0000_0000_0000_0000,
            accuracy::P52 == 0x10_0000_0000_0000,
    ;
    vstd::arithmetic::power2::lemma_pow2_pos(900);
    crate::float::magnitude::lemma_pow2_values();
    crate::float::magnitude::lemma_pow2_at_most(126, 900);
    assert(y <= vstd::arithmetic::power2::pow2(900) * p) by (nonlinear_arith)
        requires
            y <= 0x1_0000_0000_0000_0000 * u,
            100 * p >= u,
            u > 0,
            vstd::arithmetic::power2::pow2(900) >= 0x4000_0000_0000_0000_0000_0000_0000_0000,
    ;
    accuracy::quotient_is_accurate(a, c.speed);
    let q = double::quotient(a, c.speed);
    let z = q.units();
    grid::lemma_grid_increases(52, 0, q.magnitude() as nat);
    assert(z == 0 || z >= accuracy::P52) by (nonlinear_arith)
        requires
            y == 0 ==> z == 0,
            accuracy::P52 * (y * u - z * p) <= y * u,
            y == 0 || y * 0x8000_0000 >= u,
            p <= 0x100_0000_0000 * u,
            p > 0,
            y >= 0,
            u >= 0x1_0000_0000_0000_0000_0000_0000_0000_0000,
            accuracy::P52 == 0x10_0000_0000_0000,
    ;
    assert(x == 0 || x >= accuracy::P52);
    assert(z <= 0x400_0000_0000_0000_0000 * u) by (nonlinear_arith)
        requires
            accuracy::P52 * (z * p - y * u) <= y * u,
            y <= 0x1_0000_0000_0000_0000 * u,
            100 * p >= u,
            u > 0,
            y >= 0,
            accuracy::P52 == 0x10_0000_0000_0000,
    ;
    vstd::arithmetic::power2::lemma_pow2_adds(926, 1074);
    crate::float::magnitude::lemma_pow2_at_most(126, 926);
    assert(x + z <= vstd::arithmetic::power2::pow2(2000)) by (nonlinear_arith)
        requires
            x <= 0x1_0000_0000_0000_0000 * u,
            z <= 0x400_0000_0000_0000_0000 * u,
            vstd::arithmetic::power2::pow2(2000) == vstd::arithmetic::power2::pow2(926) * u,
            vstd::arithmetic::power2::pow2(926) >= 0x4000_0000_0000_0000_0000_0000_0000_0000,
            u > 0,
    ;
    accuracy::sum_is_accurate(e, q);
    let next = double::sum(e, q).units();
    let (np, xp, zp, yu) = (next * p, x * p, z * p, y * u);
    assert(accuracy::P52 * accuracy::gap(np, xp + zp) <= xp + zp) by (nonlinear_arith)
        requires
            accuracy::P52 * accuracy::gap(next, x + z) <= x + z,
            np == next * p,
            xp == x * p,
            zp == z * p,
            p > 0,
    ;
    assert(xp >= 0 && yu >= 0) by (nonlinear_arith)
        requires
            xp == x * p,
            yu == y * u,
            x >= 0,
            y >= 0,
            p > 0,
            u > 0,
    ;
}

/// A clip whose out-point is before its in-point is reported as such, one whose trim points are
/// the same as empty, and a generated clip with no out-point as one without an end; a clip with
/// none of these is not reported by itself.
pub proof fn clips_are_reported_for_cause(c: Clip)
    ensures
        ({
            let found = validate::trim_issues(c) + validate::end_issues(c);
            &&& found.contains(TimelineIssue::TrimOutBeforeIn { clip: c.id }) <==> (
            c.in_point is Some && c.out_point is Some && c.out_point->0.nanos
                < c.in_point->0.nanos)
            &&& found.contains(TimelineIssue::EmptyFootprint { clip: c.id }) <==> (
            c.in_point is Some && c.out_point is Some && c.out_point->0.nanos
                == c.in_point->0.nanos)
            &&& found.contains(TimelineIssue::GeneratedClipWithoutOutPoint { clip: c.id }) <==> (
            c.source !is File && c.out_point is None)
            &&& found.len() > 0 ==> found[0] == (TimelineIssue::TrimOutBeforeIn { clip: c.id })
                || found[0] == (TimelineIssue::EmptyFootprint { clip: c.id }) || found[0] == (
            TimelineIssue::GeneratedClipWithoutOutPoint { clip: c.id })
            &&& found.len() <= 1
        }),
{
    let found = validate::trim_issues(c) + validate::end_issues(c);
    if found.len() > 0 {
        assert(found.contains(found[0]));
    }
}

/// An overlay lies where it is: unmoved, unscaled, upright, opaque, blended plainly over what is
/// below, with nothing running on it.
pub proof fn overlays_lie_as_they_are(graph: String, l: VideoLayer<AnimatedValue>)
    requires
        render::overlay_of(graph, l),
    ensures
        l.source == LayerSource::Lavfi(graph),
        l.x matches AnimatedValue::Static(v) && v.finite() && v.units() == 0,
        l.y matches AnimatedValue::Static(v) && v.finite() && v.units() == 0,
        l.rotation matches AnimatedValue::Static(v) && v.finite() && v.units() == 0,
        l.scale_x matches AnimatedValue::Static(v) && v.finite() && v.units() == accuracy::unit(),
        l.scale_y matches AnimatedValue::Static(v) && v.finite() && v.units() == accuracy::unit(),
        l.opacity matches AnimatedValue::Static(v) && v.finite() && v.units() == accuracy::unit(),
        l.blend_mode is Normal && l.composite_op is Over,
        l.effects@.len() == 0 && l.proxy is None,
{
    accuracy::doubles_are_their_numbers();
}

/// An export asks first for the picture and then for the sound, each time where the encoder
/// stands; it is over once the last of them is drained, or once the caller stops it.
pub proof fn exports_go_on_in_turn(export: render::Export, chunk: Duration)
    requires
        export.audio_pts.nanos + chunk.nanos <= time::MAX_NANOS,
        export.video_idx < u32::MAX,
    ensures
        export.stage is Video ==> {
            let next = render::after(export, render::ExportEvent::Frame);
            &&& next.stage is Video && next.video_idx == export.video_idx + 1
            &&& render::asks(next) == (render::ExportAct::PullVideo {
                frame: (export.video_idx + 1) as u32,
            })
            &&& render::after(export, render::ExportEvent::Drained).stage is Audio <==> export.sound
            &&& render::after(export, render::ExportEvent::Drained).stage is Over <==> !export.sound
            &&& render::after(export, render::ExportEvent::Stopped).stage is Over
        },
        export.stage is Audio ==> {
            let next = render::after(export, render::ExportEvent::Chunk(chunk));
            &&& next.stage is Audio && next.audio_pts.nanos == export.audio_pts.nanos + chunk.nanos
            &&& render::asks(next) == (render::ExportAct::PullAudio { at: next.audio_pts })
            &&& render::after(export, render::ExportEvent::Drained).stage is Over
        },
        export.stage is Over ==> render::asks(export) == render::ExportAct::Finish,
{
}

/// A track lasts as long as what its clips are trimmed to, taken together; one clip that is not
/// trimmed at both ends leaves the length open. Tracks add up alike.
pub proof fn lengths_add_up(clips: Seq<Clip>, c: Clip, tracks: Seq<TrackState>, t: TrackState)
    requires
        c.in_point is Some && c.out_point is Some ==> c.in_point->0.nanos <= c.out_point->0.nanos,
    ensures
        render::clips_length(Seq::empty()) == Some(0int),
        render::tracks_length(Seq::empty()) == Some(0int),
        render::clips_length(clips.push(c)) is Some <==> render::clips_length(clips) is Some
            && c.in_point is Some && c.out_point is Some,
        render::clips_length(clips.push(c)) is Some ==> render::clips_length(clips.push(c))->0
            + c.in_point->0.nanos == render::clips_length(clips)->0 + c.out_point->0.nanos,
        render::tracks_length(tracks.push(t)) is Some <==> render::tracks_length(tracks) is Some
            && render::clips_length(t.clips) is Some,
        render::tracks_length(tracks.push(t)) is Some ==> render::tracks_length(tracks.push(t))->0
            == render::tracks_length(tracks)->0 + render::clips_length(t.clips)->0,
{
    assert(clips.push(c).drop_last() =~= clips);
    assert(tracks.push(t).drop_last() =~= tracks);
}

proof fn lemma_last_place(lead: Seq<char>, tail: Seq<char>, c: char)
    requires
        !tail.contains(c),
    ensures
        gpu_compositor::last_place(lead.push(c) + tail, c) == lead.len(),
    decreases tail.len(),
{
    let all = lead.push(c) + tail;
    if tail.len() == 0 {
        assert(all =~= lead.push(c));
    } else {
        let rest = tail.drop_last();
        assert(all.drop_last() =~= lead.push(c) + rest);
        assert(tail.contains(tail.last()));
        assert forall|k: int| 0 <= k < rest.len() implies rest[k] != c by {
            assert(tail.contains(tail[k]));
        }
        lemma_last_place(lead, rest, c);
    }
}

/// A colour table's format goes by what follows the last dot of its file's name, whatever
/// directory the file is in.
pub proof fn tables_go_by_their_extension(lead: Seq<char>, stem: Seq<char>, extension: Seq<char>)
    requires
        stem.len() > 0 && !stem.contains('/'),
        extension.len() > 0 && !extension.contains('/') && !extension.contains('.'),
    ensures
        ({
            let path = lead.push('/') + (stem.push('.') + extension);
            &&& gpu_compositor::extension_of(path) == Some(extension)
            &&& extension == "cube"@ || extension == "CUBE"@ ==> gpu_compositor::table_of(path)
                == Some(LutFormat::Cube)
            &&& extension == "3dl"@ || extension == "3DL"@ ==> gpu_compositor::table_of(path)
                == Some(LutFormat::ThreeDl)
            &&& extension.len() != 4 && extension.len() != 3 ==> gpu_compositor::table_of(path)
                is None
        }),
{
    let name = stem.push('.') + extension;
    let path = lead.push('/') + name;
    assert forall|k: int| 0 <= k < name.len() implies name[k] != '/' by {
        if k < stem.len() {
            assert(stem.contains(stem[k]));
        } else if k > stem.len() {
            assert(extension.contains(extension[k - stem.len() - 1]));
        }
    }
    lemma_last_place(lead, name, '/');
    assert(path.skip(lead.len() as int + 1) =~= name);
    reveal_strlit(".");
    reveal_strlit("..");
    assert(extension.contains(extension.last()));
    assert(name.last() == extension.last());
    assert(name.len() > 1);
    assert(("..")@.last() == '.');
    assert(gpu_compositor::file_name(path) == Some(name));
    lemma_last_place(stem, extension, '.');
    assert(name.skip(stem.len() as int + 1) =~= extension);
    reveal_strlit("cube");
    reveal_strlit("CUBE");
    reveal_strlit("3dl");
    reveal_strlit("3DL");
}

} // verus!

//! Clips: a source, where it sits on the timeline, and how it looks and sounds.

use std::sync::Arc;

use vstd::prelude::*;

use crate::effect;
use crate::effect::{ClipEffect, EffectDomain};
use crate::filter;
use crate::filter::{
    copy_track, share, AnimatedValue, AnimationTrack, BlendMode, Color, CompositeOp, FilterStep,
    TextSpec, XfadeTransition,
};
use crate::float::double::F64;
use crate::float::single;
use crate::float::single::F32;
use crate::float::values;
use crate::ids::{ClipId, GroupId};
use crate::time;
use crate::time::Duration;

verus! {

/// What a clip shows.
#[derive(Debug, PartialEq)]
pub enum ClipSource {
    /// A media file, by its path.
    File(String),
    /// A generated title.
    Text(TextSpec),
    /// A generated solid colour.
    Solid(Color),
}

impl Clone for ClipSource {
    fn clone(&self) -> (r: Self)
        ensures
            r == *self,
    {
        match self {
            ClipSource::File(path) => ClipSource::File(path.clone()),
            ClipSource::Text(spec) => ClipSource::Text(spec.clone()),
            ClipSource::Solid(color) => ClipSource::Solid(*color),
        }
    }
}

/// How a source is framed to the canvas.
#[derive(Clone, Copy, Debug, PartialEq, Eq, Structural)]
pub enum FitMode {
    /// At its own size.
    Native,
    /// Stretched to the canvas.
    Stretch,
    /// Scaled to fit inside the canvas.
    Fit,
    /// Scaled to cover the canvas.
    Fill,
}

/// A copy of an optional text.
pub fn copy_text(t: &Option<String>) -> (r: Option<String>)
    ensures
        r == *t,
{
    match t {
        Some(text) => Some(text.clone()),
        None => None,
    }
}

/// A clip on a track.
#[derive(Debug, PartialEq)]
pub struct Clip {
    /// Identity within the document; unset until the clip is placed in one.
    pub id: ClipId,
    /// The group of linked clips that this one belongs to.
    pub group: Option<GroupId>,
    /// What the clip shows.
    pub source: ClipSource,
    /// Where the clip starts on the timeline.
    pub offset: Duration,
    /// Where the source starts; `None` for its beginning.
    pub in_point: Option<Duration>,
    /// Where the source ends; `None` for its end.
    pub out_point: Option<Duration>,
    /// Playback speed multiplier.
    pub speed: F64,
    /// Opacity between zero and one.
    pub opacity: F32,
    /// Keyframed opacity.
    pub opacity_track: Option<AnimationTrack>,
    /// Horizontal position in pixels.
    pub x: F64,
    /// Keyframed horizontal position.
    pub x_track: Option<AnimationTrack>,
    /// Vertical position in pixels.
    pub y: F64,
    /// Keyframed vertical position.
    pub y_track: Option<AnimationTrack>,
    /// Scale of both axes.
    pub scale: F64,
    /// Keyframed scale.
    pub scale_track: Option<AnimationTrack>,
    /// Rotation in clockwise degrees.
    pub rotation: F64,
    /// Keyframed rotation.
    pub rotation_track: Option<AnimationTrack>,
    /// How the clip mixes with what is below it.
    pub blend_mode: BlendMode,
    /// The operator that combines the clip with what is below it.
    pub composite_op: CompositeOp,
    /// How the source is framed to the canvas.
    pub fit: FitMode,
    /// The cross-fade from the preceding clip.
    pub transition: Option<XfadeTransition>,
    /// How long that cross-fade was authored to last.
    pub transition_duration: Duration,
    /// Audio fade-in.
    pub fade_in: Duration,
    /// Audio fade-out.
    pub fade_out: Duration,
    /// Volume in decibels.
    pub volume_db: F64,
    /// Keyframed volume.
    pub volume_track: Option<AnimationTrack>,
    /// Stereo pan, from left at minus one to right at one.
    pub pan: F64,
    /// Pitch shift in semitones.
    pub pitch: F64,
    /// Keyframed pitch.
    pub pitch_track: Option<AnimationTrack>,
    /// Brightness offset.
    pub brightness: F32,
    /// Contrast multiplier.
    pub contrast: F32,
    /// Saturation multiplier.
    pub saturation: F32,
    /// A stand-in file for previews.
    pub proxy: Option<String>,
    /// Video steps attached by hand.
    pub video_effects: Arc<Vec<FilterStep<AnimatedValue>>>,
    /// Audio steps attached by hand.
    pub audio_effects: Arc<Vec<FilterStep<AnimatedValue>>>,
    /// The typed effects, in order, of both streams.
    pub effects: Arc<Vec<ClipEffect>>,
}

impl Clone for Clip {
    fn clone(&self) -> (r: Self)
        ensures
            r == *self,
    {
        Clip {
            id: self.id,
            group: self.group,
            source: self.source.clone(),
            offset: self.offset,
            in_point: self.in_point,
            out_point: self.out_point,
            speed: self.speed,
            opacity: self.opacity,
            opacity_track: copy_track(&self.opacity_track),
            x: self.x,
            x_track: copy_track(&self.x_track),
            y: self.y,
            y_track: copy_track(&self.y_track),
            scale: self.scale,
            scale_track: copy_track(&self.scale_track),
            rotation: self.rotation,
            rotation_track: copy_track(&self.rotation_track),
            blend_mode: self.blend_mode,
            composite_op: self.composite_op,
            fit: self.fit,
            transition: self.transition,
            transition_duration: self.transition_duration,
            fade_in: self.fade_in,
            fade_out: self.fade_out,
            volume_db: self.volume_db,
            volume_track: copy_track(&self.volume_track),
            pan: self.pan,
            pitch: self.pitch,
            pitch_track: copy_track(&self.pitch_track),
            brightness: self.brightness,
            contrast: self.contrast,
            saturation: self.saturation,
            proxy: copy_text(&self.proxy),
            video_effects: share(&self.video_effects),
            audio_effects: share(&self.audio_effects),
            effects: share(&self.effects),
        }
    }
}

/// Whether a clip has every property at its default but for its source.
pub open spec fn plain(clip: Clip) -> bool {
    &&& clip.id == ClipId(0)
    &&& clip.group == None::<GroupId>
    &&& clip.offset == (Duration { nanos: 0 })
    &&& clip.in_point == None::<Duration>
    &&& clip.out_point == None::<Duration>
    &&& clip.speed == (F64 { bits: values::ONE })
    &&& clip.opacity == (F32 { bits: values::S_ONE })
    &&& clip.opacity_track is None
    &&& clip.x == (F64 { bits: values::ZERO })
    &&& clip.x_track is None
    &&& clip.y == (F64 { bits: values::ZERO })
    &&& clip.y_track is None
    &&& clip.scale == (F64 { bits: values::ONE })
    &&& clip.scale_track is None
    &&& clip.rotation == (F64 { bits: values::ZERO })
    &&& clip.rotation_track is None
    &&& clip.blend_mode == BlendMode::Normal
    &&& clip.composite_op == CompositeOp::Over
    &&& clip.fit == FitMode::Native
    &&& clip.transition == None::<XfadeTransition>
    &&& clip.transition_duration == (Duration { nanos: 0 })
    &&& clip.fade_in == (Duration { nanos: 0 })
    &&& clip.fade_out == (Duration { nanos: 0 })
    &&& clip.volume_db == (F64 { bits: values::ZERO })
    &&& clip.volume_track is None
    &&& clip.pan == (F64 { bits: values::ZERO })
    &&& clip.pitch == (F64 { bits: values::ZERO })
    &&& clip.pitch_track is None
    &&& clip.brightness == (F32 { bits: values::S_ZERO })
    &&& clip.contrast == (F32 { bits: values::S_ONE })
    &&& clip.saturation == (F32 { bits: values::S_ONE })
    &&& clip.proxy == None::<String>
    &&& clip.video_effects@.len() == 0
    &&& clip.audio_effects@.len() == 0
    &&& clip.effects@.len() == 0
}

/// How much of the source the clip uses: known when both trim points are set.
pub open spec fn source_span(clip: Clip) -> Option<Duration> {
    match (clip.in_point, clip.out_point) {
        (Some(i), Some(o)) => Some(time::earlier(o, i)),
        _ => None,
    }
}

/// The file that the clip shows, if it shows one.
pub open spec fn file_of(clip: Clip) -> Option<String> {
    match clip.source {
        ClipSource::File(path) => Some(path),
        _ => None,
    }
}

/// Whether the colour correction changes nothing.
pub open spec fn neutral_color(clip: Clip) -> bool {
    &&& single::equal(clip.brightness, F32 { bits: values::S_ZERO })
    &&& single::equal(clip.contrast, F32 { bits: values::S_ONE })
    &&& single::equal(clip.saturation, F32 { bits: values::S_ONE })
}

/// The colour-correction step that leads the video chain.
pub open spec fn color_steps(clip: Clip) -> Seq<FilterStep<AnimatedValue>> {
    if neutral_color(clip) {
        Seq::empty()
    } else {
        seq![
            FilterStep::Eq {
                brightness: clip.brightness,
                contrast: clip.contrast,
                saturation: clip.saturation,
                temperature: F32 { bits: values::S_ZERO },
                tint: F32 { bits: values::S_ZERO },
            },
        ]
    }
}

/// Whether `steps` is what the enabled effects of one domain compile to, in order, where
/// `starts[i]` is the value at time zero that effect `i` reads.
pub open spec fn compiled_effects(
    effects: Seq<ClipEffect>,
    domain: EffectDomain,
    starts: Seq<F64>,
    steps: Seq<FilterStep<AnimatedValue>>,
) -> bool
    decreases effects.len(),
{
    if effects.len() == 0 {
        steps.len() == 0
    } else {
        let last = effects.last();
        let before = effects.drop_last();
        let start = starts[effects.len() - 1];
        if !last.enabled || effect::domain_of(last.kind) != domain || effect::compiles_to(
            last.kind,
            start,
            None,
        ) {
            compiled_effects(before, domain, starts, steps)
        } else {
            &&& steps.len() > 0
            &&& effect::compiles_to(last.kind, start, Some(steps.last()))
            &&& compiled_effects(before, domain, starts, steps.drop_last())
        }
    }
}

/// Whether `chain` is the clip's video chain: the colour correction, the steps attached by
/// hand, and the enabled video effects.
pub open spec fn is_video_chain(
    clip: Clip,
    starts: Seq<F64>,
    chain: Seq<FilterStep<AnimatedValue>>,
) -> bool {
    let lead = color_steps(clip) + clip.video_effects@;
    &&& lead.len() <= chain.len()
    &&& chain.take(lead.len() as int) == lead
    &&& compiled_effects(clip.effects@, EffectDomain::Video, starts, chain.skip(lead.len() as int))
}

/// Whether `chain` is the clip's audio chain: the steps attached by hand, and the enabled
/// audio effects.
pub open spec fn is_audio_chain(
    clip: Clip,
    starts: Seq<F64>,
    chain: Seq<FilterStep<AnimatedValue>>,
) -> bool {
    let lead = clip.audio_effects@;
    &&& lead.len() <= chain.len()
    &&& chain.take(lead.len() as int) == lead
    &&& compiled_effects(clip.effects@, EffectDomain::Audio, starts, chain.skip(lead.len() as int))
}

/// Appends copies of `steps`.
pub fn append_steps(
    chain: &mut Vec<FilterStep<AnimatedValue>>,
    steps: &Vec<FilterStep<AnimatedValue>>,
)
    ensures
        final(chain)@ == old(chain)@ + steps@,
{
    let mut i: usize = 0;
    while i < steps.len()
        invariant
            i <= steps@.len(),
            chain@ == old(chain)@ + steps@.take(i as int),
        decreases steps@.len() - i,
    {
        chain.push(steps[i].clone());
        i = i + 1;
        assert(steps@.take(i as int) =~= steps@.take(i - 1).push(steps@[i - 1]));
    }
    assert(steps@.take(i as int) =~= steps@);
}

/// Compiles the enabled effects of one domain and appends the steps.
fn append_effects(
    chain: &mut Vec<FilterStep<AnimatedValue>>,
    effects: &Vec<ClipEffect>,
    domain: EffectDomain,
    starts: &Vec<F64>,
)
    requires
        starts@.len() == effects@.len(),
    ensures
        old(chain)@.len() <= final(chain)@.len(),
        final(chain)@.take(old(chain)@.len() as int) == old(chain)@,
        compiled_effects(
            effects@,
            domain,
            starts@,
            final(chain)@.skip(old(chain)@.len() as int),
        ),
{
    let ghost lead = chain@;
    let mut i: usize = 0;
    proof {
        assert(chain@.skip(lead.len() as int) =~= Seq::empty());
        assert(effects@.take(0) =~= Seq::empty());
    }
    while i < effects.len()
        invariant
            i <= effects@.len(),
            starts@.len() == effects@.len(),
            lead.len() <= chain@.len(),
            chain@.take(lead.len() as int) =~= lead,
            compiled_effects(
                effects@.take(i as int),
                domain,
                starts@,
                chain@.skip(lead.len() as int),
            ),
        decreases effects@.len() - i,
    {
        let e = &effects[i];
        let ghost before = chain@;
        let ghost done = effects@.take(i as int);
        let ghost next = effects@.take(i + 1);
        proof {
            assert(next.drop_last() =~= done);
            assert(next.last() == effects@[i as int]);
        }
        if e.enabled && e.kind.domain() == domain {
            match e.kind.to_filter_step(starts[i]) {
                Some(step) => {
                    chain.push(step);
                    proof {
                        effect::compiles_one_way(e.kind, starts@[i as int], step);
                        let tail = chain@.skip(lead.len() as int);
                        assert(tail.drop_last() =~= before.skip(lead.len() as int));
                        assert(tail.last() == step);
                        assert(chain@.take(lead.len() as int) =~= lead);
                    }
                },
                None => {},
            }
        }
        i = i + 1;
    }
    assert(effects@.take(i as int) =~= effects@);
}

impl Clip {
    fn from_source(source: ClipSource) -> (r: Clip)
        ensures
            r.source == source,
            plain(r),
    {
        Clip {
            id: ClipId(0),
            group: None,
            source,
            offset: Duration { nanos: 0 },
            in_point: None,
            out_point: None,
            speed: F64 { bits: values::ONE },
            opacity: F32 { bits: values::S_ONE },
            opacity_track: None,
            x: F64 { bits: values::ZERO },
            x_track: None,
            y: F64 { bits: values::ZERO },
            y_track: None,
            scale: F64 { bits: values::ONE },
            scale_track: None,
            rotation: F64 { bits: values::ZERO },
            rotation_track: None,
            blend_mode: BlendMode::Normal,
            composite_op: CompositeOp::Over,
            fit: FitMode::Native,
            transition: None,
            transition_duration: Duration { nanos: 0 },
            fade_in: Duration { nanos: 0 },
            fade_out: Duration { nanos: 0 },
            volume_db: F64 { bits: values::ZERO },
            volume_track: None,
            pan: F64 { bits: values::ZERO },
            pitch: F64 { bits: values::ZERO },
            pitch_track: None,
            brightness: F32 { bits: values::S_ZERO },
            contrast: F32 { bits: values::S_ONE },
            saturation: F32 { bits: values::S_ONE },
            proxy: None,
            video_effects: Arc::new(Vec::new()),
            audio_effects: Arc::new(Vec::new()),
            effects: Arc::new(Vec::new()),
        }
    }

    /// A clip of a media file.
    #[must_use]
    pub fn new(path: String) -> (r: Clip)
        ensures
            r.source == ClipSource::File(path),
            plain(r),
    {
        Clip::from_source(ClipSource::File(path))
    }

    /// A generated title.
    #[must_use]
    pub fn text(spec: TextSpec) -> (r: Clip)
        ensures
            r.source == ClipSource::Text(spec),
            plain(r),
    {
        Clip::from_source(ClipSource::Text(spec))
    }

    /// A generated solid colour.
    #[must_use]
    pub fn solid(color: Color) -> (r: Clip)
        ensures
            r.source == ClipSource::Solid(color),
            plain(r),
    {
        Clip::from_source(ClipSource::Solid(color))
    }

    /// How much of the source the clip uses, or `None` while a trim point is unset.
    #[must_use]
    pub fn duration(&self) -> (r: Option<Duration>)
        ensures
            r == source_span(*self),
    {
        match (self.in_point, self.out_point) {
            (Some(i), Some(o)) => Some(o.saturating_sub(i)),
            _ => None,
        }
    }

    /// The file that the clip shows, or `None` for a generated source.
    #[must_use]
    pub fn source_path(&self) -> (r: Option<String>)
        ensures
            r == file_of(*self),
    {
        match &self.source {
            ClipSource::File(path) => Some(path.clone()),
            _ => None,
        }
    }

    /// Sets the opacity, held between zero and one.
    #[must_use]
    pub fn with_opacity(self, opacity: F32) -> (r: Clip)
        ensures
            r == (Clip {
                opacity: single::held(
                    opacity,
                    F32 { bits: values::S_ZERO },
                    F32 { bits: values::S_ONE },
                ),
                ..self
            }),
    {
        let mut clip = self;
        clip.opacity = opacity.clamp(F32 { bits: values::S_ZERO }, F32 { bits: values::S_ONE });
        clip
    }

    /// Attaches a video step by hand, after the ones already there.
    #[must_use]
    pub fn with_video_effect(self, step: FilterStep<AnimatedValue>) -> (r: Clip)
        ensures
            r == (Clip { video_effects: r.video_effects, ..self }),
            r.video_effects@ == self.video_effects@.push(step),
    {
        let mut steps: Vec<FilterStep<AnimatedValue>> = Vec::new();
        append_steps(&mut steps, &self.video_effects);
        steps.push(step);
        let mut clip = self;
        clip.video_effects = Arc::new(steps);
        clip
    }

    /// Sets where the source starts and ends.
    #[must_use]
    pub fn trim(self, in_point: Duration, out_point: Duration) -> (r: Clip)
        ensures
            r == (Clip { in_point: Some(in_point), out_point: Some(out_point), ..self }),
    {
        let mut clip = self;
        clip.in_point = Some(in_point);
        clip.out_point = Some(out_point);
        clip
    }

    /// Sets where the clip starts on the timeline.
    #[must_use]
    pub fn offset(self, offset: Duration) -> (r: Clip)
        ensures
            r == (Clip { offset, ..self }),
    {
        let mut clip = self;
        clip.offset = offset;
        clip
    }

    /// Sets the playback speed.
    #[must_use]
    pub fn with_speed(self, speed: F64) -> (r: Clip)
        ensures
            r == (Clip { speed, ..self }),
    {
        let mut clip = self;
        clip.speed = speed;
        clip
    }

    /// Sets the scale of both axes.
    #[must_use]
    pub fn with_scale(self, scale: F64) -> (r: Clip)
        ensures
            r == (Clip { scale, ..self }),
    {
        let mut clip = self;
        clip.scale = scale;
        clip
    }

    /// Sets the keyframed scale.
    #[must_use]
    pub fn with_scale_track(self, track: AnimationTrack) -> (r: Clip)
        ensures
            r == (Clip { scale_track: Some(track), ..self }),
    {
        let mut clip = self;
        clip.scale_track = Some(track);
        clip
    }

    /// Sets the rotation.
    #[must_use]
    pub fn with_rotation(self, degrees: F64) -> (r: Clip)
        ensures
            r == (Clip { rotation: degrees, ..self }),
    {
        let mut clip = self;
        clip.rotation = degrees;
        clip
    }

    /// Sets the keyframed rotation.
    #[must_use]
    pub fn with_rotation_track(self, track: AnimationTrack) -> (r: Clip)
        ensures
            r == (Clip { rotation_track: Some(track), ..self }),
    {
        let mut clip = self;
        clip.rotation_track = Some(track);
        clip
    }

    /// Sets how the source is framed to the canvas.
    #[must_use]
    pub fn with_fit(self, fit: FitMode) -> (r: Clip)
        ensures
            r == (Clip { fit, ..self }),
    {
        let mut clip = self;
        clip.fit = fit;
        clip
    }

    /// Sets the blend mode.
    #[must_use]
    pub fn with_blend_mode(self, mode: BlendMode) -> (r: Clip)
        ensures
            r == (Clip { blend_mode: mode, ..self }),
    {
        let mut clip = self;
        clip.blend_mode = mode;
        clip
    }

    /// Sets brightness, contrast and saturation.
    #[must_use]
    pub fn with_color_correction(self, brightness: F32, contrast: F32, saturation: F32) -> (r: Clip)
        ensures
            r == (Clip { brightness, contrast, saturation, ..self }),
    {
        let mut clip = self;
        clip.brightness = brightness;
        clip.contrast = contrast;
        clip.saturation = saturation;
        clip
    }

    /// Sets the cross-fade from the preceding clip.
    #[must_use]
    pub fn with_transition(self, kind: XfadeTransition, duration: Duration) -> (r: Clip)
        ensures
            r == (Clip { transition: Some(kind), transition_duration: duration, ..self }),
    {
        let mut clip = self;
        clip.transition = Some(kind);
        clip.transition_duration = duration;
        clip
    }

    /// Sets the audio fade-in.
    #[must_use]
    pub fn with_fade_in(self, duration: Duration) -> (r: Clip)
        ensures
            r == (Clip { fade_in: duration, ..self }),
    {
        let mut clip = self;
        clip.fade_in = duration;
        clip
    }

    /// Sets the audio fade-out.
    #[must_use]
    pub fn with_fade_out(self, duration: Duration) -> (r: Clip)
        ensures
            r == (Clip { fade_out: duration, ..self }),
    {
        let mut clip = self;
        clip.fade_out = duration;
        clip
    }

    /// Sets the volume in decibels.
    #[must_use]
    pub fn volume(self, db: F64) -> (r: Clip)
        ensures
            r == (Clip { volume_db: db, ..self }),
    {
        let mut clip = self;
        clip.volume_db = db;
        clip
    }

    /// Sets the keyframed volume.
    #[must_use]
    pub fn with_volume_track(self, track: AnimationTrack) -> (r: Clip)
        ensures
            r == (Clip { volume_track: Some(track), ..self }),
    {
        let mut clip = self;
        clip.volume_track = Some(track);
        clip
    }

    /// Sets the stereo pan.
    #[must_use]
    pub fn pan(self, pan: F64) -> (r: Clip)
        ensures
            r == (Clip { pan, ..self }),
    {
        let mut clip = self;
        clip.pan = pan;
        clip
    }

    /// Sets the pitch shift.
    #[must_use]
    pub fn with_pitch(self, semitones: F64) -> (r: Clip)
        ensures
            r == (Clip { pitch: semitones, ..self }),
    {
        let mut clip = self;
        clip.pitch = semitones;
        clip
    }

    /// Sets the keyframed pitch.
    #[must_use]
    pub fn with_pitch_track(self, track: AnimationTrack) -> (r: Clip)
        ensures
            r == (Clip { pitch_track: Some(track), ..self }),
    {
        let mut clip = self;
        clip.pitch_track = Some(track);
        clip
    }

    /// The clip's video chain: the colour correction where it changes anything, the steps
    /// attached by hand, and the enabled video effects, in order.
    ///
    /// `starts[i]` is the value at time zero of the track that effect `i` names.
    #[must_use]
    pub fn video_effect_chain(&self, starts: &Vec<F64>) -> (r: Vec<FilterStep<AnimatedValue>>)
        requires
            starts@.len() == self.effects@.len(),
        ensures
            is_video_chain(*self, starts@, r@),
    {
        let mut chain: Vec<FilterStep<AnimatedValue>> = Vec::new();
        if !(self.brightness.same(F32 { bits: values::S_ZERO }) && self.contrast.same(
            F32 { bits: values::S_ONE },
        ) && self.saturation.same(F32 { bits: values::S_ONE })) {
            chain.push(
                FilterStep::Eq {
                    brightness: self.brightness,
                    contrast: self.contrast,
                    saturation: self.saturation,
                    temperature: F32 { bits: values::S_ZERO },
                    tint: F32 { bits: values::S_ZERO },
                },
            );
        }
        assert(chain@ =~= color_steps(*self));
        append_steps(&mut chain, &self.video_effects);
        append_effects(&mut chain, &self.effects, EffectDomain::Video, starts);
        chain
    }

    /// The clip's audio chain: the steps attached by hand, and the enabled audio effects, in
    /// order.
    #[must_use]
    pub fn audio_effect_chain(&self, starts: &Vec<F64>) -> (r: Vec<FilterStep<AnimatedValue>>)
        requires
            starts@.len() == self.effects@.len(),
        ensures
            is_audio_chain(*self, starts@, r@),
    {
        let mut chain: Vec<FilterStep<AnimatedValue>> = Vec::new();
        append_steps(&mut chain, &self.audio_effects);
        assert(chain@ =~= self.audio_effects@);
        append_effects(&mut chain, &self.effects, EffectDomain::Audio, starts);
        chain
    }
}

/// Effects compile to one chain only: any two that they compile to do the same.
pub proof fn effects_compile_to_one_chain(
    effects: Seq<ClipEffect>,
    domain: EffectDomain,
    starts: Seq<F64>,
    s: Seq<FilterStep<AnimatedValue>>,
    t: Seq<FilterStep<AnimatedValue>>,
)
    requires
        compiled_effects(effects, domain, starts, s),
        compiled_effects(effects, domain, starts, t),
    ensures
        filter::chains_alike(s, t),
    decreases effects.len(),
{
    if effects.len() > 0 {
        let last = effects.last();
        let start = starts[effects.len() - 1];
        if !last.enabled || effect::domain_of(last.kind) != domain || effect::compiles_to(
            last.kind,
            start,
            None,
        ) {
            effects_compile_to_one_chain(effects.drop_last(), domain, starts, s, t);
        } else {
            let (p, q) = (s.drop_last(), t.drop_last());
            effects_compile_to_one_chain(effects.drop_last(), domain, starts, p, q);
            effect::compiles_to_one_step(last.kind, start, s.last(), t.last());
            assert forall|i: int| #![trigger s[i]] 0 <= i < s.len() implies filter::steps_alike(
                s[i],
                t[i],
            ) by {
                if i < p.len() {
                    assert(filter::steps_alike(p[i], q[i]));
                }
            }
        }
    }
}

/// A clip has one video chain only: any two do the same.
pub proof fn video_chain_is_one(
    clip: Clip,
    starts: Seq<F64>,
    s: Seq<FilterStep<AnimatedValue>>,
    t: Seq<FilterStep<AnimatedValue>>,
)
    requires
        is_video_chain(clip, starts, s),
        is_video_chain(clip, starts, t),
    ensures
        filter::chains_alike(s, t),
{
    let lead = color_steps(clip) + clip.video_effects@;
    let n = lead.len() as int;
    let (p, q) = (s.skip(n), t.skip(n));
    effects_compile_to_one_chain(clip.effects@, EffectDomain::Video, starts, p, q);
    assert forall|i: int| #![trigger s[i]] 0 <= i < s.len() implies filter::steps_alike(
        s[i],
        t[i],
    ) by {
        if i < n {
            assert(s.take(n)[i] == t.take(n)[i]);
        } else {
            assert(filter::steps_alike(p[i - n], q[i - n]));
        }
    }
}

/// Whether an effect adds nothing to the chain of a domain: it is disabled, or of the other
/// domain.
pub open spec fn is_aside(e: ClipEffect, domain: EffectDomain) -> bool {
    !e.enabled || effect::domain_of(e.kind) != domain
}

/// An effect that is disabled or of the other domain does not matter to a chain: whatever it
/// holds, the chain is the same, and the order of the other effects stays.
pub proof fn effects_aside_do_not_matter(
    effects: Seq<ClipEffect>,
    i: int,
    e: ClipEffect,
    domain: EffectDomain,
    starts: Seq<F64>,
    steps: Seq<FilterStep<AnimatedValue>>,
)
    requires
        0 <= i < effects.len(),
        is_aside(effects[i], domain),
        is_aside(e, domain),
    ensures
        compiled_effects(effects.update(i, e), domain, starts, steps) == compiled_effects(
            effects,
            domain,
            starts,
            steps,
        ),
    decreases effects.len(),
{
    let changed = effects.update(i, e);
    if i == effects.len() - 1 {
        assert(changed.drop_last() =~= effects.drop_last());
    } else {
        assert(changed.drop_last() =~= effects.drop_last().update(i, e));
        assert(changed.last() == effects.last());
        effects_aside_do_not_matter(effects.drop_last(), i, e, domain, starts, steps);
        if steps.len() > 0 {
            effects_aside_do_not_matter(
                effects.drop_last(),
                i,
                e,
                domain,
                starts,
                steps.drop_last(),
            );
        }
    }
}

/// Two chains of the same effects have the same length: how long a chain is does not depend on
/// how its steps are spelled.
pub proof fn chains_are_as_long(
    effects: Seq<ClipEffect>,
    domain: EffectDomain,
    starts: Seq<F64>,
    a: Seq<FilterStep<AnimatedValue>>,
    b: Seq<FilterStep<AnimatedValue>>,
)
    requires
        compiled_effects(effects, domain, starts, a),
        compiled_effects(effects, domain, starts, b),
    ensures
        a.len() == b.len() <= effects.len(),
    decreases effects.len(),
{
    if effects.len() > 0 {
        let last = effects.last();
        let before = effects.drop_last();
        if is_aside(last, domain) || effect::compiles_to(
            last.kind,
            starts[effects.len() - 1],
            None,
        ) {
            chains_are_as_long(before, domain, starts, a, b);
        } else {
            chains_are_as_long(before, domain, starts, a.drop_last(), b.drop_last());
        }
    }
}

} // verus!

//! Tracks: an ordered list of clips with its editorial state.
//!
//! `mute`, `solo` and `enabled` decide whether a track contributes to the output; `lock` and
//! `name` are authoring metadata that the derivation ignores.

use std::sync::Arc;

use vstd::prelude::*;

use crate::clip::Clip;
use crate::filter::{copy_track, share, AnimatedValue, AnimationTrack, FilterStep};
use crate::ids::TrackId;

verus! {

/// A video property that a track can animate.
#[derive(Clone, Copy, Debug, PartialEq, Eq, Structural)]
pub enum VideoProperty {
    /// Horizontal position.
    X,
    /// Vertical position.
    Y,
    /// Horizontal scale.
    ScaleX,
    /// Vertical scale.
    ScaleY,
    /// Rotation.
    Rotation,
    /// Opacity.
    Opacity,
}

/// An audio property that a track can animate.
#[derive(Clone, Copy, Debug, PartialEq, Eq, Structural)]
pub enum AudioProperty {
    /// Volume in decibels.
    Volume,
    /// Stereo pan.
    Pan,
}

/// Track-level animation, one slot for each property; slots that are not used stay empty.
#[derive(Debug, PartialEq)]
pub struct TrackAutomation {
    /// Opacity.
    pub opacity: Option<AnimationTrack>,
    /// Horizontal position.
    pub x: Option<AnimationTrack>,
    /// Vertical position.
    pub y: Option<AnimationTrack>,
    /// Horizontal scale.
    pub scale_x: Option<AnimationTrack>,
    /// Vertical scale.
    pub scale_y: Option<AnimationTrack>,
    /// Rotation.
    pub rotation: Option<AnimationTrack>,
    /// Volume in decibels.
    pub volume: Option<AnimationTrack>,
    /// Stereo pan.
    pub pan: Option<AnimationTrack>,
}

impl Default for TrackAutomation {
    fn default() -> (r: Self)
        ensures
            r == no_automation(),
    {
        TrackAutomation {
            opacity: None,
            x: None,
            y: None,
            scale_x: None,
            scale_y: None,
            rotation: None,
            volume: None,
            pan: None,
        }
    }
}

/// No slot set.
pub open spec fn no_automation() -> TrackAutomation {
    TrackAutomation {
        opacity: None,
        x: None,
        y: None,
        scale_x: None,
        scale_y: None,
        rotation: None,
        volume: None,
        pan: None,
    }
}

impl Clone for TrackAutomation {
    fn clone(&self) -> (r: Self)
        ensures
            r == *self,
    {
        TrackAutomation {
            opacity: copy_track(&self.opacity),
            x: copy_track(&self.x),
            y: copy_track(&self.y),
            scale_x: copy_track(&self.scale_x),
            scale_y: copy_track(&self.scale_y),
            rotation: copy_track(&self.rotation),
            volume: copy_track(&self.volume),
            pan: copy_track(&self.pan),
        }
    }
}

/// The automation with one video slot set.
pub open spec fn with_video(
    a: TrackAutomation,
    property: VideoProperty,
    animation: AnimationTrack,
) -> TrackAutomation {
    match property {
        VideoProperty::X => TrackAutomation { x: Some(animation), ..a },
        VideoProperty::Y => TrackAutomation { y: Some(animation), ..a },
        VideoProperty::ScaleX => TrackAutomation { scale_x: Some(animation), ..a },
        VideoProperty::ScaleY => TrackAutomation { scale_y: Some(animation), ..a },
        VideoProperty::Rotation => TrackAutomation { rotation: Some(animation), ..a },
        VideoProperty::Opacity => TrackAutomation { opacity: Some(animation), ..a },
    }
}

/// The automation with one audio slot set.
pub open spec fn with_audio(
    a: TrackAutomation,
    property: AudioProperty,
    animation: AnimationTrack,
) -> TrackAutomation {
    match property {
        AudioProperty::Volume => TrackAutomation { volume: Some(animation), ..a },
        AudioProperty::Pan => TrackAutomation { pan: Some(animation), ..a },
    }
}

impl TrackAutomation {
    /// Sets the animation of a video property.
    pub fn set_video(&mut self, property: VideoProperty, animation: AnimationTrack)
        ensures
            *final(self) == with_video(*old(self), property, animation),
    {
        match property {
            VideoProperty::X => self.x = Some(animation),
            VideoProperty::Y => self.y = Some(animation),
            VideoProperty::ScaleX => self.scale_x = Some(animation),
            VideoProperty::ScaleY => self.scale_y = Some(animation),
            VideoProperty::Rotation => self.rotation = Some(animation),
            VideoProperty::Opacity => self.opacity = Some(animation),
        }
    }

    /// Sets the animation of an audio property.
    pub fn set_audio(&mut self, property: AudioProperty, animation: AnimationTrack)
        ensures
            *final(self) == with_audio(*old(self), property, animation),
    {
        match property {
            AudioProperty::Volume => self.volume = Some(animation),
            AudioProperty::Pan => self.pan = Some(animation),
        }
    }
}

/// An ordered list of clips and its editorial state.
#[derive(Debug, PartialEq)]
pub struct Track {
    /// Identity, assigned by the document.
    pub id: TrackId,
    /// Name, for people.
    pub name: String,
    /// Whether the track is silenced.
    pub mute: bool,
    /// Whether only soloed tracks of the list contribute.
    pub solo: bool,
    /// Whether the track takes part at all.
    pub enabled: bool,
    /// Whether the track is protected from edits; the derivation ignores it.
    pub lock: bool,
    /// The clips, in order.
    pub clips: Vec<Clip>,
    /// The audio chain that the track's mix runs through before it enters the whole.
    pub audio_effects: Arc<Vec<FilterStep<AnimatedValue>>>,
    /// Track-level animation.
    pub automation: TrackAutomation,
}

/// What a track holds.
pub struct TrackState {
    pub id: TrackId,
    pub name: Seq<char>,
    pub mute: bool,
    pub solo: bool,
    pub enabled: bool,
    pub lock: bool,
    pub clips: Seq<Clip>,
    pub audio_effects: Seq<FilterStep<AnimatedValue>>,
    pub automation: TrackAutomation,
}

impl View for Track {
    type V = TrackState;

    open spec fn view(&self) -> TrackState {
        TrackState {
            id: self.id,
            name: self.name@,
            mute: self.mute,
            solo: self.solo,
            enabled: self.enabled,
            lock: self.lock,
            clips: self.clips@,
            audio_effects: self.audio_effects@,
            automation: self.automation,
        }
    }
}

/// What a list of tracks holds.
pub open spec fn states(tracks: Seq<Track>) -> Seq<TrackState> {
    Seq::new(tracks.len(), |i: int| tracks[i]@)
}

/// Copies a list of clips.
pub fn copy_clips(clips: &Vec<Clip>) -> (r: Vec<Clip>)
    ensures
        r@ == clips@,
{
    let mut copy: Vec<Clip> = Vec::new();
    let mut i: usize = 0;
    while i < clips.len()
        invariant
            i <= clips@.len(),
            copy@ =~= clips@.take(i as int),
        decreases clips@.len() - i,
    {
        copy.push(clips[i].clone());
        i = i + 1;
    }
    assert(clips@.take(i as int) =~= clips@);
    copy
}

impl Clone for Track {
    fn clone(&self) -> (r: Self)
        ensures
            r@ == self@,
    {
        Track {
            id: self.id,
            name: self.name.clone(),
            mute: self.mute,
            solo: self.solo,
            enabled: self.enabled,
            lock: self.lock,
            clips: copy_clips(&self.clips),
            audio_effects: share(&self.audio_effects),
            automation: self.automation.clone(),
        }
    }
}

/// Copies a list of tracks.
pub fn copy_tracks(tracks: &Vec<Track>) -> (r: Vec<Track>)
    ensures
        states(r@) == states(tracks@),
{
    let mut copy: Vec<Track> = Vec::new();
    let mut i: usize = 0;
    while i < tracks.len()
        invariant
            i <= tracks@.len(),
            copy@.len() == i,
            forall|j: int| 0 <= j < i ==> (#[trigger] copy@[j])@ == tracks@[j]@,
        decreases tracks@.len() - i,
    {
        copy.push(tracks[i].clone());
        i = i + 1;
    }
    assert(states(copy@) =~= states(tracks@));
    copy
}

/// Whether a track contributes to the output: it is enabled and not muted, and soloed where
/// any track of its list is.
pub open spec fn active(track: TrackState, any_solo_in_list: bool) -> bool {
    track.enabled && !track.mute && (!any_solo_in_list || track.solo)
}

/// Whether any track of the list is soloed.
pub open spec fn any_solo(tracks: Seq<TrackState>) -> bool {
    exists|i: int| 0 <= i < tracks.len() && (#[trigger] tracks[i]).solo
}

/// Whether any track of the list is soloed.
pub fn has_solo(tracks: &Vec<Track>) -> (r: bool)
    ensures
        r == any_solo(states(tracks@)),
{
    let mut i: usize = 0;
    while i < tracks.len()
        invariant
            i <= tracks@.len(),
            forall|j: int| 0 <= j < i ==> !(#[trigger] states(tracks@)[j]).solo,
        decreases tracks@.len() - i,
    {
        if tracks[i].solo {
            assert(states(tracks@)[i as int].solo);
            return true;
        }
        i = i + 1;
    }
    false
}

impl Track {
    /// An enabled, unnamed track with its id unset.
    #[must_use]
    pub fn new(clips: Vec<Clip>) -> (r: Track)
        ensures
            r.clips == clips,
            r.id == TrackId(0),
            r.name@ == Seq::<char>::empty(),
            !r.mute && !r.solo && r.enabled && !r.lock,
            r.audio_effects@.len() == 0,
            r.automation == no_automation(),
    {
        Track {
            id: TrackId::unset(),
            name: String::new(),
            mute: false,
            solo: false,
            enabled: true,
            lock: false,
            clips,
            audio_effects: Arc::new(Vec::new()),
            automation: TrackAutomation::default(),
        }
    }

    /// Sets the name.
    #[must_use]
    pub fn name(self, name: String) -> (r: Track)
        ensures
            r == (Track { name, ..self }),
    {
        let mut track = self;
        track.name = name;
        track
    }

    /// Sets the `mute` flag.
    #[must_use]
    pub fn muted(self, mute: bool) -> (r: Track)
        ensures
            r == (Track { mute, ..self }),
    {
        let mut track = self;
        track.mute = mute;
        track
    }

    /// Sets the `solo` flag.
    #[must_use]
    pub fn soloed(self, solo: bool) -> (r: Track)
        ensures
            r == (Track { solo, ..self }),
    {
        let mut track = self;
        track.solo = solo;
        track
    }

    /// Sets the `enabled` flag.
    #[must_use]
    pub fn enabled(self, enabled: bool) -> (r: Track)
        ensures
            r == (Track { enabled, ..self }),
    {
        let mut track = self;
        track.enabled = enabled;
        track
    }

    /// Sets the `lock` flag.
    #[must_use]
    pub fn locked(self, lock: bool) -> (r: Track)
        ensures
            r == (Track { lock, ..self }),
    {
        let mut track = self;
        track.lock = lock;
        track
    }

    /// Sets the audio chain.
    #[must_use]
    pub fn audio_effects(self, steps: Vec<FilterStep<AnimatedValue>>) -> (r: Track)
        ensures
            r == (Track { audio_effects: Arc::new(steps), ..self }),
    {
        let mut track = self;
        track.audio_effects = Arc::new(steps);
        track
    }

    /// Sets the opacity animation.
    #[must_use]
    pub fn with_opacity_animation(self, animation: AnimationTrack) -> (r: Track)
        ensures
            r == (Track {
                automation: TrackAutomation { opacity: Some(animation), ..self.automation },
                ..self
            }),
    {
        let mut track = self;
        track.automation.opacity = Some(animation);
        track
    }

    /// Sets the horizontal position animation.
    #[must_use]
    pub fn with_x_animation(self, animation: AnimationTrack) -> (r: Track)
        ensures
            r == (Track {
                automation: TrackAutomation { x: Some(animation), ..self.automation },
                ..self
            }),
    {
        let mut track = self;
        track.automation.x = Some(animation);
        track
    }

    /// Sets the vertical position animation.
    #[must_use]
    pub fn with_y_animation(self, animation: AnimationTrack) -> (r: Track)
        ensures
            r == (Track {
                automation: TrackAutomation { y: Some(animation), ..self.automation },
                ..self
            }),
    {
        let mut track = self;
        track.automation.y = Some(animation);
        track
    }

    /// Sets the horizontal scale animation.
    #[must_use]
    pub fn with_scale_x_animation(self, animation: AnimationTrack) -> (r: Track)
        ensures
            r == (Track {
                automation: TrackAutomation { scale_x: Some(animation), ..self.automation },
                ..self
            }),
    {
        let mut track = self;
        track.automation.scale_x = Some(animation);
        track
    }

    /// Sets the vertical scale animation.
    #[must_use]
    pub fn with_scale_y_animation(self, animation: AnimationTrack) -> (r: Track)
        ensures
            r == (Track {
                automation: TrackAutomation { scale_y: Some(animation), ..self.automation },
                ..self
            }),
    {
        let mut track = self;
        track.automation.scale_y = Some(animation);
        track
    }

    /// Sets the rotation animation.
    #[must_use]
    pub fn with_rotation_animation(self, animation: AnimationTrack) -> (r: Track)
        ensures
            r == (Track {
                automation: TrackAutomation { rotation: Some(animation), ..self.automation },
                ..self
            }),
    {
        let mut track = self;
        track.automation.rotation = Some(animation);
        track
    }

    /// Sets the volume in decibels animation.
    #[must_use]
    pub fn with_volume_animation(self, animation: AnimationTrack) -> (r: Track)
        ensures
            r == (Track {
                automation: TrackAutomation { volume: Some(animation), ..self.automation },
                ..self
            }),
    {
        let mut track = self;
        track.automation.volume = Some(animation);
        track
    }

    /// Sets the stereo pan animation.
    #[must_use]
    pub fn with_pan_animation(self, animation: AnimationTrack) -> (r: Track)
        ensures
            r == (Track {
                automation: TrackAutomation { pan: Some(animation), ..self.automation },
                ..self
            }),
    {
        let mut track = self;
        track.automation.pan = Some(animation);
        track
    }

    /// Whether this track contributes to the output, given whether any track of its own list
    /// is soloed.
    pub fn is_active(&self, any_solo_in_list: bool) -> (r: bool)
        ensures
            r == active(self@, any_solo_in_list),
    {
        self.enabled && !self.mute && (!any_solo_in_list || self.solo)
    }
}

} // verus!

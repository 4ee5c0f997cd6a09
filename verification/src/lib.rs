//! The editing model of a video toolkit.
//!
//! A [`Timeline`](timeline::Timeline) is a document of tracks, clips and markers.
//! [`edit::apply`] turns it into another one by a command, and an [`Editor`](editor::Editor)
//! keeps the versions. From a document come the layers and the mix of an export
//! ([`derive`], [`render`]), the scene of a preview ([`scene`]), and what a GPU can take over of
//! both ([`gpu`], [`gpu_compositor`], [`gpu_transition`], [`gpu_export`]).
//!
//! Nothing here opens a file, runs a filter or touches a GPU. What such work finds comes in as
//! plain values, and what is to be done goes out as plain values. Numbers with a fraction are
//! bit patterns of the IEEE formats, computed on by [`float`]; keyframes are carried along, and
//! their values at a time come from outside.

pub mod authoring;
pub mod cadence;
pub mod clip;
pub mod derive;
pub mod description;
pub mod edit;
pub mod editor;
pub mod effect;
pub mod error;
pub mod fidelity;
pub mod filter;
pub mod float;
pub mod gpu;
pub mod gpu_compositor;
pub mod gpu_export;
pub mod gpu_transition;
pub mod grading;
pub mod ids;
pub mod keys;
pub mod laws;
pub mod lineage;
pub mod marker;
pub mod planning;
pub mod render;
pub mod rendering;
pub mod sampling;
pub mod scene;
pub mod seating;
pub mod stacking;
pub mod time;
pub mod timeline;
pub mod timing;
pub mod track;
pub mod transition;
pub mod validate;

pub use crate::clip::{Clip, ClipSource, FitMode};
pub use crate::edit::{apply, ClipProperty, Command, EditError};
pub use crate::editor::Editor;
pub use crate::effect::{
    ClipEffect, EffectDescriptor, EffectDomain, EffectKind, Param, ParamDescriptor, ParamValue,
};
pub use crate::error::TimelineError;
pub use crate::gpu::{
    map_scene, GpuEffect, GpuFallback, GpuLayerPlan, GpuLayerSource, GpuMapping, GpuScenePlan,
};
pub use crate::gpu_compositor::GpuCompositor;
pub use crate::gpu_transition::{map_transition, GpuTransition};
pub use crate::ids::{ClipId, EffectId, GroupId, MarkerId, TrackId, TrackKind};
pub use crate::marker::Marker;
pub use crate::time::Duration;
pub use crate::timeline::{Timeline, TimelineBuilder};
pub use crate::track::{AudioProperty, Track, TrackAutomation, VideoProperty};
pub use crate::validate::TimelineIssue;

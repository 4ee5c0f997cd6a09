//! Which GPU node renders a cross-fade.
//!
//! A kind with no node maps to `None`: that transition stays on the CPU.

use vstd::prelude::*;

use crate::filter::{Rgb, XfadeTransition};
use crate::float::single::F32;
use crate::float::values;

verus! {

/// The GPU node that renders a cross-fade, with its fixed geometry. Progress and the incoming
/// frame come with each call.
#[derive(Clone, Copy, Debug, PartialEq, Eq, Structural)]
pub enum GpuTransition {
    /// Linear cross-blend.
    Fade,
    /// Per-pixel threshold reveal.
    Dissolve,
    /// Directional wipe. The angle, in radians, points at the edge that the incoming frame grows
    /// from, which is opposite to where the wipe's name says the edge sweeps.
    Wipe { angle: F32 },
    /// Dip through a solid colour.
    Dip { color: Rgb },
}

/// A wipe whose incoming frame grows from where the pattern `bits` points.
pub open spec fn wipe(bits: u32) -> Option<GpuTransition> {
    Some(GpuTransition::Wipe { angle: F32 { bits } })
}

/// A dip through the grey with the pattern `bits` in each channel.
pub open spec fn dip(bits: u32) -> Option<GpuTransition> {
    Some(
        GpuTransition::Dip {
            color: Rgb { r: F32 { bits }, g: F32 { bits }, b: F32 { bits } },
        },
    )
}

/// The node of a kind.
pub open spec fn node_of(kind: XfadeTransition) -> Option<GpuTransition> {
    match kind {
        XfadeTransition::Fade => Some(GpuTransition::Fade),
        XfadeTransition::Dissolve => Some(GpuTransition::Dissolve),
        XfadeTransition::WipeRight => wipe(values::S_PI),
        XfadeTransition::WipeLeft => wipe(values::S_ZERO),
        XfadeTransition::WipeDown => wipe(values::S_MINUS_QUARTER_TURN),
        XfadeTransition::WipeUp => wipe(values::S_QUARTER_TURN),
        XfadeTransition::FadeBlack => dip(values::S_ZERO),
        XfadeTransition::FadeWhite => dip(values::S_ONE),
        _ => None,
    }
}

fn grey(bits: u32) -> (r: Rgb)
    ensures
        Some(GpuTransition::Dip { color: r }) == dip(bits),
{
    Rgb { r: F32 { bits }, g: F32 { bits }, b: F32 { bits } }
}

/// The GPU node for `kind`, or `None` where it has none and stays on the CPU.
pub fn map_transition(kind: XfadeTransition) -> (r: Option<GpuTransition>)
    ensures
        r == node_of(kind),
{
    match kind {
        XfadeTransition::Fade => Some(GpuTransition::Fade),
        XfadeTransition::Dissolve => Some(GpuTransition::Dissolve),
        XfadeTransition::WipeRight => Some(
            GpuTransition::Wipe { angle: F32 { bits: values::S_PI } },
        ),
        XfadeTransition::WipeLeft => Some(
            GpuTransition::Wipe { angle: F32 { bits: values::S_ZERO } },
        ),
        XfadeTransition::WipeDown => Some(
            GpuTransition::Wipe { angle: F32 { bits: values::S_MINUS_QUARTER_TURN } },
        ),
        XfadeTransition::WipeUp => Some(
            GpuTransition::Wipe { angle: F32 { bits: values::S_QUARTER_TURN } },
        ),
        XfadeTransition::FadeBlack => Some(GpuTransition::Dip { color: grey(values::S_ZERO) }),
        XfadeTransition::FadeWhite => Some(GpuTransition::Dip { color: grey(values::S_ONE) }),
        _ => None,
    }
}

/// No two kinds share a node: what maps can be told apart.
pub proof fn nodes_are_distinct(a: XfadeTransition, b: XfadeTransition)
    requires
        node_of(a) is Some,
        node_of(a) == node_of(b),
    ensures
        a == b,
{
}

} // verus!

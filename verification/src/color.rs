//! Color tags: presentation hints carried by entities and log entries.
//!
//! The simulation never reads them; the rendering collaborator maps each tag
//! to a concrete color.

use vstd::prelude::*;

verus! {

/// The palette the kernel tags entities and messages with.
#[derive(Clone, Copy, PartialEq, Eq, Structural, Debug)]
pub enum ColorTag {
    White,
    Red,
    Green,
    Yellow,
    Violet,
    LightViolet,
    LightGreen,
    LightCyan,
    LightBlue,
    Orange,
    Sky,
    DarkerOrange,
    LightYellow,
    DesaturatedGreen,
    DarkerGreen,
    DarkRed,
}

} // verus!

//! Static presentation configuration, supplied by a loader outside the
//! library.

use vstd::prelude::*;
use crate::color::FrameColor;

verus! {

/// What the configuration loader hands the overlay: how to colour the
/// frame outline and whether to draw the clock column.
#[derive(Debug, Clone, Copy, PartialEq, Eq, Structural)]
pub struct Config {
    pub frame_color: FrameColor,
    pub show_clock: bool,
}

impl Config {
    /// The configuration used when no file is given: no outline colour,
    /// clock shown.
    pub fn default_config() -> (c: Config)
        ensures
            c.frame_color == FrameColor::NoColor,
            c.show_clock,
    {
        Config { frame_color: FrameColor::NoColor, show_clock: true }
    }
}

} // verus!

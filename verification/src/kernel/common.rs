//! What is the same on every system.

use vstd::prelude::*;

verus! {

/// The colour depth of a terminal.
#[derive(Debug, Clone, Copy, PartialEq, Eq, Structural)]
pub enum ColorSupport {
    /// The terminal shows no colour.
    NoColor,
    /// The terminal shows the 8 or 16 basic colours.
    Default,
    /// The terminal shows 256 colours.
    Colors256,
    /// The terminal shows 24-bit colours.
    TrueColor,
}

} // verus!

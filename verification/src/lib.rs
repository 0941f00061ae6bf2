//! Chaos-game fractal sampling.
//!
//! A trajectory jumps again and again towards a randomly chosen anchor of a
//! fixed point set. This crate holds the integer core of that process: the
//! seeded generators, the policies that pick the next anchor, the index
//! arithmetic of product anchor spaces, the raster bookkeeping that turns
//! samples into an image, and the numbers that a program reads from its
//! command line and its scripts.

use vstd::prelude::*;

pub mod args;
pub mod rules;
pub mod script;
pub mod world;

verus! {

/// Red channel of the background, as a display byte.
pub const BACKGROUND_RED: u8 = 11;

/// Green channel of the background, as a display byte.
pub const BACKGROUND_GREEN: u8 = 11;

/// Blue channel of the background, as a display byte.
pub const BACKGROUND_BLUE: u8 = 11;

/// Alpha channel of every pixel written by this crate.
pub const OPAQUE: u8 = 255;

} // verus!

//! The raster side: the published image, the accumulator grid and the
//! bookkeeping of a sampling worker.

use vstd::prelude::*;
use crate::{BACKGROUND_RED, BACKGROUND_GREEN, BACKGROUND_BLUE, OPAQUE};

pub mod image;
pub mod state;
pub mod worker;

pub use image::Image;
pub use state::State;
pub use worker::{
    Control,
    Delivery,
    Event,
    Handoff,
    Plan,
    Schedule,
    Step,
    WorkerState,
    push_history,
};

verus! {

/// The byte that a background frame holds at position `i`.
pub open spec fn background_byte(i: int) -> u8 {
    if i % 4 == 0 {
        BACKGROUND_RED
    } else if i % 4 == 1 {
        BACKGROUND_GREEN
    } else if i % 4 == 2 {
        BACKGROUND_BLUE
    } else {
        OPAQUE
    }
}

/// An RGBA frame of `cells` pixels, all of them background.
pub open spec fn background_frame(cells: nat) -> Seq<u8> {
    Seq::new(4 * cells, |i: int| background_byte(i))
}

/// The frame after all its complete four-byte pixels were painted as
/// background; bytes behind the last complete pixel stay.
pub open spec fn painted_background(frame: Seq<u8>) -> Seq<u8> {
    Seq::new(
        frame.len(),
        |i: int|
            if i < frame.len() - frame.len() % 4 {
                background_byte(i)
            } else {
                frame[i]
            },
    )
}

/// Paints every complete four-byte pixel of the frame as background.
pub fn paint_background(frame: &mut [u8])
    ensures
        final(frame)@ == painted_background(old(frame)@),
{
    let whole: usize = frame.len() - frame.len() % 4;
    let mut at: usize = 0;
    while at < whole
        invariant
            at <= whole,
            at % 4 == 0,
            whole == frame@.len() - frame@.len() % 4,
            frame@.len() == old(frame)@.len(),
            forall|j: int| 0 <= j < at ==> frame@[j] == background_byte(j),
            forall|j: int| at <= j < frame@.len() ==> frame@[j] == old(frame)@[j],
        decreases whole - at,
    {
        frame[at] = BACKGROUND_RED;
        frame[at + 1] = BACKGROUND_GREEN;
        frame[at + 2] = BACKGROUND_BLUE;
        frame[at + 3] = OPAQUE;
        at += 4;
    }
    assert(frame@ =~= painted_background(old(frame)@));
}

} // verus!

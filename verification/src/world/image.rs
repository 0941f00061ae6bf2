//! The rendered RGBA buffer that the foreground reads.

use vstd::prelude::*;
use crate::{BACKGROUND_RED, BACKGROUND_GREEN, BACKGROUND_BLUE, OPAQUE};
use crate::world::{background_frame, painted_background, paint_background};

verus! {

/// A rendered frame: four bytes per pixel, row by row, and the number of
/// steps that went into it.
pub struct Image {
    pub pixels: Vec<u8>,
    pub steps: usize,
    pub width: usize,
    pub height: usize,
}

impl Image {
    /// Whether the frame is all background and counts no step, as a frame
    /// is before the first render.
    pub open spec fn untouched(&self) -> bool {
        &&& self.steps == 0
        &&& self.pixels@ == background_frame((self.width * self.height) as nat)
    }

    /// What a frame holds after this image was drawn into it for a viewer
    /// of the given size: the image's bytes where size and length agree,
    /// and background in every complete pixel otherwise.
    pub open spec fn drawn(&self, width: usize, height: usize, frame: Seq<u8>) -> Seq<u8> {
        if self.width == width && self.height == height && frame.len() == self.pixels@.len() {
            self.pixels@
        } else {
            painted_background(frame)
        }
    }

    /// A frame of `width` by `height` background pixels that no step has
    /// touched yet.
    pub fn empty(width: usize, height: usize) -> (image: Image)
        requires
            width * height * 4 <= usize::MAX,
        ensures
            image.pixels@ == background_frame((width * height) as nat),
            image.steps == 0,
            image.width == width,
            image.height == height,
            image.untouched(),
    {
        assert(width * height <= width * height * 4) by (nonlinear_arith);
        let cells: usize = width * height;
        let mut pixels: Vec<u8> = Vec::with_capacity(cells * 4);
        let mut done: usize = 0;
        while done < cells
            invariant
                done <= cells,
                cells * 4 <= usize::MAX,
                pixels@ == background_frame(done as nat),
            decreases cells - done,
        {
            pixels.push(BACKGROUND_RED);
            pixels.push(BACKGROUND_GREEN);
            pixels.push(BACKGROUND_BLUE);
            pixels.push(OPAQUE);
            done += 1;
            assert(pixels@ =~= background_frame(done as nat));
        }
        Image { pixels, steps: 0, width, height }
    }

    /// Draws the image into the frame of a viewer that believes the canvas
    /// to be `width` by `height`. A viewer of another size, or a frame of
    /// another length, gets background instead of a stale picture.
    pub fn draw(&self, width: usize, height: usize, frame: &mut [u8])
        ensures
            final(frame)@ == self.drawn(width, height, old(frame)@),
    {
        if self.width == width && self.height == height && frame.len() == self.pixels.len() {
            let len: usize = frame.len();
            let mut i: usize = 0;
            while i < len
                invariant
                    i <= len,
                    len == frame@.len(),
                    len == self.pixels@.len(),
                    forall|j: int| 0 <= j < i ==> frame@[j] == self.pixels@[j],
                decreases len - i,
            {
                frame[i] = self.pixels[i];
                i += 1;
            }
            assert(frame@ =~= self.pixels@);
        } else {
            paint_background(frame);
        }
    }
}

/// An image that no step has touched shows as background to every viewer:
/// whatever size the viewer believes in and whatever the frame held, each
/// complete pixel of the frame is background afterwards.
pub proof fn lemma_untouched_image_draws_background(
    image: Image,
    width: usize,
    height: usize,
    frame: Seq<u8>,
)
    requires
        image.untouched(),
    ensures
        image.drawn(width, height, frame) == painted_background(frame),
{
    if image.width == width && image.height == height && frame.len() == image.pixels@.len() {
        assert(image.pixels@ =~= painted_background(frame));
    }
}

} // verus!

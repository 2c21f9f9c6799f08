//! Drawing a chunk of input on an image of the `image` crate, as the fast
//! encoder does, one frame at a time.
use vstd::prelude::*;
use image::{ImageBuffer, Rgb};
use crate::layout::{lemma_frame_constants, FRAME_BYTES, FRAME_PAYLOAD, HEIGHT, WIDTH};
use crate::render::{draw_chunk, painted, Canvas};

verus! {

/// An RGB image of the `image` crate with 8-bit samples. The image is held
/// in a private field: the logic reads it only through the names and
/// functions below.
#[verifier::external_body]
pub struct Frame {
    image: ImageBuffer<Rgb<u8>, Vec<u8>>,
}

/// The samples of `frame`, row by row, three per pixel (red, green, blue).
pub uninterp spec fn frame_samples(frame: Frame) -> Seq<u8>;

/// The width and height of `frame`, in pixels, as it was made.
pub uninterp spec fn frame_dimensions(frame: Frame) -> (u32, u32);

/// Calls `ImageBuffer::new`. Its source computes `3 * width`, then that
/// times `height`, panicking when either product overflows `usize`;
/// otherwise it allocates that many samples, all zero, and keeps the
/// dimensions it was given.
#[verifier::external_body]
fn new_frame(width: u32, height: u32) -> (frame: Frame)
    requires
        3 * width <= usize::MAX,
        3 * width * height <= usize::MAX,
    ensures
        frame_dimensions(frame) == (width, height),
        frame_samples(frame) == Seq::new((3 * width * height) as nat, |i: int| 0u8),
{
    Frame { image: ImageBuffer::new(width, height) }
}

/// Calls `ImageBuffer::put_pixel`. Its source panics outside the image;
/// inside, it overwrites the three samples of pixel `(x, y)`, which start
/// at `(y * width + x) * 3`, with the pixel's channels, and changes nothing
/// else.
#[verifier::external_body]
fn put_rgb(frame: &mut Frame, x: u32, y: u32, color: [u8; 3])
    requires
        x < frame_dimensions(*old(frame)).0,
        y < frame_dimensions(*old(frame)).1,
    ensures
        frame_dimensions(*final(frame)) == frame_dimensions(*old(frame)),
        frame_samples(*final(frame)) == ({
            let at = (y * frame_dimensions(*old(frame)).0 + x) * 3;
            frame_samples(*old(frame)).update(at, color[0]).update(at + 1, color[1]).update(
                at + 2,
                color[2],
            )
        }),
{
    frame.image.put_pixel(x, y, Rgb(color));
}

/// Calls `ImageBuffer::into_raw`, which hands back the image's sample
/// vector as it stands.
#[verifier::external_body]
fn into_samples(frame: Frame) -> (samples: Vec<u8>)
    ensures
        samples@ == frame_samples(frame),
{
    frame.image.into_raw()
}

/// The frame's invariant while the encoder draws on it.
pub open spec fn full_frame(frame: Frame) -> bool {
    &&& frame_dimensions(frame) == (WIDTH as u32, HEIGHT as u32)
    &&& frame_samples(frame).len() == FRAME_BYTES
}

/// An image of `WIDTH` by `HEIGHT` pixels is a canvas.
impl Canvas for Frame {
    open spec fn samples(&self) -> Seq<u8> {
        frame_samples(*self)
    }

    open spec fn ready(&self) -> bool {
        full_frame(*self)
    }

    fn put_gray(&mut self, x: u32, y: u32, shade: u8) {
        put_rgb(self, x, y, [shade, shade, shade]);
    }
}

/// Draws `chunk` on a new black frame of `WIDTH` by `HEIGHT` pixels, as the
/// fast encoder does for one frame (see `draw_chunk`), and returns the
/// frame's RGB samples: bit `b` of byte `j` becomes a square at
/// `square_left(j, b)`, `square_top(j)`, white when the bit is set and black
/// otherwise; every other sample is zero.
pub fn render_frame(chunk: &[u8]) -> (samples: Vec<u8>)
    requires
        chunk@.len() <= FRAME_PAYLOAD,
    ensures
        samples@ == painted(Seq::new(FRAME_BYTES as nat, |i: int| 0u8), chunk@),
{
    proof {
        lemma_frame_constants();
    }
    let mut frame = new_frame(WIDTH as u32, HEIGHT as u32);
    assert(frame_samples(frame) =~= Seq::new(FRAME_BYTES as nat, |i: int| 0u8));
    draw_chunk(&mut frame, chunk);
    into_samples(frame)
}

} // verus!

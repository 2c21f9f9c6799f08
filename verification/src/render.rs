//! Drawing the bits of a chunk of input as black and white squares on a
//! frame of raw RGB samples.
use vstd::prelude::*;
use crate::layout::{
    in_rect, lemma_frame_constants, lemma_square_owner, pixel_bit, pixel_byte, pixel_x, pixel_y,
    square_left, square_top, FRAME_BYTES, FRAME_PAYLOAD, HEIGHT, SQUARE_H, SQUARE_W, WIDTH,
};

verus! {

/// Whether bit `bit` (0 is the least significant) of `byte` is set.
pub open spec fn bit_is_set(byte: u8, bit: int) -> bool {
    byte & (1u8 << (bit as u8)) != 0
}

/// The sample value of the square that carries bit `bit` of `byte`:
/// white for a set bit, black otherwise.
pub open spec fn square_shade(byte: u8, bit: int) -> u8 {
    if bit_is_set(byte, bit) {
        255
    } else {
        0
    }
}

/// The RGB samples `frame` after every square of `chunk` is drawn on it:
/// each sample of a pixel that the square of a byte of `chunk` covers takes
/// that square's shade, the other samples keep their value.
pub open spec fn painted(frame: Seq<u8>, chunk: Seq<u8>) -> Seq<u8> {
    Seq::new(
        frame.len(),
        |k: int|
            {
                let p = k / 3;
                if pixel_byte(p) < chunk.len() {
                    square_shade(chunk[pixel_byte(p)], pixel_bit(p))
                } else {
                    frame[k]
                }
            },
    )
}

/// The samples `frame` with the rectangle at `(left, top)` filled with `shade`.
pub open spec fn square_painted(frame: Seq<u8>, left: int, top: int, shade: u8) -> Seq<u8> {
    Seq::new(frame.len(), |k: int| if in_rect(k / 3, left, top) { shade } else { frame[k] })
}

/// `frame` once the squares of the first `n` bits of `chunk` are drawn.
spec fn painted_upto(frame: Seq<u8>, chunk: Seq<u8>, n: int) -> Seq<u8> {
    Seq::new(
        frame.len(),
        |k: int|
            {
                let p = k / 3;
                if pixel_byte(p) * 8 + pixel_bit(p) < n {
                    square_shade(chunk[pixel_byte(p)], pixel_bit(p))
                } else {
                    frame[k]
                }
            },
    )
}

/// The part of the rectangle at `(left, top)` that lies above row `y`, or
/// on row `y` left of column `x`.
spec fn rect_done(p: int, left: int, top: int, y: int, x: int) -> bool {
    &&& left <= pixel_x(p) < left + SQUARE_W
    &&& top <= pixel_y(p)
    &&& (pixel_y(p) < y || (pixel_y(p) == y && pixel_x(p) < x))
}

proof fn lemma_pixel_index(p: int, x: int, y: int)
    requires
        0 <= p,
        0 <= x < WIDTH,
        0 <= y,
    ensures
        (pixel_y(p) == y && pixel_x(p) == x) <==> p == y * WIDTH + x,
{
}

/// The square of a bit of a chunk that fits on one frame lies on the frame.
proof fn lemma_square_bounds(byte_index: int, bit: int)
    requires
        0 <= byte_index < FRAME_PAYLOAD,
        0 <= bit < 8,
    ensures
        0 <= square_left(byte_index, bit),
        square_left(byte_index, bit) + SQUARE_W <= WIDTH,
        0 <= square_top(byte_index),
        square_top(byte_index) + SQUARE_H <= HEIGHT,
{
    lemma_frame_constants();
    assert((byte_index * 32) % 1280 == (byte_index % 40) * 32);
    assert((byte_index * 32) / 1280 == byte_index / 40);
}

/// Drawing the square of bit `n % 8` of byte `n / 8` extends the drawing
/// of the first `n` bits to the first `n + 1`.
proof fn lemma_paint_step(frame: Seq<u8>, chunk: Seq<u8>, byte_index: int, bit: int)
    requires
        frame.len() == FRAME_BYTES,
        0 <= byte_index < chunk.len(),
        0 <= bit < 8,
    ensures
        square_painted(
            painted_upto(frame, chunk, byte_index * 8 + bit),
            square_left(byte_index, bit),
            square_top(byte_index),
            square_shade(chunk[byte_index], bit),
        ) == painted_upto(frame, chunk, byte_index * 8 + bit + 1),
{
    lemma_frame_constants();
    let before = painted_upto(frame, chunk, byte_index * 8 + bit);
    let lhs = square_painted(
        before,
        square_left(byte_index, bit),
        square_top(byte_index),
        square_shade(chunk[byte_index], bit),
    );
    let rhs = painted_upto(frame, chunk, byte_index * 8 + bit + 1);
    assert forall|k: int| 0 <= k < frame.len() implies lhs[k] == rhs[k] by {
        lemma_square_owner(k / 3, byte_index, bit);
    }
    assert(lhs =~= rhs);
}

/// Drawing all `8 * chunk.len()` bits gives `painted`.
proof fn lemma_painted_all(frame: Seq<u8>, chunk: Seq<u8>)
    requires
        frame.len() == FRAME_BYTES,
    ensures
        painted_upto(frame, chunk, (chunk.len() * 8) as int) == painted(frame, chunk),
        painted_upto(frame, chunk, 0) == frame,
{
    lemma_frame_constants();
    let a = painted_upto(frame, chunk, (chunk.len() * 8) as int);
    let b = painted(frame, chunk);
    assert forall|k: int| 0 <= k < frame.len() implies a[k] == b[k] by {
        lemma_square_owner(k / 3, 0, 0);
    }
    assert(a =~= b);
    let c = painted_upto(frame, chunk, 0);
    assert forall|k: int| 0 <= k < frame.len() implies c[k] == frame[k] by {
        lemma_square_owner(k / 3, 0, 0);
    }
    assert(c =~= frame);
}

/// A frame of `WIDTH` by `HEIGHT` pixels held as RGB samples, row by row,
/// three per pixel, on which one pixel at a time can be set to a gray shade.
pub trait Canvas {
    /// The samples of the frame.
    spec fn samples(&self) -> Seq<u8>;

    /// Whether the canvas holds a whole frame that pixels can be set on.
    spec fn ready(&self) -> bool;

    /// Sets the three samples of pixel `(x, y)` to `shade` and changes
    /// nothing else.
    fn put_gray(&mut self, x: u32, y: u32, shade: u8)
        requires
            old(self).ready(),
            x < WIDTH,
            y < HEIGHT,
        ensures
            final(self).ready(),
            final(self).samples() == ({
                let at = (y * WIDTH + x) * 3;
                old(self).samples().update(at, shade).update(at + 1, shade).update(at + 2, shade)
            }),
    ;
}

/// A vector of RGB samples is a canvas when it holds exactly one frame.
impl Canvas for Vec<u8> {
    open spec fn samples(&self) -> Seq<u8> {
        self@
    }

    open spec fn ready(&self) -> bool {
        self@.len() == FRAME_BYTES
    }

    fn put_gray(&mut self, x: u32, y: u32, shade: u8) {
        proof {
            lemma_frame_constants();
        }
        let offset = (y as usize * WIDTH + x as usize) * 3;
        self.set(offset, shade);
        self.set(offset + 1, shade);
        self.set(offset + 2, shade);
    }
}

/// Setting pixel `(x, y)` of a partly filled rectangle fills it one pixel
/// further along its row.
proof fn lemma_fill_step(
    start: Seq<u8>,
    before: Seq<u8>,
    after: Seq<u8>,
    left: int,
    top: int,
    x: int,
    y: int,
    shade: u8,
)
    requires
        start.len() == FRAME_BYTES,
        before.len() == FRAME_BYTES,
        0 <= x < WIDTH,
        0 <= y < HEIGHT,
        forall|k: int|
            0 <= k < FRAME_BYTES ==> #[trigger] before[k] == if rect_done(k / 3, left, top, y, x) {
                shade
            } else {
                start[k]
            },
        after == before.update((y * WIDTH + x) * 3, shade).update((y * WIDTH + x) * 3 + 1, shade).update(
            (y * WIDTH + x) * 3 + 2,
            shade,
        ),
        left <= x < left + SQUARE_W,
        top <= y,
    ensures
        forall|k: int|
            0 <= k < FRAME_BYTES ==> #[trigger] after[k] == if rect_done(k / 3, left, top, y, x + 1) {
                shade
            } else {
                start[k]
            },
{
    lemma_frame_constants();
    let offset = (y * WIDTH + x) * 3;
    assert(offset + 3 <= FRAME_BYTES) by (nonlinear_arith)
        requires
            offset == (y * 1280 + x) * 3,
            0 <= x < 1280,
            0 <= y < 720,
            FRAME_BYTES == 2764800,
    ;
    assert forall|k: int| 0 <= k < FRAME_BYTES implies #[trigger] after[k] == if rect_done(
        k / 3,
        left,
        top,
        y,
        x + 1,
    ) {
        shade
    } else {
        start[k]
    } by {
        lemma_pixel_index(k / 3, x, y);
        if offset <= k < offset + 3 {
            assert(k / 3 == y * WIDTH + x);
        } else {
            assert(after[k] == before[k]);
            assert(k / 3 != y * WIDTH + x);
        }
    }
}

/// Fills the `SQUARE_W` by `SQUARE_H` rectangle at `(left, top)` of a
/// canvas with `shade`, pixel by pixel, row by row.
fn paint_square<C: Canvas>(canvas: &mut C, left: u32, top: u32, shade: u8)
    requires
        old(canvas).ready(),
        old(canvas).samples().len() == FRAME_BYTES,
        left + SQUARE_W <= WIDTH,
        top + SQUARE_H <= HEIGHT,
    ensures
        final(canvas).ready(),
        final(canvas).samples() == square_painted(
            old(canvas).samples(),
            left as int,
            top as int,
            shade,
        ),
{
    proof {
        lemma_frame_constants();
    }
    let ghost start = canvas.samples();
    let mut y: u32 = top;
    while y < top + SQUARE_H as u32
        invariant
            top + SQUARE_H <= HEIGHT,
            left + SQUARE_W <= WIDTH,
            top <= y <= top + SQUARE_H,
            canvas.ready(),
            canvas.samples().len() == FRAME_BYTES,
            start.len() == FRAME_BYTES,
            forall|k: int|
                0 <= k < FRAME_BYTES ==> #[trigger] canvas.samples()[k] == if rect_done(
                    k / 3,
                    left as int,
                    top as int,
                    y as int,
                    left as int,
                ) {
                    shade
                } else {
                    start[k]
                },
        decreases top + SQUARE_H - y,
    {
        let mut x: u32 = left;
        while x < left + SQUARE_W as u32
            invariant
                top + SQUARE_H <= HEIGHT,
                left + SQUARE_W <= WIDTH,
                top <= y < top + SQUARE_H,
                left <= x <= left + SQUARE_W,
                canvas.ready(),
                canvas.samples().len() == FRAME_BYTES,
                start.len() == FRAME_BYTES,
                forall|k: int|
                    0 <= k < FRAME_BYTES ==> #[trigger] canvas.samples()[k] == if rect_done(
                        k / 3,
                        left as int,
                        top as int,
                        y as int,
                        x as int,
                    ) {
                        shade
                    } else {
                        start[k]
                    },
            decreases left + SQUARE_W - x,
        {
            let ghost before = canvas.samples();
            canvas.put_gray(x, y, shade);
            proof {
                lemma_fill_step(
                    start,
                    before,
                    canvas.samples(),
                    left as int,
                    top as int,
                    x as int,
                    y as int,
                    shade,
                );
            }
            x = x + 1;
        }
        y = y + 1;
    }
    proof {
        let target = square_painted(start, left as int, top as int, shade);
        assert forall|k: int| 0 <= k < FRAME_BYTES implies canvas.samples()[k] == target[k] by {
            assert(rect_done(k / 3, left as int, top as int, y as int, left as int) == in_rect(
                k / 3,
                left as int,
                top as int,
            ));
        }
        assert(canvas.samples() =~= target);
    }
}

/// The shade of the square of bit `bit_index` of `byte`, computed as the
/// encoder does: white when `byte & (1 << bit_index)` is non-zero.
pub fn shade_of(byte: u8, bit_index: usize) -> (shade: u8)
    requires
        bit_index < 8,
    ensures
        shade == square_shade(byte, bit_index as int),
{
    let bit = (byte & (1u8 << bit_index as u8)) != 0;
    if bit {
        255
    } else {
        0
    }
}

/// Draws `chunk` on a canvas, as both encoders do for one frame: for each
/// byte `j` and each bit `b` from 0 to 7, the `SQUARE_W` by `SQUARE_H`
/// square at `square_left(j, b)`, `square_top(j)` is filled, white when the
/// bit is set and black otherwise. The samples outside these squares keep
/// their value.
pub fn draw_chunk<C: Canvas>(canvas: &mut C, chunk: &[u8])
    requires
        old(canvas).ready(),
        old(canvas).samples().len() == FRAME_BYTES,
        chunk@.len() <= FRAME_PAYLOAD,
    ensures
        final(canvas).ready(),
        final(canvas).samples() == painted(old(canvas).samples(), chunk@),
{
    proof {
        lemma_frame_constants();
        lemma_painted_all(canvas.samples(), chunk@);
    }
    let ghost start = canvas.samples();
    let mut j: usize = 0;
    while j < chunk.len()
        invariant
            j <= chunk@.len() <= FRAME_PAYLOAD,
            FRAME_PAYLOAD == 7200,
            start.len() == FRAME_BYTES,
            canvas.ready(),
            canvas.samples() == painted_upto(start, chunk@, j * 8),
        decreases chunk@.len() - j,
    {
        let byte = chunk[j];
        let mut bit_index: usize = 0;
        while bit_index < 8
            invariant
                j < chunk@.len() <= FRAME_PAYLOAD,
                FRAME_PAYLOAD == 7200,
                bit_index <= 8,
                byte == chunk@[j as int],
                start.len() == FRAME_BYTES,
                canvas.ready(),
                canvas.samples() == painted_upto(start, chunk@, j * 8 + bit_index),
            decreases 8 - bit_index,
        {
            let shade = shade_of(byte, bit_index);
            assert(j * 8 * SQUARE_W <= 7200 * 32) by (nonlinear_arith)
                requires
                    j < 7200,
            ;
            let pixel_x = ((j * 8 * SQUARE_W) % WIDTH + bit_index * SQUARE_W) as u32;
            let pixel_y = (((j * 8 * SQUARE_H) / WIDTH) * SQUARE_H) as u32;
            proof {
                lemma_square_bounds(j as int, bit_index as int);
                lemma_paint_step(start, chunk@, j as int, bit_index as int);
            }
            paint_square(canvas, pixel_x, pixel_y, shade);
            bit_index = bit_index + 1;
        }
        j = j + 1;
    }
}

/// Draws `chunk` on the raw RGB frame `buf`, as the lossless encoder does
/// for one frame (see `draw_chunk`). Returns the number of samples that the
/// frame's squares stand for, `chunk.len() * 8 * SQUARE_W * SQUARE_H * 3`.
pub fn render_chunk_into(buf: &mut Vec<u8>, chunk: &[u8]) -> (bytes_written: usize)
    requires
        old(buf)@.len() == FRAME_BYTES,
        chunk@.len() <= FRAME_PAYLOAD,
    ensures
        final(buf)@ == painted(old(buf)@, chunk@),
        bytes_written == chunk@.len() * (8 * SQUARE_W * SQUARE_H * 3),
{
    proof {
        lemma_frame_constants();
    }
    draw_chunk(buf, chunk);
    assert(chunk@.len() * 384 <= 7200 * 384) by (nonlinear_arith)
        requires
            chunk@.len() <= 7200,
    ;
    chunk.len() * (8 * SQUARE_W * SQUARE_H * 3)
}

} // verus!

//! Geometry of a video frame: how the bytes of a file are laid out as
//! black and white squares, and how a file is cut into frames.
use vstd::prelude::*;

verus! {

/// Width of a frame, in pixels.
pub const WIDTH: usize = 1280;

/// Height of a frame, in pixels.
pub const HEIGHT: usize = 720;

/// Width of the square that carries one bit, in pixels.
pub const SQUARE_W: usize = 4;

/// Height of the square that carries one bit, in pixels.
pub const SQUARE_H: usize = 4;

/// Number of squares on one frame, that is the number of bits it carries.
pub const FRAME_SIZE: usize = (WIDTH * HEIGHT) / (SQUARE_W * SQUARE_H);

/// Number of input bytes carried by one frame.
pub const FRAME_PAYLOAD: usize = FRAME_SIZE / 8;

/// Number of bytes of one raw RGB frame (three samples per pixel).
pub const FRAME_BYTES: usize = WIDTH * HEIGHT * 3;

/// The values that the constants above take.
pub proof fn lemma_frame_constants()
    ensures
        FRAME_SIZE == 57600,
        FRAME_PAYLOAD == 7200,
        FRAME_BYTES == 2764800,
{
    assert(FRAME_SIZE == 57600) by (nonlinear_arith);
    assert(FRAME_PAYLOAD == 7200) by (nonlinear_arith);
}

/// Column of pixel `p` (pixels are numbered row by row).
pub open spec fn pixel_x(p: int) -> int {
    p % (WIDTH as int)
}

/// Row of pixel `p`.
pub open spec fn pixel_y(p: int) -> int {
    p / (WIDTH as int)
}

/// Left edge of the square that carries bit `bit` of byte `byte_index`.
pub open spec fn square_left(byte_index: int, bit: int) -> int {
    (byte_index * 8 * SQUARE_W) % (WIDTH as int) + bit * SQUARE_W
}

/// Top edge of the squares that carry byte `byte_index`.
pub open spec fn square_top(byte_index: int) -> int {
    ((byte_index * 8 * SQUARE_H) / (WIDTH as int)) * SQUARE_H
}

/// Whether pixel `p` lies in the `SQUARE_W` by `SQUARE_H` rectangle whose
/// top-left corner is `(left, top)`.
pub open spec fn in_rect(p: int, left: int, top: int) -> bool {
    &&& left <= pixel_x(p) < left + SQUARE_W
    &&& top <= pixel_y(p) < top + SQUARE_H
}

/// The byte whose square covers pixel `p`.
pub open spec fn pixel_byte(p: int) -> int {
    (pixel_y(p) / (SQUARE_H as int)) * ((WIDTH as int) / ((8 * SQUARE_W) as int)) + pixel_x(p) / ((8
        * SQUARE_W) as int)
}

/// The bit (0 is the least significant) whose square covers pixel `p`.
pub open spec fn pixel_bit(p: int) -> int {
    (pixel_x(p) % ((8 * SQUARE_W) as int)) / (SQUARE_W as int)
}

/// A pixel lies in the square of bit `bit` of byte `byte_index` exactly
/// when that byte and bit are the ones that cover it.
pub proof fn lemma_square_owner(p: int, byte_index: int, bit: int)
    requires
        0 <= p < WIDTH * HEIGHT,
        0 <= byte_index,
        0 <= bit < 8,
    ensures
        in_rect(p, square_left(byte_index, bit), square_top(byte_index)) <==> (pixel_byte(p)
            == byte_index && pixel_bit(p) == bit),
        0 <= pixel_byte(p) < FRAME_PAYLOAD,
        0 <= pixel_bit(p) < 8,
{
    lemma_frame_constants();
    let x = pixel_x(p);
    let y = pixel_y(p);
    assert(0 <= x < 1280 && 0 <= y < 720);
    assert((byte_index * 32) % 1280 == (byte_index % 40) * 32);
    assert((byte_index * 32) / 1280 == byte_index / 40);
    assert(square_left(byte_index, bit) == (byte_index % 40) * 32 + bit * 4);
    assert(square_top(byte_index) == (byte_index / 40) * 4);
    assert((WIDTH as int) / ((8 * SQUARE_W) as int) == 40) by (nonlinear_arith);
    assert(pixel_byte(p) == (y / 4) * 40 + x / 32);
    assert(pixel_bit(p) == (x % 32) / 4);
}

/// Number of frames needed for a file of `file_size` bytes: one per
/// started group of `FRAME_SIZE` bits.
pub open spec fn spec_frame_count(file_size: int) -> int {
    (file_size * 8 + FRAME_SIZE - 1) / (FRAME_SIZE as int)
}

/// First byte of the file that frame `frame_index` carries.
pub open spec fn spec_chunk_start(frame_index: int) -> int {
    frame_index * FRAME_SIZE / 8
}

/// One past the last byte of the file that frame `frame_index` carries.
pub open spec fn spec_chunk_end(frame_index: int, file_size: int) -> int {
    let end = spec_chunk_start(frame_index) + FRAME_SIZE / 8;
    if end < file_size { end } else { file_size }
}

/// Number of frames that a file of `file_size` bytes takes.
pub fn frame_count(file_size: usize) -> (n: usize)
    requires
        file_size * 8 + FRAME_SIZE <= usize::MAX,
    ensures
        n == spec_frame_count(file_size as int),
{
    proof {
        lemma_frame_constants();
    }
    let num_bits = file_size * 8;
    (num_bits + FRAME_SIZE - 1) / FRAME_SIZE
}

/// The range `[start, end)` of file bytes that frame `frame_index` carries.
pub fn frame_chunk(frame_index: usize, file_size: usize) -> (range: (usize, usize))
    requires
        frame_index * FRAME_SIZE <= usize::MAX,
        spec_chunk_start(frame_index as int) <= file_size,
        file_size + FRAME_PAYLOAD <= usize::MAX,
    ensures
        range.0 == spec_chunk_start(frame_index as int),
        range.1 == spec_chunk_end(frame_index as int, file_size as int),
        range.0 <= range.1,
{
    proof {
        lemma_frame_constants();
    }
    let start = frame_index * FRAME_SIZE / 8;
    let full = start + FRAME_SIZE / 8;
    let end = if full < file_size { full } else { file_size };
    (start, end)
}

/// The frames of a file carry its bytes in order, each byte exactly once:
/// frame `i` carries `[start(i), end(i))`, these ranges are non-empty and
/// follow one another, the first starts at byte 0 and the last ends at the
/// end of the file. An empty file takes no frame.
pub proof fn lemma_frames_tile_file(file_size: nat)
    ensures
        spec_frame_count(file_size as int) == 0 <==> file_size == 0,
        spec_frame_count(file_size as int) > 0 ==> spec_chunk_start(0) == 0,
        spec_frame_count(file_size as int) > 0 ==> spec_chunk_end(
            spec_frame_count(file_size as int) - 1,
            file_size as int,
        ) == file_size,
        forall|i: int|
            0 <= i < spec_frame_count(file_size as int) ==> #[trigger] spec_chunk_start(i)
                < spec_chunk_end(i, file_size as int),
        forall|i: int|
            0 <= i && i + 1 < spec_frame_count(file_size as int) ==> #[trigger] spec_chunk_end(
                i,
                file_size as int,
            ) == spec_chunk_start(i + 1),
{
    lemma_frame_constants();
    let n = spec_frame_count(file_size as int);
    assert(n == (file_size + 7199) / 7200);
    assert forall|i: int| 0 <= i < n implies #[trigger] spec_chunk_start(i) < spec_chunk_end(
        i,
        file_size as int,
    ) by {
        assert(spec_chunk_start(i) == i * 7200);
    }
    assert forall|i: int| 0 <= i && i + 1 < n implies #[trigger] spec_chunk_end(
        i,
        file_size as int,
    ) == spec_chunk_start(i + 1) by {
        assert(spec_chunk_start(i) == i * 7200);
        assert(spec_chunk_start(i + 1) == i * 7200 + 7200);
    }
    if n > 0 {
        assert(spec_chunk_start(n - 1) == (n - 1) * 7200);
    }
}

} // verus!

//! Reading the bits back from raw RGB frames.
use vstd::prelude::*;
use crate::bits::{pack_bits, packed, pixel_bits};
use crate::layout::{
    lemma_frame_constants, lemma_square_owner, pixel_bit, pixel_byte, FRAME_BYTES, FRAME_PAYLOAD,
};
use crate::render::{bit_is_set, painted, square_shade};

verus! {

/// The bit that a pixel stands for: 1 when the mean of its three samples
/// (rounded down) is above 63, 0 otherwise.
pub open spec fn spec_pixel_to_bit(r: u8, g: u8, b: u8) -> u8 {
    if (r + g + b) / 3 > 63 {
        1
    } else {
        0
    }
}

/// A raw RGB frame after decoding in place: entry `p` of the first third
/// holds the bit of pixel `p`; the other entries keep their samples.
pub open spec fn decoded_frame(frame: Seq<u8>) -> Seq<u8> {
    Seq::new(
        frame.len(),
        |q: int|
            if q < frame.len() / 3 {
                spec_pixel_to_bit(frame[3 * q], frame[3 * q + 1], frame[3 * q + 2])
            } else {
                frame[q]
            },
    )
}

/// A stream of raw RGB frames, each decoded in place.
pub open spec fn decoded_stream(raw: Seq<u8>) -> Seq<u8> {
    Seq::new(
        raw.len(),
        |q: int|
            {
                let start = q - q % (FRAME_BYTES as int);
                decoded_frame(raw.subrange(start, start + FRAME_BYTES))[q % (FRAME_BYTES as int)]
            },
    )
}

/// The bit that the pixel with samples `r`, `g`, `b` stands for.
pub fn pixel_to_bit(r: u8, g: u8, b: u8) -> (bit: u8)
    ensures
        bit == spec_pixel_to_bit(r, g, b),
        bit == 1 <==> r + g + b >= 192,
        bit == 0 <==> r + g + b < 192,
{
    proof {
        lemma_pixel_bit_threshold(r, g, b);
    }
    if (r as u32 + g as u32 + b as u32) / 3 > 63 {
        1u8
    } else {
        0u8
    }
}

/// Decodes one raw RGB frame as the decoder does in place: the bit of
/// pixel `p` is written at entry `p`, and entries from a third of the frame
/// on keep their samples.
pub fn decode_frame(frame: &[u8]) -> (frame_bytes: Vec<u8>)
    requires
        frame@.len() % 3 == 0,
    ensures
        frame_bytes@ == decoded_frame(frame@),
{
    let mut frame_bytes: Vec<u8> = vstd::slice::slice_to_vec(frame);
    let mut i: usize = 0;
    while i < frame.len()
        invariant
            frame@.len() % 3 == 0,
            i % 3 == 0,
            i <= frame@.len(),
            frame_bytes@.len() == frame@.len(),
            forall|q: int|
                0 <= q < frame@.len() ==> #[trigger] frame_bytes@[q] == if q < i / 3 {
                    decoded_frame(frame@)[q]
                } else {
                    frame@[q]
                },
        decreases frame@.len() - i,
    {
        let r = frame[i];
        let g = frame[i + 1];
        let b = frame[i + 2];
        let val = pixel_to_bit(r, g, b);
        frame_bytes.set(i / 3, val);
        i = i + 3;
    }
    assert(frame_bytes@ =~= decoded_frame(frame@));
    frame_bytes
}

/// Decodes a stream of raw RGB frames, frame after frame, and gathers the
/// decoded frames in order.
pub fn decode_frames(raw: &[u8]) -> (bits: Vec<u8>)
    requires
        raw@.len() % (FRAME_BYTES as nat) == 0,
    ensures
        bits@ == decoded_stream(raw@),
        bits@.len() == raw@.len(),
{
    proof {
        lemma_frame_constants();
    }
    let mut bits: Vec<u8> = Vec::new();
    let mut index: usize = 0;
    while index < raw.len()
        invariant
            FRAME_BYTES == 2764800,
            raw@.len() % (FRAME_BYTES as nat) == 0,
            index % FRAME_BYTES == 0,
            index <= raw@.len(),
            bits@ =~= decoded_stream(raw@).take(index as int),
        decreases raw@.len() - index,
    {
        let frame = vstd::slice::slice_subrange(raw, index, index + FRAME_BYTES);
        let mut frame_bytes = decode_frame(frame);
        let ghost before = bits@;
        bits.append(&mut frame_bytes);
        proof {
            assert forall|q: int| index <= q < index + FRAME_BYTES implies #[trigger] bits@[q]
                == decoded_stream(raw@)[q] by {
                assert(q - q % (FRAME_BYTES as int) == index);
            }
        }
        index = index + FRAME_BYTES;
    }
    bits
}

/// Decodes a stream of raw RGB frames and packs the result into bytes,
/// eight entries a byte, least significant bit first.
pub fn decode_video_bytes(raw: &[u8]) -> (bytes: Vec<u8>)
    requires
        raw@.len() % (FRAME_BYTES as nat) == 0,
    ensures
        bytes@ == packed(decoded_stream(raw@)),
        bytes@.len() == raw@.len() / 8,
{
    let bits = decode_frames(raw);
    pack_bits(bits.as_slice())
}

/// A pixel stands for 1 exactly when the sum of its three samples is at
/// least 192 (a mean above 63), and for 0 otherwise; so a pixel that is no
/// darker than another in every sample never stands for a smaller bit.
pub proof fn lemma_pixel_bit_threshold(r: u8, g: u8, b: u8)
    ensures
        spec_pixel_to_bit(r, g, b) == 1 <==> r + g + b >= 192,
        spec_pixel_to_bit(r, g, b) == 0 <==> r + g + b < 192,
        forall|r2: u8, g2: u8, b2: u8|
            r <= r2 && g <= g2 && b <= b2 ==> spec_pixel_to_bit(r, g, b) <= #[trigger] spec_pixel_to_bit(
                r2,
                g2,
                b2,
            ),
{
    assert forall|r2: u8, g2: u8, b2: u8|
        r <= r2 && g <= g2 && b <= b2 implies spec_pixel_to_bit(r, g, b) <= #[trigger] spec_pixel_to_bit(
            r2,
            g2,
            b2,
        ) by {
        assert(r + g + b <= r2 + g2 + b2);
    }
}

/// Decoding a frame keeps its length; entry `q` of the first third is 1
/// exactly when the three samples of pixel `q` sum to at least 192, and 0
/// otherwise; every later entry is the sample that was there.
pub proof fn lemma_decoded_frame_entries(frame: Seq<u8>)
    ensures
        decoded_frame(frame).len() == frame.len(),
        forall|q: int|
            0 <= q < frame.len() / 3 ==> (#[trigger] decoded_frame(frame)[q] == 1 <==> frame[3 * q]
                + frame[3 * q + 1] + frame[3 * q + 2] >= 192),
        forall|q: int|
            0 <= q < frame.len() / 3 ==> (#[trigger] decoded_frame(frame)[q] == 0 <==> frame[3 * q]
                + frame[3 * q + 1] + frame[3 * q + 2] < 192),
        forall|q: int|
            frame.len() / 3 <= q < frame.len() ==> #[trigger] decoded_frame(frame)[q] == frame[q],
{
    assert forall|q: int| 0 <= q < frame.len() / 3 implies (#[trigger] decoded_frame(frame)[q]
        == 1 <==> frame[3 * q] + frame[3 * q + 1] + frame[3 * q + 2] >= 192) && (decoded_frame(
        frame,
    )[q] == 0 <==> frame[3 * q] + frame[3 * q + 1] + frame[3 * q + 2] < 192) by {
        lemma_pixel_bit_threshold(frame[3 * q], frame[3 * q + 1], frame[3 * q + 2]);
    }
}

/// Decoding a stream keeps its length and decodes every whole frame of it
/// on its own: the entries of frame `k` are the decoding of the samples of
/// frame `k`.
pub proof fn lemma_decoded_stream_frames(raw: Seq<u8>, k: int)
    requires
        0 <= k,
        (k + 1) * FRAME_BYTES <= raw.len(),
    ensures
        decoded_stream(raw).len() == raw.len(),
        decoded_stream(raw).subrange(k * FRAME_BYTES, (k + 1) * FRAME_BYTES) == decoded_frame(
            raw.subrange(k * FRAME_BYTES, (k + 1) * FRAME_BYTES),
        ),
{
    lemma_frame_constants();
    let lo = k * FRAME_BYTES;
    let hi = (k + 1) * FRAME_BYTES;
    assert(hi == lo + 2764800);
    let lhs = decoded_stream(raw).subrange(lo, hi);
    let rhs = decoded_frame(raw.subrange(lo, hi));
    assert forall|o: int| 0 <= o < FRAME_BYTES implies lhs[o] == rhs[o] by {
        let q = lo + o;
        vstd::arithmetic::div_mod::lemma_fundamental_div_mod_converse(q, 2764800, k, o);
    }
    assert(lhs =~= rhs);
}

/// Decoding and packing a stream of whole frames gives one byte for every
/// eight samples.
pub proof fn lemma_decoded_bytes_length(raw: Seq<u8>)
    ensures
        packed(decoded_stream(raw)).len() == raw.len() / 8,
{
}

/// Decoding reads back what rendering drew: on a black frame with `chunk`
/// drawn on it, the decoded entry of every pixel is the bit of `chunk` whose
/// square covers it (as `pixel_bits` spreads them), or 0 where no byte of
/// `chunk` reaches.
pub proof fn lemma_decode_reads_rendered_bits(chunk: Seq<u8>, p: int)
    requires
        chunk.len() <= FRAME_PAYLOAD,
        0 <= p < FRAME_BYTES / 3,
    ensures
        decoded_frame(painted(Seq::new(FRAME_BYTES as nat, |i: int| 0u8), chunk))[p] == if pixel_byte(p)
            < chunk.len() {
            pixel_bits(chunk)[pixel_byte(p) * 8 + pixel_bit(p)]
        } else {
            0u8
        },
{
    lemma_frame_constants();
    lemma_square_owner(p, 0, 0);
    let frame = painted(Seq::new(FRAME_BYTES as nat, |i: int| 0u8), chunk);
    assert((3 * p) / 3 == p && (3 * p + 1) / 3 == p && (3 * p + 2) / 3 == p);
    if pixel_byte(p) < chunk.len() {
        let byte = chunk[pixel_byte(p)];
        let bit = pixel_bit(p);
        let q = pixel_byte(p) * 8 + pixel_bit(p);
        assert(q / 8 == pixel_byte(p) && q % 8 == pixel_bit(p));
        lemma_bit_test_agrees(byte, bit as u8);
        assert(spec_pixel_to_bit(255, 255, 255) == 1);
        assert(spec_pixel_to_bit(0, 0, 0) == 0);
    }
}

/// The encoder's bit test and the spreading's bit extraction agree.
proof fn lemma_bit_test_agrees(byte: u8, bit: u8)
    requires
        bit < 8,
    ensures
        bit_is_set(byte, bit as int) <==> (byte >> bit) & 1u8 == 1u8,
        (byte >> bit) & 1u8 == 0u8 || (byte >> bit) & 1u8 == 1u8,
{
    assert(((byte & (1u8 << bit)) != 0u8) <==> ((byte >> bit) & 1u8 == 1u8)) by (bit_vector)
        requires
            bit < 8,
    ;
    assert((byte >> bit) & 1u8 == 0u8 || (byte >> bit) & 1u8 == 1u8) by (bit_vector);
}

} // verus!

//! The lossless encoder's frame loop: which part of the file each frame
//! carries, and the samples it sends for it. Reading the file and feeding
//! `ffmpeg` are left to the caller, which asks for the next range, reads
//! it and hands the bytes back.
use vstd::prelude::*;
use crate::layout::{
    frame_chunk, frame_count, lemma_frame_constants, spec_chunk_end, spec_chunk_start,
    spec_frame_count, FRAME_BYTES, FRAME_PAYLOAD, FRAME_SIZE, SQUARE_H, SQUARE_W,
};
use crate::render::{painted, render_chunk_into};

verus! {

/// The state of the lossless encoder: one RGB frame buffer that is drawn
/// on again for every frame (it is not cleared between frames), the size
/// of the file and the index of the next frame.
pub struct LosslessEncoder {
    buf: Vec<u8>,
    file_size: usize,
    next_frame: usize,
}

impl LosslessEncoder {
    /// The samples of the frame buffer.
    pub closed spec fn frame(&self) -> Seq<u8> {
        self.buf@
    }

    /// The size of the file being encoded, in bytes.
    pub closed spec fn file_size(&self) -> nat {
        self.file_size as nat
    }

    /// The index of the next frame to encode.
    pub closed spec fn next_frame(&self) -> nat {
        self.next_frame as nat
    }

    /// The encoder's invariant.
    pub closed spec fn wf(&self) -> bool {
        &&& self.buf@.len() == FRAME_BYTES
        &&& self.file_size * 8 + FRAME_SIZE <= usize::MAX
        &&& self.next_frame <= spec_frame_count(self.file_size as int)
    }

    /// An encoder for a file of `file_size` bytes, with a black frame buffer
    /// and frame 0 next.
    pub fn new(file_size: usize) -> (enc: Self)
        requires
            file_size * 8 + FRAME_SIZE <= usize::MAX,
        ensures
            enc.wf(),
            enc.frame() == Seq::new(FRAME_BYTES as nat, |i: int| 0u8),
            enc.file_size() == file_size,
            enc.next_frame() == 0,
    {
        proof {
            lemma_frame_constants();
        }
        let buf: Vec<u8> = vec![0u8; FRAME_BYTES];
        let enc = LosslessEncoder { buf, file_size, next_frame: 0 };
        assert(enc.frame() =~= Seq::new(FRAME_BYTES as nat, |i: int| 0u8));
        enc
    }

    /// The number of frames that the file takes.
    pub fn frames(&self) -> (n: usize)
        requires
            self.wf(),
        ensures
            n == spec_frame_count(self.file_size() as int),
    {
        frame_count(self.file_size)
    }

    /// The range `[start, end)` of file bytes that the next frame carries,
    /// or `None` once every frame is encoded.
    pub fn next_chunk(&self) -> (range: Option<(usize, usize)>)
        requires
            self.wf(),
        ensures
            self.next_frame() < spec_frame_count(self.file_size() as int) ==> range == Some(
                (
                    spec_chunk_start(self.next_frame() as int) as usize,
                    spec_chunk_end(self.next_frame() as int, self.file_size() as int) as usize,
                ),
            ),
            self.next_frame() >= spec_frame_count(self.file_size() as int) ==> range is None,
    {
        if self.next_frame < frame_count(self.file_size) {
            proof {
                lemma_next_frame_in_file(self.next_frame as int, self.file_size as int);
            }
            Some(frame_chunk(self.next_frame, self.file_size))
        } else {
            None
        }
    }

    /// Encodes the next frame from `chunk`, the file bytes of the range that
    /// `next_chunk` gave: draws `chunk` on the frame buffer and returns the
    /// first `chunk.len() * 8 * SQUARE_W * SQUARE_H * 3` samples of the
    /// buffer, which is what the encoder sends to `ffmpeg` for the frame.
    pub fn encode_chunk(&mut self, chunk: &[u8]) -> (samples: Vec<u8>)
        requires
            old(self).wf(),
            old(self).next_frame() < spec_frame_count(old(self).file_size() as int),
            chunk@.len() == spec_chunk_end(
                old(self).next_frame() as int,
                old(self).file_size() as int,
            ) - spec_chunk_start(old(self).next_frame() as int),
        ensures
            final(self).wf(),
            final(self).frame() == painted(old(self).frame(), chunk@),
            final(self).file_size() == old(self).file_size(),
            final(self).next_frame() == old(self).next_frame() + 1,
            samples@ == final(self).frame().take(
                chunk@.len() * (8 * SQUARE_W * SQUARE_H * 3) as int,
            ),
    {
        proof {
            lemma_frame_constants();
            lemma_next_frame_in_file(self.next_frame as int, self.file_size as int);
        }
        let bytes_written = render_chunk_into(&mut self.buf, chunk);
        self.next_frame = self.next_frame + 1;
        assert(chunk@.len() * 384 <= 7200 * 384) by (nonlinear_arith)
            requires
                chunk@.len() <= 7200,
        ;
        let written = vstd::slice::slice_subrange(self.buf.as_slice(), 0, bytes_written);
        vstd::slice::slice_to_vec(written)
    }
}

/// A frame before the last carries at most `FRAME_PAYLOAD` bytes that all
/// lie in the file.
proof fn lemma_next_frame_in_file(frame_index: int, file_size: int)
    requires
        0 <= frame_index < spec_frame_count(file_size),
        0 <= file_size,
    ensures
        frame_index * FRAME_SIZE < file_size * 8,
        spec_chunk_start(frame_index) < file_size,
        spec_chunk_end(frame_index, file_size) - spec_chunk_start(frame_index) <= FRAME_PAYLOAD,
{
    lemma_frame_constants();
    assert(spec_chunk_start(frame_index) == frame_index * 7200);
    assert(frame_index < (file_size * 8 + 57599) / 57600);
    assert(frame_index * 57600 < file_size * 8) by (nonlinear_arith)
        requires
            frame_index < (file_size * 8 + 57599) / 57600,
            0 <= frame_index,
            0 <= file_size,
    ;
}

} // verus!

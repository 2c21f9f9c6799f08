use decoderv1::encoder::LosslessEncoder;
use decoderv1::layout::FRAME_BYTES;

#[test]
fn encoder_walks_the_file() {
    let mut enc = LosslessEncoder::new(7201);
    assert_eq!(enc.frames(), 2);
    assert_eq!(enc.next_chunk(), Some((0, 7200)));
    let first = enc.encode_chunk(&vec![0xffu8; 7200]);
    assert_eq!(first.len(), FRAME_BYTES);
    assert!(first.iter().all(|&s| s == 255));
    assert_eq!(enc.next_chunk(), Some((7200, 7201)));
    let second = enc.encode_chunk(&[0u8]);
    assert_eq!(second.len(), 384);
    // the first byte's first square is black now ...
    assert_eq!(second[0], 0);
    // ... and the samples sent are the buffer's first 384, still white after them
    assert_eq!(second[383], 255);
    assert_eq!(enc.next_chunk(), None);
}

#[test]
fn empty_file_has_no_frames() {
    let enc = LosslessEncoder::new(0);
    assert_eq!(enc.frames(), 0);
    assert_eq!(enc.next_chunk(), None);
}

use decoderv1::bits::create_pixel_data;
use decoderv1::canvas::render_frame;
use decoderv1::decode::{decode_frame, decode_frames, decode_video_bytes, pixel_to_bit};
use decoderv1::layout::{FRAME_BYTES, WIDTH};

#[test]
fn pixel_to_bit_threshold() {
    assert_eq!(pixel_to_bit(255, 255, 255), 1);
    assert_eq!(pixel_to_bit(0, 0, 0), 0);
    assert_eq!(pixel_to_bit(63, 63, 63), 0);
    assert_eq!(pixel_to_bit(64, 64, 64), 1);
    assert_eq!(pixel_to_bit(64, 64, 63), 0);
    assert_eq!(pixel_to_bit(192, 0, 0), 1);
}

#[test]
fn decode_frame_in_place() {
    let frame = [255, 255, 255, 0, 0, 0, 100, 100, 100];
    assert_eq!(decode_frame(&frame), vec![1, 0, 1, 0, 0, 0, 100, 100, 100]);
}

#[test]
fn decode_frames_keeps_the_rest_of_each_frame() {
    let mut raw = vec![200u8; FRAME_BYTES * 2];
    raw[FRAME_BYTES] = 0;
    raw[FRAME_BYTES + 1] = 0;
    raw[FRAME_BYTES + 2] = 0;
    let bits = decode_frames(&raw);
    assert_eq!(bits.len(), 2 * FRAME_BYTES);
    assert_eq!(bits[0], 1);
    assert_eq!(bits[FRAME_BYTES / 3 - 1], 1);
    assert_eq!(bits[FRAME_BYTES / 3], 200);
    assert_eq!(bits[FRAME_BYTES], 0);
    assert_eq!(bits[FRAME_BYTES + 1], 1);
    assert_eq!(bits[2 * FRAME_BYTES - 1], 200);
}

#[test]
fn decode_reads_rendered_bits() {
    let chunk = [0b1010_0110u8, 0x0f];
    let frame = render_frame(&chunk);
    let decoded = decode_frame(&frame);
    let bits = create_pixel_data(&chunk);
    for b in 0..16 {
        let x = b * 4;
        assert_eq!(decoded[x], bits[b]);
        assert_eq!(decoded[3 * WIDTH + x + 3], bits[b]);
    }
    assert_eq!(decoded[64], 0);
}

#[test]
fn decode_video_bytes_packs_pixels() {
    let mut raw = vec![0u8; FRAME_BYTES];
    // pixels 0 and 2 white: bits 1, 0, 1, 0, ...
    for s in 0..3 {
        raw[s] = 255;
        raw[6 + s] = 255;
    }
    let bytes = decode_video_bytes(&raw);
    assert_eq!(bytes.len(), FRAME_BYTES / 8);
    assert_eq!(bytes[0], 0b0000_0101);
    assert_eq!(bytes[1], 0);
}

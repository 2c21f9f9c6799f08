use decoderv1::canvas::render_frame;
use decoderv1::layout::{FRAME_BYTES, WIDTH};
use decoderv1::render::{render_chunk_into, shade_of};

fn pixel(samples: &[u8], x: usize, y: usize) -> [u8; 3] {
    let at = (y * WIDTH + x) * 3;
    [samples[at], samples[at + 1], samples[at + 2]]
}

#[test]
fn shade_of_tests_the_bit() {
    assert_eq!(shade_of(0b0000_0100, 2), 255);
    assert_eq!(shade_of(0b0000_0100, 3), 0);
}

#[test]
fn render_chunk_into_draws_squares() {
    let mut buf = vec![7u8; FRAME_BYTES];
    let written = render_chunk_into(&mut buf, &[0b0000_0001, 0b1000_0000]);
    assert_eq!(written, 2 * 384);
    // bit 0 of byte 0: white square at (0..4, 0..4)
    for y in 0..4 {
        for x in 0..4 {
            assert_eq!(pixel(&buf, x, y), [255, 255, 255]);
        }
    }
    // bit 1 of byte 0: black square at (4..8, 0..4)
    assert_eq!(pixel(&buf, 4, 0), [0, 0, 0]);
    assert_eq!(pixel(&buf, 31, 3), [0, 0, 0]);
    // bit 7 of byte 1: white square at (60..64, 0..4)
    assert_eq!(pixel(&buf, 59, 0), [0, 0, 0]);
    assert_eq!(pixel(&buf, 60, 0), [255, 255, 255]);
    assert_eq!(pixel(&buf, 63, 3), [255, 255, 255]);
    // untouched samples keep their value
    assert_eq!(pixel(&buf, 64, 0), [7, 7, 7]);
    assert_eq!(pixel(&buf, 0, 4), [7, 7, 7]);
}

#[test]
fn render_frame_wraps_rows() {
    let mut chunk = vec![0u8; 41];
    chunk[40] = 0b0000_0010;
    let samples = render_frame(&chunk);
    assert_eq!(samples.len(), FRAME_BYTES);
    // byte 40 starts the second row of squares
    assert_eq!(pixel(&samples, 4, 4), [255, 255, 255]);
    assert_eq!(pixel(&samples, 7, 7), [255, 255, 255]);
    assert_eq!(pixel(&samples, 3, 4), [0, 0, 0]);
    assert_eq!(pixel(&samples, 8, 4), [0, 0, 0]);
    assert_eq!(pixel(&samples, 4, 3), [0, 0, 0]);
    assert!(samples[(8 * WIDTH) * 3..].iter().all(|&s| s == 0));
}

#[test]
fn render_frame_matches_buffer_rendering() {
    let chunk: Vec<u8> = (0..7200u32).map(|i| (i * 37 % 251) as u8).collect();
    let mut buf = vec![0u8; FRAME_BYTES];
    render_chunk_into(&mut buf, &chunk);
    assert_eq!(render_frame(&chunk), buf);
}

#[test]
fn full_chunk_reaches_last_pixel() {
    let chunk = vec![0xffu8; 7200];
    let samples = render_frame(&chunk);
    assert_eq!(pixel(&samples, 1279, 719), [255, 255, 255]);
}

#[test]
fn draw_chunk_on_a_vector() {
    let mut buf = vec![9u8; FRAME_BYTES];
    decoderv1::render::draw_chunk(&mut buf, &[0b0000_0010]);
    assert_eq!(pixel(&buf, 0, 0), [0, 0, 0]);
    assert_eq!(pixel(&buf, 4, 0), [255, 255, 255]);
    assert_eq!(pixel(&buf, 32, 0), [9, 9, 9]);
}

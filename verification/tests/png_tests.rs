use decoderv1::png::decode_png_frames;
use image::{ImageBuffer, ImageFormat, Rgb};
use std::io::Cursor;

fn png_of(width: u32, height: u32, seed: u8) -> Vec<u8> {
    let img = ImageBuffer::from_fn(width, height, |x, y| {
        Rgb([seed, x as u8, y as u8])
    });
    let mut out = Cursor::new(Vec::new());
    img.write_to(&mut out, ImageFormat::Png).unwrap();
    out.into_inner()
}

#[test]
fn decodes_pngs_in_order() {
    let pngs = vec![png_of(2, 1, 9), png_of(1, 2, 4)];
    let samples = decode_png_frames(&pngs).unwrap();
    assert_eq!(samples, vec![9, 0, 0, 9, 1, 0, 4, 0, 0, 4, 0, 1]);
}

#[test]
fn no_png_is_empty() {
    assert_eq!(decode_png_frames(&Vec::new()), Some(Vec::new()));
}

#[test]
fn bad_png_fails() {
    let pngs = vec![png_of(1, 1, 0), vec![1, 2, 3]];
    assert_eq!(decode_png_frames(&pngs), None);
}

use decoderv1::bits::{bits_to_byte, create_pixel_data, pack_bits};

#[test]
fn bits_to_byte_reads_most_significant_first() {
    assert_eq!(bits_to_byte(&[1, 0, 1]), 5);
    assert_eq!(bits_to_byte(&[1, 0, 0, 0, 0, 0, 0, 0]), 128);
    assert_eq!(bits_to_byte(&[]), 0);
}

#[test]
fn bits_to_byte_drops_bits_shifted_out() {
    assert_eq!(bits_to_byte(&[1, 0, 0, 0, 0, 0, 0, 0, 1]), 1);
}

#[test]
fn bits_to_byte_ors_in_wide_entries() {
    assert_eq!(bits_to_byte(&[3]), 3);
    assert_eq!(bits_to_byte(&[1, 2]), 2);
}

#[test]
fn create_pixel_data_spreads_least_significant_first() {
    assert_eq!(create_pixel_data(&[0b1000_0101]), vec![1, 0, 1, 0, 0, 0, 0, 1]);
    assert_eq!(
        create_pixel_data(&[0xff, 0x00]),
        vec![1, 1, 1, 1, 1, 1, 1, 1, 0, 0, 0, 0, 0, 0, 0, 0]
    );
    assert_eq!(create_pixel_data(&[]), Vec::<u8>::new());
}

#[test]
fn pack_bits_packs_least_significant_first() {
    assert_eq!(pack_bits(&[1, 0, 1, 0, 0, 0, 0, 1]), vec![0b1000_0101]);
}

#[test]
fn pack_bits_drops_partial_group() {
    assert_eq!(pack_bits(&[1, 1, 1, 1, 1, 1, 1, 1, 1, 1, 1]), vec![0xff]);
    assert_eq!(pack_bits(&[1, 1, 1]), Vec::<u8>::new());
}

#[test]
fn pack_bits_truncates_wide_entries() {
    // 3 << 7 leaves only the low bit inside the byte.
    assert_eq!(pack_bits(&[0, 0, 0, 0, 0, 0, 0, 3]), vec![0x80]);
    assert_eq!(pack_bits(&[255, 0, 0, 0, 0, 0, 0, 0]), vec![255]);
}

#[test]
fn pack_undoes_spread() {
    let input: Vec<u8> = (0u16..256).map(|b| b as u8).collect();
    assert_eq!(pack_bits(&create_pixel_data(&input)), input);
}

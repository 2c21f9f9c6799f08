use decoderv1::layout::{frame_chunk, frame_count, FRAME_BYTES, FRAME_PAYLOAD, FRAME_SIZE};

#[test]
fn constants_have_their_values() {
    assert_eq!(FRAME_SIZE, 57600);
    assert_eq!(FRAME_PAYLOAD, 7200);
    assert_eq!(FRAME_BYTES, 2764800);
}

#[test]
fn frame_count_rounds_up() {
    assert_eq!(frame_count(0), 0);
    assert_eq!(frame_count(1), 1);
    assert_eq!(frame_count(7200), 1);
    assert_eq!(frame_count(7201), 2);
    assert_eq!(frame_count(14400), 2);
}

#[test]
fn frame_chunk_ranges() {
    assert_eq!(frame_chunk(0, 7201), (0, 7200));
    assert_eq!(frame_chunk(1, 7201), (7200, 7201));
    assert_eq!(frame_chunk(0, 10), (0, 10));
    assert_eq!(frame_chunk(1, 7200), (7200, 7200));
}

#[test]
fn frames_tile_a_file() {
    for &size in &[1usize, 7199, 7200, 7201, 30000] {
        let n = frame_count(size);
        let mut next = 0;
        for i in 0..n {
            let (start, end) = frame_chunk(i, size);
            assert_eq!(start, next);
            assert!(start < end);
            next = end;
        }
        assert_eq!(next, size);
    }
}

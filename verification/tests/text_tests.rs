use decoderv1::archive::{entry_output_path, is_directory_entry};
use decoderv1::ffmpeg::{fast_encode_args, lossless_encode_args, png_extract_args, raw_decode_args};
use decoderv1::metadata::{author_metadata, last_segment, time_metadata, title_metadata};

#[test]
fn title_is_file_name() {
    assert_eq!(title_metadata("testfiles/enwik9.zip"), "title=enwik9.zip");
    assert_eq!(title_metadata("plain"), "title=plain");
    assert_eq!(title_metadata("dir/"), "title=");
}

#[test]
fn author_is_extension_of_title() {
    assert_eq!(author_metadata("title=enwik9.zip"), "author=zip");
    assert_eq!(author_metadata("title=README"), "author=title=README");
}

#[test]
fn last_segment_splits_on_last_separator() {
    assert_eq!(last_segment("a/b/c", '/'), "c");
    assert_eq!(last_segment("", '/'), "");
    assert_eq!(last_segment("é/ü", '/'), "ü");
}

#[test]
fn time_is_utc_text() {
    assert_eq!(time_metadata(0), Some("time=1970-01-01 00:00:00".to_string()));
    assert_eq!(
        time_metadata(1_700_000_000),
        Some("time=2023-11-14 22:13:20".to_string())
    );
    assert_eq!(time_metadata(i64::MAX), None);
}

#[test]
fn lossless_args() {
    let args = lossless_encode_args("title=a.txt", "author=txt", "time=t", "out.mp4");
    let expected = [
        "-y", "-framerate", "30", "-f", "rawvideo", "-pix_fmt", "rgb24", "-s", "1280x720", "-i",
        "-", "-c:v", "libx264", "-crf", "0", "-b:v", "1000M", "-maxrate", "1000M", "-bufsize",
        "1000M", "-movflags", "+faststart", "-map_metadata", "0", "-metadata", "title=a.txt",
        "-metadata", "author=txt", "-metadata", "time=t", "out.mp4",
    ];
    assert_eq!(args, expected);
}

#[test]
fn fast_args() {
    let args = fast_encode_args("title=a.txt", "author=txt", "time=t", "out.mp4");
    let expected = [
        "-y", "-framerate", "30", "-f", "rawvideo", "-pix_fmt", "rgb24", "-s", "1280x720", "-i",
        "-", "-c:v", "libx264", "-crf", "18", "-preset", "ultrafast", "-b:v", "1000M",
        "-maxrate", "1000M", "-bufsize", "1000M", "-movflags", "+faststart", "-map_metadata",
        "0", "-metadata", "title=a.txt", "-metadata", "author=txt", "-metadata", "time=t",
        "out.mp4",
    ];
    assert_eq!(args, expected);
}

#[test]
fn decode_args() {
    assert_eq!(
        raw_decode_args("in.mp4"),
        ["-i", "in.mp4", "-f", "rawvideo", "-pix_fmt", "rgb24", "-lossless", "1", "-"]
    );
    assert_eq!(
        png_extract_args("in.mp4"),
        ["-i", "in.mp4", "-c:v", "png", "-lossless", "1", "temp/temp_%03d.png"]
    );
}

#[test]
fn archive_paths() {
    assert_eq!(entry_output_path("out", "a/b.txt"), "out/a/b.txt");
    assert!(is_directory_entry("a/b/"));
    assert!(!is_directory_entry("a/b"));
    assert!(!is_directory_entry(""));
}

#[test]
fn time_entry_prefixes() {
    assert_eq!(decoderv1::metadata::time_entry("2024-01-02 03:04:05"), "time=2024-01-02 03:04:05");
}

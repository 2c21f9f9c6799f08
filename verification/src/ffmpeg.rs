//! The command lines that the encoders and decoders hand to `ffmpeg`.
use vstd::prelude::*;

verus! {

/// The texts of a list of arguments.
pub open spec fn arg_texts(args: Seq<String>) -> Seq<Seq<char>> {
    args.map_values(|a: String| a@)
}

fn push_arg(args: &mut Vec<String>, arg: &str)
    ensures
        arg_texts(final(args)@) == arg_texts(old(args)@).push(arg@),
{
    args.push(String::from_str(arg));
    proof {
        assert(arg_texts(args@) =~= arg_texts(old(args)@).push(arg@));
    }
}

/// The input side shared by both encoders: raw RGB frames of `WIDTH` by
/// `HEIGHT` pixels at 30 frames a second, read from standard input.
fn push_raw_input_args(args: &mut Vec<String>)
    ensures
        arg_texts(final(args)@) == arg_texts(old(args)@) + seq![
            "-y"@,
            "-framerate"@,
            "30"@,
            "-f"@,
            "rawvideo"@,
            "-pix_fmt"@,
            "rgb24"@,
            "-s"@,
            "1280x720"@,
            "-i"@,
            "-"@,
            "-c:v"@,
            "libx264"@,
        ],
{
    let ghost start = arg_texts(args@);
    push_arg(args, "-y");
    push_arg(args, "-framerate");
    push_arg(args, "30");
    push_arg(args, "-f");
    push_arg(args, "rawvideo");
    push_arg(args, "-pix_fmt");
    push_arg(args, "rgb24");
    push_arg(args, "-s");
    push_arg(args, "1280x720");
    push_arg(args, "-i");
    push_arg(args, "-");
    push_arg(args, "-c:v");
    push_arg(args, "libx264");
    proof {
        assert(arg_texts(args@) =~= start + seq![
            "-y"@,
            "-framerate"@,
            "30"@,
            "-f"@,
            "rawvideo"@,
            "-pix_fmt"@,
            "rgb24"@,
            "-s"@,
            "1280x720"@,
            "-i"@,
            "-"@,
            "-c:v"@,
            "libx264"@,
        ]);
    }
}

/// The output side shared by both encoders: the bit rate, a file laid out
/// for streaming, the three metadata entries and the output path.
fn push_output_args(args: &mut Vec<String>, title: &str, author: &str, time: &str, output_path: &str)
    ensures
        arg_texts(final(args)@) == arg_texts(old(args)@) + seq![
            "-b:v"@,
            "1000M"@,
            "-maxrate"@,
            "1000M"@,
            "-bufsize"@,
            "1000M"@,
            "-movflags"@,
            "+faststart"@,
            "-map_metadata"@,
            "0"@,
            "-metadata"@,
            title@,
            "-metadata"@,
            author@,
            "-metadata"@,
            time@,
            output_path@,
        ],
{
    let ghost start = arg_texts(args@);
    push_arg(args, "-b:v");
    push_arg(args, "1000M");
    push_arg(args, "-maxrate");
    push_arg(args, "1000M");
    push_arg(args, "-bufsize");
    push_arg(args, "1000M");
    push_arg(args, "-movflags");
    push_arg(args, "+faststart");
    push_arg(args, "-map_metadata");
    push_arg(args, "0");
    push_arg(args, "-metadata");
    push_arg(args, title);
    push_arg(args, "-metadata");
    push_arg(args, author);
    push_arg(args, "-metadata");
    push_arg(args, time);
    push_arg(args, output_path);
    proof {
        assert(arg_texts(args@) =~= start + seq![
            "-b:v"@,
            "1000M"@,
            "-maxrate"@,
            "1000M"@,
            "-bufsize"@,
            "1000M"@,
            "-movflags"@,
            "+faststart"@,
            "-map_metadata"@,
            "0"@,
            "-metadata"@,
            title@,
            "-metadata"@,
            author@,
            "-metadata"@,
            time@,
            output_path@,
        ]);
    }
}

/// The `ffmpeg` arguments of the lossless encoder: raw frames in, H.264 at
/// constant rate factor 0 out, with the given metadata entries.
pub fn lossless_encode_args(title: &str, author: &str, time: &str, output_path: &str) -> (args:
    Vec<String>)
    ensures
        arg_texts(args@) == seq![
            "-y"@,
            "-framerate"@,
            "30"@,
            "-f"@,
            "rawvideo"@,
            "-pix_fmt"@,
            "rgb24"@,
            "-s"@,
            "1280x720"@,
            "-i"@,
            "-"@,
            "-c:v"@,
            "libx264"@,
        ] + seq!["-crf"@, "0"@] + seq![
            "-b:v"@,
            "1000M"@,
            "-maxrate"@,
            "1000M"@,
            "-bufsize"@,
            "1000M"@,
            "-movflags"@,
            "+faststart"@,
            "-map_metadata"@,
            "0"@,
            "-metadata"@,
            title@,
            "-metadata"@,
            author@,
            "-metadata"@,
            time@,
            output_path@,
        ],
{
    let mut args: Vec<String> = Vec::new();
    proof {
        assert(arg_texts(args@) =~= Seq::<Seq<char>>::empty());
    }
    push_raw_input_args(&mut args);
    push_arg(&mut args, "-crf");
    push_arg(&mut args, "0");
    push_output_args(&mut args, title, author, time, output_path);
    args
}

/// The `ffmpeg` arguments of the fast encoder: raw frames in, H.264 at
/// constant rate factor 18 with the `ultrafast` preset out, with the given
/// metadata entries.
pub fn fast_encode_args(title: &str, author: &str, time: &str, output_path: &str) -> (args:
    Vec<String>)
    ensures
        arg_texts(args@) == seq![
            "-y"@,
            "-framerate"@,
            "30"@,
            "-f"@,
            "rawvideo"@,
            "-pix_fmt"@,
            "rgb24"@,
            "-s"@,
            "1280x720"@,
            "-i"@,
            "-"@,
            "-c:v"@,
            "libx264"@,
        ] + seq!["-crf"@, "18"@, "-preset"@, "ultrafast"@] + seq![
            "-b:v"@,
            "1000M"@,
            "-maxrate"@,
            "1000M"@,
            "-bufsize"@,
            "1000M"@,
            "-movflags"@,
            "+faststart"@,
            "-map_metadata"@,
            "0"@,
            "-metadata"@,
            title@,
            "-metadata"@,
            author@,
            "-metadata"@,
            time@,
            output_path@,
        ],
{
    let mut args: Vec<String> = Vec::new();
    proof {
        assert(arg_texts(args@) =~= Seq::<Seq<char>>::empty());
    }
    push_raw_input_args(&mut args);
    push_arg(&mut args, "-crf");
    push_arg(&mut args, "18");
    push_arg(&mut args, "-preset");
    push_arg(&mut args, "ultrafast");
    push_output_args(&mut args, title, author, time, output_path);
    args
}

/// The `ffmpeg` arguments that turn the video at `input_path` into raw RGB
/// frames on standard output.
pub fn raw_decode_args(input_path: &str) -> (args: Vec<String>)
    ensures
        arg_texts(args@) == seq![
            "-i"@,
            input_path@,
            "-f"@,
            "rawvideo"@,
            "-pix_fmt"@,
            "rgb24"@,
            "-lossless"@,
            "1"@,
            "-"@,
        ],
{
    let mut args: Vec<String> = Vec::new();
    proof {
        assert(arg_texts(args@) =~= Seq::<Seq<char>>::empty());
    }
    push_arg(&mut args, "-i");
    push_arg(&mut args, input_path);
    push_arg(&mut args, "-f");
    push_arg(&mut args, "rawvideo");
    push_arg(&mut args, "-pix_fmt");
    push_arg(&mut args, "rgb24");
    push_arg(&mut args, "-lossless");
    push_arg(&mut args, "1");
    push_arg(&mut args, "-");
    args
}

/// The `ffmpeg` arguments that turn the video at `input_filename` into
/// numbered lossless PNG files under `temp/`.
pub fn png_extract_args(input_filename: &str) -> (args: Vec<String>)
    ensures
        arg_texts(args@) == seq![
            "-i"@,
            input_filename@,
            "-c:v"@,
            "png"@,
            "-lossless"@,
            "1"@,
            "temp/temp_%03d.png"@,
        ],
{
    let mut args: Vec<String> = Vec::new();
    proof {
        assert(arg_texts(args@) =~= Seq::<Seq<char>>::empty());
    }
    push_arg(&mut args, "-i");
    push_arg(&mut args, input_filename);
    push_arg(&mut args, "-c:v");
    push_arg(&mut args, "png");
    push_arg(&mut args, "-lossless");
    push_arg(&mut args, "1");
    push_arg(&mut args, "temp/temp_%03d.png");
    args
}

} // verus!

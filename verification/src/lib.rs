//! Storing files in videos: the bits of a file become black and white
//! squares on 1280 by 720 frames, and raw frames are read back into bytes.
//!
//! The library computes; reading files, running `ffmpeg` and showing
//! progress belong to the program around it.
pub mod archive;
pub mod bits;
pub mod canvas;
pub mod decode;
pub mod encoder;
pub mod ffmpeg;
pub mod layout;
pub mod metadata;
pub mod png;
pub mod render;

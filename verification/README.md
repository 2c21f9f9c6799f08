# decoderv1

Stores files in videos. Every bit of a file becomes a 4 by 4 square on a
1280 by 720 frame, white for 1 and black for 0; `ffmpeg` turns the frames
into an MP4 file. Decoding reads raw frames back and packs the pixels into
bytes.

- `src/` is the verified library (Verus): frame geometry (`layout`), drawing
  (`render`, `canvas`), the lossless encoder's frame loop (`encoder`),
  decoding (`decode`), bits and bytes (`bits`), video metadata (`metadata`),
  `ffmpeg` command lines (`ffmpeg`), PNG frames (`png`) and zip entry paths
  (`archive`).
- `app/` is the program: file and process I/O, progress bars, threads.
- `tests/` exercises the library on concrete values.

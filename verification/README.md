# rdsd2pcm

A library for converting DSD to PCM, verified with Verus, and the DSD2PCM filter.

The library holds what can be decided and computed without touching a file: the
layout of WAV, AIFF and AIFC files, the streaming writers, quantization and clip
counting, the mapping from ID3 tags to Vorbis comments, the search for DSD files
and the options of the filter. Each function has a contract, and the laws that
hold of the library as a whole are proved beside the functions they speak of.

- `src/` is the library.
- `tests/` runs it.
- `app/` is ordinary Rust around it: files, standard input and output, floating
  point, and the dsd2pcm C library.

## The filter

    dsd2pcm <channels> <bitorder> <bitdepth>

It reads raw planar DSD64 from standard input, in blocks of 4096 bytes a channel,
and writes raw PCM at 352.8 kHz to standard output, least significant byte first.

- `channels`: 1 to 9
- `bitorder`: `L` for least significant bit first, `M` for most significant
- `bitdepth`: 16 or 24. At 16 bits a noise shaper preserves dynamic range.

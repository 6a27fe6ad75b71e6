# imagine

Image format decoders (PNG, BMP, Netpbm) written in Verus: every decoder in
`src/` carries a contract over a mathematical model of its input bytes, and
Verus proves the code meets it, free of panics and overflow.

## Layout

* `src/png/` – chunk walking and CRCs, the `IHDR`/`PLTE`/`tRNS` chunks,
  DEFLATE/zlib decoding (`inflate/`), scanline unfiltering, Adam7 interlacing,
  and whole-image decoding. Inflating the image data is also available through
  `miniz_oxide`, behind a trusted wrapper whose result is named.
* `src/bmp/` – the summarizing header readers, the typed file and info
  headers (every version, with their exact byte layouts in both directions),
  run-length decoding, and decoders into direct colors and indexed images.
* `src/netpbm/` – header parsing and the ASCII and binary pixel formats.
* `src/image.rs`, `src/basic_image.rs` – image containers, with vertical
  flipping.
* `src/bit_depth_changes.rs`, `src/int_endian.rs`, `src/iterators.rs`,
  `src/pixel_formats.rs` – small shared pieces.
* `tests/` – tests run against the compiled library.
* `app/` – a command line program that decodes PNG files found in a
  directory tree, and the steps that need floating point (scaling 16 and 32
  bit masked BMP channels and float Netpbm samples).

Public proof functions named `lemma_*` state the library's laws, such as
header round trips, flipping twice being the identity, and the pixel counts
of decoded images.

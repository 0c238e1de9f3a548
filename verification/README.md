# chuda

Truecolour ANSI rendering of RGBA images: every 8x8 cell of a resampled
image is matched against a symbol atlas, choosing for each symbol the
better of an opaque foreground/background pair and a foreground-only cell
over a transparent background, and the frame is written as ANSI text.

## Layout

- `src/` — the library, verified with Verus:
  - `cpu.rs`: scoring of one cell against the atlas (`choose_symbol`) and of
    a whole cell-major buffer (`render`), with the error model as spec
    functions and its laws (the choice is the first minimum; a higher
    transparency bias never turns an opaque cell transparent).
  - `ansi.rs`: the ANSI encoder and its byte-level specification.
  - `atlas.rs`: the block-element symbol atlas.
  - `render.rs`: request sizing and batch validation, the cell-major layout
    of a raster, and frames cut from a batch's cells.
  - `source.rs`: source images as plain RGBA data; PNG decoding through the
    `image` crate.
  - `backend.rs`, `error.rs`, `gpu.rs`, `lib.rs`: backend names, errors and
    their texts, the CUDA error-buffer helper, and the renderer's batching and fallback state.
- `tests/` — tests of the library.
- `app/` — the command-line program: image resampling and the other
  floating-point steps, parallel scoring with rayon, the optional CUDA
  backend, and file handling.

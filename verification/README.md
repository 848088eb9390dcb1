# rug

The integer and structural core of a 2D vector rasteriser, verified with Verus.

`src/` is the verified library:

- `path`, `segment_path`: path builders and paths (verbs plus points), their
  grammar as a spec, and iterators that walk a path forwards and backwards.
- `stroke`: assembly of a stroke outline from its two offset sides.
- `image`, `tiling`: row-major images with a stride, windows onto them, and
  the split of an image into tiles.
- `renderer`: per-tile command masks (bit sets) and the pixel range that a
  coverage mask blends into.
- `color`, `wide`, `geometry`, `memory`: channel packing, lane masks, curve
  pieces over any point type, address alignment.
- `spall`: the records of the trace file format and the double-buffer
  bookkeeping of the tracer.

`app/` is ordinary Rust around it: the `f32` side of both renderers (curve
arithmetic, coverage rasterising, gradients, blending), the tracer runtime
with its threads and clock, and the SVG loader.

`tests/` exercise the library from outside.

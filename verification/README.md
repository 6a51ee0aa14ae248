# draw

The logic of a collaborative drawing canvas that runs in the browser, with
its behaviour stated in contracts and proved by Verus.

- `src/` is the verified library: the wire formats of strokes and packets
  between peers, the save file and the bundled canvas file, the bookkeeping of
  strokes being drawn, of chunks of the canvas, of connected peers and of the
  retained view, the paintbrush, undo, and the triangle topology of a stroke
  outline. Numbers that the formats carry as `f32`/`f64` are held by their
  bits. Reading wire data goes through `binary_util`, reading the canvas file
  through `bytes`.
- `tests/` runs the library on concrete inputs.
- `app/` is the browser side: the functions that the page calls (through
  `wasm-bindgen`), the queues between the page and the canvas, and the
  floating-point geometry of strokes.

# canvas_space

A layout of windows on an unbounded canvas, seen through a camera that pans on both axes. Every
window sits in a tile with a position of its own; there are no columns and no stacking rules.

The library is written in Verus: its contracts say what every operation makes of the canvas, bit for
bit, and are proved.

- `src/canvas_space.rs`: `CanvasSpace`, the canvas with all its operations.
- `src/state.rs`: `CanvasView`, the canvas as a mathematical value, and the operations on it.
- `src/camera.rs`: one axis of the camera, at rest or on a spring.
- `src/tile.rs`: windows (`LayoutElement`, `WindowRecord`), tiles and options.
- `src/sizing.rs`: how a change of size becomes whole pixels.
- `src/focus.rs`: the nearest tile in a direction.
- `src/overview.rs`, `src/overview_laws.rs`: bounds and the view that fits everything.
- `src/pan_camera_grab.rs`: dragging the camera with the pointer.
- `src/laws.rs`, `src/pixels.rs`: what holds across operations.
- `src/history.rs`: what holds throughout the life of a canvas.
- `src/geometry.rs`: points, sizes, rectangles.
- `src/float.rs`, `src/rounding.rs`: IEEE 754 binary64 arithmetic on integers. Coordinates are such
  numbers. The proofs hold the code to the definition of the format; that hardware computes the same
  is compared in `tests/float.rs`.
- `app/`: the canvas in a smithay compositor: render elements, springs, closing windows, the pointer
  grab.

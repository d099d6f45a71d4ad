# screen_ocr

An overlay window that reads the screen below it. The screen is captured and
given to a text recogniser, whose hOCR answer is drawn over the screen word by
word. Words under the cursor are highlighted, and a click reports them.

- `src/` is the library, verified with Verus: reading hOCR, boxes of words and
  lines, the mesh of their backgrounds, the state of the overlay and its
  reactions to events.
- `app/` is the window around it: the window system, the graphics device, the
  recogniser's thread, and floating-point arithmetic. The library holds
  single-precision numbers as bit patterns and only compares them.
- `tests/` runs the library, and compares its numbers with the processor's.

What the library takes on trust stands in `src/dom.rs` (the `html_parser` crate)
and in `src/mesh.rs` (the `bytemuck` crate), each with a comment on what is
claimed.

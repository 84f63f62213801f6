# Conclave

Two parts of a web browser, and the messages it exchanges with native programs:
media (containers, manifests, captions, codec headers and an H.264 decoder for
still pictures) and layout (boxes, lines, flexible boxes, grids and tables). They
are written in Rust and proved with Verus.

- `src/` is the library. Every function states what it returns; parsers say for
  each input what is found in it and when it is refused. What holds of several
  functions together is stated by public proof functions: payloads that were
  written are read back, grid items do not overlap, pictures come out in display
  order, and so on.
- `src/layout/` is generic in the type of numbers and does not compute with them.
  It decides: which boxes stand on a line, in which cell of a grid, in which slot
  of a table, which box is hit, and which one may be reused.
- `app/` computes with floating-point numbers: it measures and places boxes as the
  library decides, gives times in seconds, and reads and writes streams.
- `tests/` runs the library on examples.

The library trusts the specifications of a few functions of the standard library,
each with a comment of its own: decoding of UTF-8, classes and case of characters,
and growth of strings.

# layout_2020 fragments

The fragment tree of a CSS layout engine, written in Verus: box, anonymous,
text, image and iframe fragments, their flow-relative geometry, their
scrollable overflow in physical coordinates, and the collapsing of block
margins.

Lengths are held in app units (sixtieths of a CSS pixel) in an `i32`, so that
every computation on them is exact and proved; an operation whose result is a
sum or a difference requires that result to fit, and `checked_*` variants
report where it would not.

- `src/geom.rs`: lengths, flow-relative and physical vectors, rectangles and
  sides, their mathematical models, and the laws of inflation, translation and
  union.
- `src/margins.rs`: collapsed margins and the laws of margin collapsing.
- `src/fragments.rs`: the fragments, their scrollable overflow, inline
  offsets, the pre-order search `Fragment::find`, and their laws.
- `src/fragment_tree.rs`, `src/style.rs`, `src/resources.rs`: what fragments
  read of the generating node, of computed style, and of fonts and browsing
  contexts.
- `app/`: printing the fragment tree to standard output.
- `tests/`: tests of the library, among them a comparison of rectangle union
  and translation with `euclid`.

//! A text-output driver for a memory-mapped character display.
//!
//! The display is a fixed rectangular grid of character cells, each holding a
//! glyph byte and a packed color attribute. A [`writer::Writer`] appends bytes
//! to the bottom row of the grid, wrapping and scrolling as lines fill, and
//! [`writer::_print`] is the contracted entry point that formatted-output
//! front ends forward finished text to. The writer handle is always passed in
//! explicitly: a program whose call sites can interrupt each other keeps its
//! one writer behind a mutual-exclusion lock of its choosing — the bundled
//! program glue uses a busy-wait lock — and holds that lock across each call.

pub mod color;
pub mod screen;
pub mod writer;
pub mod laws;

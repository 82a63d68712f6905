//! Escape-time fractal fields rendered as coloured terminal text.
//!
//! A field is a row-major grid of escape counts: for each pixel, the number
//! of steps an orbit takes before it leaves a bounded region, capped by an
//! iteration limit. The palette maps each count to a colour through a fixed
//! table of bands, and the renderer turns each row of the grid into a line of
//! block glyphs wrapped in 24-bit colour escape sequences.
//!
//! The numeric side of an orbit (what a point is, how it steps, when it
//! counts as escaped) is supplied by the caller as closures, so the library
//! itself is free of any particular number representation.

pub mod ansi;
pub mod escape;
pub mod grid;
pub mod palette;
pub mod render;

pub use ansi::colour;
pub use escape::escape_time;
pub use grid::sample_grid;
pub use palette::{from_val, Colour};
pub use render::{render_mandelbrot, render_row, BLOCK};

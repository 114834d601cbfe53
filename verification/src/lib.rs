//! Rasterises lines, rectangles and text onto a grid of character cells and
//! turns the grid into plain text.
//!
//! Every cell is either a literal character or a 3x5 block of pixels. Pixel
//! blocks are shown either through a glyph table, which maps each of the
//! 32768 possible blocks to its closest character, or exactly, with
//! half-block characters.
//!
//! What is drawn usually comes from `dot`: the library also splits the plain
//! text output of `dot` into statements and their words.

pub mod bitmap;
pub mod metric;
pub mod font;
pub mod canvas;
pub mod draw;
pub mod render;
pub mod plain;
pub mod line;
pub mod text;

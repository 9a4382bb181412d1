//! Pixel-grid rendering and visual secret sharing over in-memory bitmaps.
//!
//! The library offers three operations on [`bitmap::Bitmap`] values:
//! magnified gridded rendering ([`grid::render`]), splitting a black/white
//! bitmap into a random mask and its complement ([`mask::split`]), and
//! interleaving two equal-sized bitmaps into alternating vertical strips
//! ([`interleave::interleave`]). [`sheet::compose_sheet`] lays three grids
//! out side by side on one white sheet.

mod arith;
pub mod bitmap;
pub mod color;
pub mod grid;
pub mod interleave;
pub mod mask;
pub mod sheet;

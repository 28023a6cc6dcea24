//! The VGA text buffer: colors and the scrolling writer over the 80 x 25
//! character grid.

pub mod color;
pub mod writer;

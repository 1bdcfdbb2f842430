//! Black-and-white drawing in the terminal with half-height block glyphs.
//!
//! A [`Canvas`] holds a grid of logical on/off pixels. It stores them in
//! physical rows of [`DuoPixel`]s: each physical row carries two logical
//! rows, one in the upper half of each glyph and one in the lower half, so a
//! square pixel grid prints without vertical stretching.
pub mod canvas;
pub mod pixel;
pub mod row;
pub mod text;

pub use canvas::Canvas;
pub use pixel::{DuoPixel, EMPTY_C, FULL_C, LOWER_C, UPPER_C};
pub use row::Row;

//! Text art from bitmap images.
//!
//! An image is reduced to the few colours it uses most, each of them is given
//! one symbol of a caller-supplied palette, and every pixel is drawn as the
//! symbol of the nearest of those colours, twice in a row so that the result
//! keeps the proportions of the image in a terminal.
//!
//! [`symbolize`] does all of it. The steps are there one by one as well:
//! [`scale::resize`] brings the image to the size of the drawing,
//! [`frequency::count_colors`] counts the colours,
//! [`get_most_used_colours_with_symbols`] builds the working palette,
//! [`get_symbol_by_pixel`] finds the entry nearest to a pixel, and
//! [`render::render`] draws the image. A [`SymbolizeResult`] turns into its
//! rows, into one string or into bytes.
//!
//! Resampling and the text of a symbol in colour are left to the `image` and
//! `crossterm` crates. [`scale::can_resize`] tells which sizes an image can
//! be brought to.
//!
//! The library holds no floating-point number. A scale factor is applied to
//! the size of the image by the caller, who passes the outcome as a
//! [`Scale`].

pub mod assign;
pub mod color;
pub mod drawing;
pub mod error;
pub mod frequency;
pub mod grid;
pub mod palette;
pub mod render;
pub mod resolve;
pub mod scale;
pub mod style;

pub use crate::color::{get_pixel_comparison, Rgb};
pub use crate::error::SymbolizeError;
pub use crate::grid::PixelGrid;
pub use crate::assign::get_most_used_colours_with_symbols;
pub use crate::palette::PixelWithSymbol;
pub use crate::drawing::{RenderCell, SymbolizeResult};
pub use crate::render::{symbolize, symbolize_scaled};
pub use crate::resolve::get_symbol_by_pixel;
pub use crate::scale::{FilterType, Scale};

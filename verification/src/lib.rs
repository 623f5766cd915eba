//! Classical dithering of RGB rasters: thresholding, palette quantisation,
//! ordered and random dithering, and error diffusion with selectable kernels.
//!
//! Every transform works in place on a [`raster::Raster`] and states, in its
//! contract, the colour of each pixel afterwards.
//!
//! - [`color`]: colours, luminance, the colour metric.
//! - [`palette`]: palettes and the nearest-colour search.
//! - [`raster`]: the raster and the few facts that are taken on trust of the
//!   image buffer behind it.
//! - [`pointwise`]: threshold, palette quantisation, ordered dithering.
//! - [`tramage`]: random dithering.
//! - [`kernel`]: diffusion kernels, and what they conserve and lose.
//! - [`levels`]: the fixed-point arithmetic in which error is carried.
//! - [`diffusion`]: error diffusion, its model and its laws.
//! - [`mode`]: all transforms behind one entry point.
//! - [`parse`]: colours written as text.
//! - [`text`]: comparison of texts.

pub mod color;
pub mod diffusion;
pub mod kernel;
pub mod levels;
pub mod mode;
pub mod palette;
pub mod parse;
pub mod pointwise;
pub mod raster;
pub mod text;
pub mod tramage;

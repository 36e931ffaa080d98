//! Anti-aliased scanline rasterization of vector paths with fixed-point
//! arithmetic.
//!
//! A path goes through the clipper (`clip`) into the cell store (`cell`), which
//! keeps for each pixel that a line touches its cover and its area. The
//! rasterizer (`rast`) sorts the cells and sweeps them row by row into scanlines
//! (`scan`), and the renderers (`rend`) paint the scanlines onto an image
//! (`pixfmt`, `base`). What is conserved on the way is stated in `cover`.
//! Lines can also be drawn directly, without cells: anti-aliased (`aa`), pixel
//! by pixel (`outline`), or with an image as their pattern (`imageline`).
//!
//! Coordinates are integers in 256ths of a pixel. Every function states what it
//! returns and what it changes, and none of them panics on arguments that meet
//! what it requires.

pub mod aa;
pub mod alphamask;
pub mod base;
pub mod buffer;
pub mod cell;
pub mod clip;
pub mod color;
pub mod component;
pub mod cover;
pub mod dist;
pub mod gradient;
pub mod imageline;
pub mod line;
pub mod outline;
pub mod paths;
pub mod pattern;
pub mod pixel;
pub mod pixfmt;
pub mod rast;
pub mod rend;
pub mod scan;
pub mod text;
pub mod util;

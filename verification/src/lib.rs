//! Raster rendering of two procedural patterns: a chessboard and the
//! Mandelbrot set, with the colour rules and the pixel loops verified.
//!
//! The library holds no floating point. The Mandelbrot renderer takes the
//! arithmetic of the complex plane as three functions of the caller and does
//! the rest: the escape-time count, the colours and the grid.

pub mod bounds;
pub mod canvas;
pub mod chessboard;
pub mod color;
pub mod colormap;
pub mod config;
pub mod escape;
pub mod mandelbrotset;
pub mod palette;

pub use bounds::{parse_bounds, split_bounds, BoundsError, BoundsFields};
pub use canvas::PixelGrid;
pub use chessboard::draw_square;
pub use color::Color;
pub use colormap::{make_colored, make_grayscale, ColorMap, ColoredColorMap, GrayscaleMap};
pub use config::{check_config, check_viewport, ColorMode, ConfigError};
pub use escape::escape_time;
pub use mandelbrotset::{generate_mandelbrot_set, render_mandelbrot};

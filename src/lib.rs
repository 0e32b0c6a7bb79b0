//! The numeric kernel of a small ray tracer, verified with Verus:
//!
//! - [`canvas`]: a framebuffer of pixels with bounds-checked reads and writes;
//! - [`matrix`]: a rectangular grid of values with construction, transpose and
//!   sub-matrices;
//! - [`ppm`]: the plain-text (P3) PPM encoding of a canvas of channel bytes;
//! - [`viewer`]: the same pixels as a rows x columns x channels byte array.
//!
//! The floating-point arithmetic on tuples, colors and matrix entries is left
//! to the program around the library.

pub mod canvas;
pub mod matrix;
pub mod ppm;
pub mod viewer;

pub use canvas::{Canvas, CanvasError};
pub use matrix::{Matrix, MatrixError};
pub use ppm::{PPMFile, Rgb8};
pub use viewer::{ImageArray, RerunViewer};

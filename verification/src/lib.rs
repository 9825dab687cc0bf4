//! Escape-field generator for deep zooms into the Mandelbrot set: the
//! exact, discrete half. Palettes with cyclic interpolation, the continuous
//! colour index as whole part and fraction, the control of a pixel's
//! iteration, the pixel grid, and the image of a finished frame.

pub mod canvas;
pub mod color;
pub mod error;
pub mod escape;
pub mod frame;
pub mod palette;

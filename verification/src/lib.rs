//! Progressive rendering engine for the Mandelbrot set.
//!
//! All coordinates are signed fixed-point numbers, so every result is exact
//! and reproducible: the viewport, the escape-time evaluation, the colour
//! mapping, the refinement schedule and the frame composition are specified
//! over the integers and proved against those specifications.

pub mod args;
pub mod bignat;
pub mod complex;
pub mod control;
pub mod fixed;
pub mod fractals;
pub mod image;
pub mod state;
pub mod renderer;

//! Progressive escape-time fractal rendering.
//!
//! The crate holds the discrete logic of a fractal viewer's core:
//!
//! - `basicfractals`: validated iteration budgets for the Mandelbrot and
//!   Julia evaluators, and the escape-time iteration over an orbit whose
//!   arithmetic the caller supplies;
//! - `canvas`: a packed RGB image that is filled in row-major order, with the
//!   cursor that marks how far it has been filled;
//! - `render`: the rendering job, whose producer streams pixel colours to a
//!   consumer that pulls them into its canvas without ever waiting;
//! - `channel`: the channel between the two, from std.

pub mod basicfractals;
pub mod canvas;
pub mod channel;
pub mod render;

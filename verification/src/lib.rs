//! Escape-time fractal rendering: argument grammar, colour mapping, escape
//! counting and the pixel buffer fill, each with a machine-checked contract.

pub mod canvas;
pub mod cli;
pub mod color;
pub mod complex;
pub mod decimal;
pub mod escape;
pub mod fractal;
pub mod grid;
pub mod literal;
pub mod render;
pub mod resolution;
pub mod split;
pub mod wide;

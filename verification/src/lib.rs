//! Escape-time fractal rendering.
//!
//! A picture of a Julia set, of the Mandelbrot set or of the Burning Ship is
//! made pixel by pixel: a pixel position is mapped to a point of the complex
//! plane, a recurrence is iterated from it until the orbit escapes or an
//! iteration budget (the cutoff) runs out, and the number of completed steps
//! is turned into an RGBA colour.
//!
//! This crate holds all of that process but the complex arithmetic, each part
//! with a proved contract: which family a name selects ([`variant`]), in
//! which order the pixels are visited and where each lands among the bytes
//! ([`grid`]), when an orbit's evaluation stops and what it counts
//! ([`escape`]), which colour a count is given ([`color`]), how the bytes are
//! assembled ([`frame`]), and what the finished picture is ([`render`]).
//!
//! The arithmetic is the caller's. It is handed in as closures to
//! [`escape::evaluate`] and [`render::render`], which run the loops; or the
//! caller runs the loops and reports step by step to an
//! [`escape::Evaluator`] and a [`frame::Frame`].
pub mod color;
pub mod escape;
pub mod frame;
pub mod grid;
pub mod render;
pub mod variant;

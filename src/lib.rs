//! Escape-time computation for the Mandelbrot recurrence `z <- z*z + c`.
//!
//! Points of the complex plane are held in fixed point (see [`fixed`]), so the
//! iteration is exact integer arithmetic: every run on the same inputs yields
//! the same escape records, bit for bit.

pub mod fixed;
pub mod engine;
pub mod viewport;
pub mod color;

//! Geometric and numeric kernel for a small ray-tracing renderer: a
//! homogeneous tuple algebra that distinguishes points from vectors, a
//! fixed-size matrix kernel with cofactor determinants and adjugate
//! inverses, a color model with device-pixel quantization, a canvas that
//! clips out-of-bounds writes, and a trajectory simulator that rasterizes
//! a projectile's arc onto the canvas.
//!
//! Scalars are exact fixed-point numbers: an `i64` counts units of
//! `1 / SCALE`, so every operation here is integer arithmetic whose
//! result is pinned down exactly by its contract.  Two scalars are
//! considered equal when they differ by less than `EPSILON` units, the
//! tolerance the renderer uses everywhere in place of raw equality.

pub mod arch;
pub mod canvas;
pub mod color;
pub mod error;
pub mod matrix;
pub mod scalar;
pub mod tuple;

//! Verified core of a Monte Carlo path tracer.
//!
//! The renderer's numeric work — vector algebra, ray–sphere quadratics,
//! material scattering — runs on machine reals and lives outside this
//! library. What this library holds, and what Verus proves, is the exact
//! logic that steers that work:
//!
//! - [`world`]: the closest-hit search over a scene, phrased over
//!   order-preserving integer keys for the parametric hit distances;
//! - [`integrator`]: the recursive shading integrator's control flow —
//!   when a trace bounces, when it terminates, and with which terminal;
//! - [`aabb`]: the interval-tightening decision of the bounding-box slab
//!   test, over the same kind of keys;
//! - [`image`]: the plain-text image serialization of quantized pixels.

pub mod aabb;
pub mod image;
pub mod integrator;
pub mod world;

pub use image::Rgb;

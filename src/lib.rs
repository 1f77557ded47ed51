//! Verified core of a Monte Carlo path tracer: the random sequence that drives
//! sampling, pixel and texel addressing, mesh topology checks, Wavefront face
//! records and the per-bounce decisions of the path integrator.
//!
//! Everything here works on integers; the floating-point shading code that
//! uses it lives in the driver program.
pub mod integrator;
pub mod mesh;
pub mod objfile;
pub mod pixels;
pub mod rng;
pub mod texture;

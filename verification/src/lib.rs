//! The discrete core of a Monte Carlo path tracer for scenes of spheres.
//!
//! A path tracer spends its time in double-precision arithmetic, but what it
//! does with the numbers is decided by comparisons: whether a ray's line
//! crosses a sphere, which root of the quadratic counts, which of many hits
//! is the nearest, whether a surface absorbs, reflects or refracts, when a
//! walk of bounces ends, and where in the output file a pixel goes. This
//! crate holds those decisions, on doubles given by their bit patterns, and
//! the encoding of the finished raster. Every function here is verified.
pub mod integrator;
pub mod materials;
pub mod math;
pub mod ppm;

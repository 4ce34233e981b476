//! A small path tracer whose core is verified: ray/sphere intersection,
//! nearest-hit selection over a scene, material scattering, and the recursive
//! radiance estimator. All geometry is carried in fixed-point scalars
//! (an `i64` counting millionths), so every arithmetic step has an exact
//! integer meaning that the contracts state directly. The image driver
//! (pixel loop, randomness, file output) lives outside the library and
//! feeds it plain values.

pub mod camera;
pub mod geom;
pub mod num;
pub mod pixel;
pub mod ray;
pub mod scene;
pub mod trace;
pub mod vec;

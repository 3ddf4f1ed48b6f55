//! A verified path-tracing core: analytic ray–sphere intersection, a
//! recursive material and lighting model with portal ("wormhole") objects,
//! thin-lens camera ray generation, a progressive accumulation buffer, and a
//! bounding-volume hierarchy for debug overlays. All quantities are held in
//! fixed-point integers (see `num`); windowing, input and rasterisation live
//! outside this crate.

pub mod bvh;
pub mod helpers;
pub mod intersect;
pub mod num;
pub mod pathtrace;
pub mod rays;
pub mod render;
pub mod rng;
pub mod scene;
pub mod skybox;
pub mod vec3;

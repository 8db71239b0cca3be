//! A verified Monte Carlo ray-tracing kernel.
//!
//! The renderer works over fixed-point scalars (see [`fixed`]), so that every
//! geometric and radiometric computation has an exact, machine-checked
//! contract: vector algebra, ray/sphere intersection, closest-hit resolution
//! over a scene, the three material scattering models, camera ray generation,
//! and the bounded-recursion colour estimator with its per-pixel sampling
//! loop.  Randomness is drawn through one trusted wrapper over the `rand`
//! crate; everything downstream of a draw is verified for every value the
//! draw can produce.

pub mod camera;
pub mod constants;
pub mod fixed;
pub mod hittable;
pub mod laws;
pub mod material;
pub mod random;
pub mod ray;
pub mod render;
pub mod sphere;
pub mod vec3;

pub use fixed::Fx;

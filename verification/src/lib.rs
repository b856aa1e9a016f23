//! A verified photon-transport engine for a single-point-mass gravitational
//! lens. Photons are integrated through a first-order deflection field,
//! tested against a finite-aperture camera sensor, and accumulated into a
//! progressively refined per-pixel running-average image.
//!
//! All geometry is carried in a fixed-point scale: one world unit is
//! [`num::ONE`] micro-units, so every quantity is an exact integer and every
//! contract states exact integer arithmetic.

pub mod camera;
pub mod gravity;
pub mod num;
pub mod photon;
pub mod sampler;
pub mod screen;
pub mod vec3;
pub mod world;

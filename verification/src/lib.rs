//! Escape-time rendering of the quadratic map `z <- z^2 + c` over a
//! rectangular viewport of the complex plane.
//!
//! The plane is carried in fixed-point ticks (see [`complex`]), so every
//! step of the computation — mapping pixels to points, iterating the map,
//! partitioning the image into bands, and normalizing each band's
//! brightness — is exact integer arithmetic with a proved contract.

pub mod complex;
pub mod viewport;
pub mod mapper;
pub mod escape;
pub mod bands;
pub mod render;
pub mod frame;

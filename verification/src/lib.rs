//! The control core of a sphere path tracer.
//!
//! A renderer of this kind spends its time in binary64 arithmetic, but what it
//! *decides* is discrete: which of two roots counts as the hit, which object
//! of a scene is nearest, when a light path ends, which integer a channel
//! becomes in the image file. Those decisions live here, together with the
//! loops that take them: the scan of a scene for its nearest hit, the walk of
//! a light path down to its cutoff, the raster of the image.
//!
//! Numbers cross the boundary as bit patterns ([`scalar::Scalar`]). The
//! arithmetic that produces them stays with the caller, who hands it in as
//! implementations of [`hitable::Hitable`] and [`material::Material`] and as
//! the closure that shades a pixel.

pub mod hitable;
pub mod material;
pub mod path;
pub mod ppm;
pub mod scalar;
pub mod sphere;

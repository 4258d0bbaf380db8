//! Verified core of a recursive Monte-Carlo ray tracer.
//!
//! The geometry and color arithmetic of a renderer is floating point; this
//! crate holds the parts whose behaviour can be stated exactly:
//!
//! - `fixed`: fixed-point fractions in which intensity budgets are carried;
//! - `shading`: how a hit shares its intensity between material color,
//!   reflection and refraction (always adding up to the intensity it got),
//!   how many sample rays a branch may spend, ambient-occlusion darkening and
//!   the bounce limit;
//! - `hits` and `scene`: the nearest-hit choice over the scene's objects, with
//!   camera visibility for primary rays;
//! - `target` and `image`: the pixel buffer, assembled from independently
//!   rendered rows, its PPM and PNG bytes, and texel lookup in decoded
//!   textures;
//! - `params`: the render's quality and sampling knobs.

pub mod fixed;
pub mod hits;
pub mod image;
pub mod params;
pub mod scene;
pub mod shading;
pub mod target;

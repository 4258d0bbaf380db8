//! Tunable quality and sampling knobs of a render, generic over the scalar
//! type that holds angles, distances and intensities.

use vstd::prelude::*;

verus! {

/// All knobs of one render.
#[derive(Clone, Copy, Debug)]
pub struct RenderParameters<T> {
    pub quality: QualityParameters<T>,
    pub dof: DoFParameters<T>,
    pub sample_limits: SampleLimits,
    pub ao: AoParameters<T>,
}

/// Limits on the recursion.
#[derive(Clone, Copy, Debug)]
pub struct QualityParameters<T> {
    /// Range 0-1. A ray whose share of the intensity is not above this limit
    /// spawns no further rays.
    pub min_intensity: T,
    /// How often a ray may bounce. With 0 no reflection or refraction is seen.
    pub max_bounces: u32,
    /// Distance by which spawned rays start off the surface, so that they do
    /// not hit it again through rounding.
    pub float_correction_bias: T,
}

/// Most sample rays a hit may spawn.
#[derive(Clone, Copy, Debug)]
pub struct SampleLimits {
    /// When a reflective surface is hit.
    pub max_reflection_samples: u32,
    /// When a refractive surface is hit.
    pub max_refraction_samples: u32,
}

/// Depth of field.
#[derive(Clone, Copy, Debug)]
pub struct DoFParameters<T> {
    /// In degrees: the largest deviation of a camera ray from its pixel's
    /// direction. With zero, a single ray is cast per pixel.
    pub max_angle: T,
    /// Camera rays per pixel; ignored (one ray) when `max_angle` is zero.
    pub samples: u32,
}

/// Ambient occlusion.
#[derive(Clone, Copy, Debug)]
pub struct AoParameters<T> {
    /// Range 0-1: how dark occlusion shadows get.
    pub strength: T,
    /// Falloff distance of occlusion shadows, in world units.
    pub distance: T,
    /// Probe rays cast per hit.
    pub samples: u32,
}

} // verus!

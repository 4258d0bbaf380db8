//! Intensity bookkeeping of a single surface hit: how the incoming budget is
//! shared between the material color, reflection and refraction, how many
//! sample rays a branch may spend, ambient-occlusion darkening, and when the
//! recursion stops.

use vstd::prelude::*;
use crate::fixed::{Fixed, UNIT, HALF_UNIT};

verus! {

/// How the intensity that reaches a surface is shared out.
#[derive(Clone, Copy, Debug, PartialEq, Eq, Structural)]
pub struct IntensitySplit {
    /// Carried by the material's own color.
    pub color: Fixed,
    /// Handed on to reflected rays.
    pub reflection: Fixed,
    /// Handed on to refracted rays.
    pub refraction: Fixed,
}

/// The part of `intensity` that the surface stops: `opacity * intensity`.
pub open spec fn opaque_part(intensity: int, opacity: int) -> int {
    crate::fixed::scaled_product(opacity, intensity)
}

/// The part of the stopped intensity that is mirrored:
/// `reflectivity * opacity * intensity`.
pub open spec fn reflected_part(intensity: int, opacity: int, reflectivity: int) -> int {
    crate::fixed::scaled_product(reflectivity, opaque_part(intensity, opacity))
}

/// The three shares (color, reflection, refraction) of `intensity`.
pub open spec fn split_shares(intensity: int, opacity: int, reflectivity: int) -> (int, int, int) {
    let opaque = opaque_part(intensity, opacity);
    let reflected = reflected_part(intensity, opacity, reflectivity);
    (opaque - reflected, reflected, intensity - opaque)
}

/// Whether every intermediate value of the split fits a raw `i64`.
pub open spec fn split_fits(intensity: int, opacity: int, reflectivity: int) -> bool {
    let shares = split_shares(intensity, opacity, reflectivity);
    &&& crate::fixed::fits(opaque_part(intensity, opacity))
    &&& crate::fixed::fits(shares.0)
    &&& crate::fixed::fits(shares.1)
    &&& crate::fixed::fits(shares.2)
}

/// Shares `intensity` out between the material color
/// (`opacity * (1 - reflectivity) * intensity`), reflection
/// (`opacity * reflectivity * intensity`) and refraction
/// (`(1 - opacity) * intensity`). The refraction share is what the surface does
/// not stop and the color share is what it stops but does not mirror, so the
/// three always add up to `intensity` exactly. `None` when a share does not fit.
pub fn split_intensity(intensity: Fixed, opacity: Fixed, reflectivity: Fixed) -> (r: Option<
    IntensitySplit,
>)
    ensures
        r is Some <==> split_fits(intensity.val(), opacity.val(), reflectivity.val()),
        r matches Some(s) ==> (s.color.val(), s.reflection.val(), s.refraction.val())
            == split_shares(intensity.val(), opacity.val(), reflectivity.val()),
        r matches Some(s) ==> s.color.val() + s.reflection.val() + s.refraction.val()
            == intensity.val(),
{
    let opaque = match opacity.checked_mul(intensity) {
        Some(o) => o,
        None => return None,
    };
    let refraction = match intensity.checked_sub(opaque) {
        Some(d) => d,
        None => return None,
    };
    let reflection = match reflectivity.checked_mul(opaque) {
        Some(m) => m,
        None => return None,
    };
    let color = match opaque.checked_sub(reflection) {
        Some(d) => d,
        None => return None,
    };
    Some(IntensitySplit { color, reflection, refraction })
}

/// The three shares of a split always add up to the intensity that was split.
pub proof fn lemma_split_conserves_intensity(intensity: int, opacity: int, reflectivity: int)
    ensures
        ({
            let s = split_shares(intensity, opacity, reflectivity);
            s.0 + s.1 + s.2 == intensity
        }),
{
}

/// With opacity and reflectivity in `[0, 1]` and a non-negative intensity that
/// fits, the split always succeeds and every share lies in `[0, intensity]`.
pub proof fn lemma_split_in_range(intensity: int, opacity: int, reflectivity: int)
    requires
        0 <= intensity <= i64::MAX,
        0 <= opacity <= UNIT,
        0 <= reflectivity <= UNIT,
    ensures
        split_fits(intensity, opacity, reflectivity),
        ({
            let s = split_shares(intensity, opacity, reflectivity);
            &&& 0 <= s.0 <= intensity
            &&& 0 <= s.1 <= intensity
            &&& 0 <= s.2 <= intensity
        }),
{
    crate::fixed::lemma_scaled_product_fraction(opacity, intensity);
    let opaque = opaque_part(intensity, opacity);
    crate::fixed::lemma_scaled_product_fraction(reflectivity, opaque);
}

/// With opacity and reflectivity in `[0, 1]` and a non-negative intensity, each
/// share is the real-valued product of the description rounded to within two
/// steps: refraction `(1 - opacity) * intensity` (within one step, from
/// above), reflection `opacity * reflectivity * intensity` (from below) and
/// color `opacity * (1 - reflectivity) * intensity`.
pub proof fn lemma_split_approximates_products(intensity: int, opacity: int, reflectivity: int)
    requires
        0 <= intensity,
        0 <= opacity <= UNIT,
        0 <= reflectivity <= UNIT,
    ensures
        ({
            let s = split_shares(intensity, opacity, reflectivity);
            let u = UNIT as int;
            &&& 0 <= s.2 * u - (u - opacity) * intensity < u
            &&& 0 <= reflectivity * opacity * intensity - s.1 * u * u < 2 * u * u
            &&& -u * u < s.0 * u * u - opacity * (u - reflectivity) * intensity < 2 * u * u
        }),
{
    let u = UNIT as int;
    let i = intensity;
    let a = opacity;
    let r = reflectivity;
    let o = opaque_part(i, a);
    let m = reflected_part(i, a, r);
    assert(a * i >= 0) by (nonlinear_arith)
        requires
            a >= 0,
            i >= 0,
    ;
    crate::fixed::lemma_scaled_product_error(a, i);
    crate::fixed::lemma_scaled_product_fraction(a, i);
    assert(r * o >= 0) by (nonlinear_arith)
        requires
            r >= 0,
            o >= 0,
    ;
    crate::fixed::lemma_scaled_product_error(r, o);
    // refraction
    assert(0 <= (i - o) * u - (u - a) * i < u) by (nonlinear_arith)
        requires
            o * u <= a * i < (o + 1) * u,
    ;
    // reflection
    assert(0 <= r * a * i - m * u * u < 2 * u * u) by (nonlinear_arith)
        requires
            o * u <= a * i < (o + 1) * u,
            m * u <= r * o < (m + 1) * u,
            0 <= r <= u,
            u > 0,
    ;
    // color
    assert(-u * u < o * u * u - a * i * u <= 0) by (nonlinear_arith)
        requires
            o * u <= a * i < (o + 1) * u,
            u > 0,
    ;
    assert((o - m) * u * u - a * (u - r) * i == (o * u * u - a * i * u) - (m * u * u - r * a * i))
        by (nonlinear_arith);
}

/// The blend `(1 - influence) * center + influence * edges`, written as
/// `center + influence * (edges - center)`.
pub open spec fn blend(center: int, edges: int, influence: int) -> int {
    center + crate::fixed::scaled_product(influence, edges - center)
}

/// Whether every intermediate value of the blend fits a raw `i64`.
pub open spec fn blend_fits(center: int, edges: int, influence: int) -> bool {
    &&& crate::fixed::fits(edges - center)
    &&& crate::fixed::fits(crate::fixed::scaled_product(influence, edges - center))
    &&& crate::fixed::fits(blend(center, edges, influence))
}

/// Interpolates a material property between its value where a ray meets the
/// surface head-on (`center`) and at a grazing angle (`edges`); `influence`
/// is the incidence steepness raised to the property's power. `None` when an
/// intermediate value does not fit.
pub fn edge_blend(center: Fixed, edges: Fixed, influence: Fixed) -> (r: Option<Fixed>)
    ensures
        r is Some <==> blend_fits(center.val(), edges.val(), influence.val()),
        r matches Some(b) ==> b.val() == blend(center.val(), edges.val(), influence.val()),
        crate::fixed::fits(edges.val() - center.val()) && influence.val() == 0 ==> r == Some(
            center,
        ),
        crate::fixed::fits(edges.val() - center.val()) && influence.val() == UNIT ==> r == Some(
            edges,
        ),
{
    proof {
        crate::fixed::lemma_scaled_product_zero(edges.val() - center.val());
        crate::fixed::lemma_scaled_product_unit(edges.val() - center.val());
    }
    let span = match edges.checked_sub(center) {
        Some(d) => d,
        None => return None,
    };
    let scaled = match influence.checked_mul(span) {
        Some(p) => p,
        None => return None,
    };
    center.checked_add(scaled)
}

/// `round(1 + intensity * (max_rays - 1))`, saturated into the range of `u32`.
pub open spec fn ray_count(intensity: int, max_rays: int) -> int {
    let q = (UNIT + intensity * (max_rays - 1) + HALF_UNIT) / (UNIT as int);
    if q < 0 {
        0
    } else if q > u32::MAX {
        u32::MAX as int
    } else {
        q
    }
}

/// Number of sample rays a branch carrying `intensity` may spend when at most
/// `max_rays` are allowed: branches with little energy use fewer samples.
/// For an intensity in `[0, 1]` the count lies in `[1, max_rays]`.
pub fn get_ray_count_for_intensity(intensity: Fixed, max_rays: u32) -> (r: u32)
    requires
        max_rays >= 1,
    ensures
        r == ray_count(intensity.val(), max_rays as int),
        0 <= intensity.val() <= UNIT ==> 1 <= r <= max_rays,
        intensity.val() == UNIT ==> r == max_rays,
        intensity.val() == 0 ==> r == 1,
{
    let n: i128 = max_rays as i128 - 1;
    proof {
        let i = intensity.val();
        let m = n as int;
        assert(-0x8000_0000_0000_0000_0000_0000 <= i * m <= 0x8000_0000_0000_0000_0000_0000)
            by (nonlinear_arith)
            requires
                -0x8000_0000_0000_0000 <= i <= 0x8000_0000_0000_0000,
                0 <= m <= 0x1_0000_0000,
        ;
        lemma_ray_count_bounds(i, max_rays as int);
    }
    let x: i128 = UNIT as i128 + intensity.raw as i128 * n + HALF_UNIT as i128;
    if x < 0 {
        proof {
            assert(x as int / (UNIT as int) < 0) by (nonlinear_arith)
                requires
                    x < 0,
            ;
        }
        0
    } else {
        let q: i128 = x / (UNIT as i128);
        if q > u32::MAX as i128 {
            u32::MAX
        } else {
            q as u32
        }
    }
}

/// The rounded count of an intensity in `[0, 1]` lies in `[1, max_rays]`,
/// with both ends reached.
proof fn lemma_ray_count_bounds(intensity: int, max_rays: int)
    requires
        1 <= max_rays <= u32::MAX,
    ensures
        0 <= intensity <= UNIT ==> 1 <= ray_count(intensity, max_rays) <= max_rays,
        intensity == UNIT ==> ray_count(intensity, max_rays) == max_rays,
        intensity == 0 ==> ray_count(intensity, max_rays) == 1,
{
    let u = UNIT as int;
    let h = HALF_UNIT as int;
    let x = u + intensity * (max_rays - 1) + h;
    if 0 <= intensity <= u {
        assert(0 <= intensity * (max_rays - 1) <= u * (max_rays - 1)) by (nonlinear_arith)
            requires
                0 <= intensity <= u,
                max_rays >= 1,
        ;
        assert(u <= x < u * max_rays + u);
        assert(1 <= x / u <= max_rays) by (nonlinear_arith)
            requires
                u <= x < u * max_rays + u,
                u > 0,
        ;
    }
    if intensity == u {
        assert(x == u * max_rays + h) by (nonlinear_arith)
            requires
                x == u + intensity * (max_rays - 1) + h,
                intensity == u,
        ;
        assert(x / u == max_rays) by (nonlinear_arith)
            requires
                x == u * max_rays + h,
                0 <= h < u,
        ;
    }
}

/// `total / rays`, truncated toward zero.
pub open spec fn ray_share(total: int, rays: int) -> int {
    if total >= 0 {
        total / rays
    } else {
        -((-total) / rays)
    }
}

/// The intensity each of `rays` surviving sample rays carries when a branch's
/// `total` is spread evenly over them; together they never carry more than
/// the branch had.
pub fn per_ray_intensity(total: Fixed, rays: usize) -> (r: Fixed)
    requires
        rays > 0,
    ensures
        r.val() == ray_share(total.val(), rays as int),
        total.val() >= 0 ==> 0 <= r.val() * rays <= total.val() < (r.val() + 1) * rays,
{
    let t: i128 = total.raw as i128;
    let n: i128 = rays as i128;
    let q: i128 = if t >= 0 {
        t / n
    } else {
        -((-t) / n)
    };
    proof {
        let ti = t as int;
        let ni = n as int;
        if ti >= 0 {
            assert(0 <= ti / ni <= ti) by (nonlinear_arith)
                requires
                    ti >= 0,
                    ni > 0,
            ;
            assert(0 <= (ti / ni) * ni <= ti < (ti / ni + 1) * ni) by (nonlinear_arith)
                requires
                    ti >= 0,
                    ni > 0,
            ;
        } else {
            assert(0 <= (-ti) / ni <= -ti) by (nonlinear_arith)
                requires
                    ti < 0,
                    ni > 0,
            ;
        }
    }
    Fixed { raw: q as i64 }
}

/// `d` clamped into `[0, 1]`.
pub open spec fn clamp_unit(d: int) -> int {
    if d < 0 {
        0
    } else if d > UNIT {
        UNIT as int
    } else {
        d
    }
}

/// The darkening factor `1 - strength * (1 - d)^2` for an occluder at
/// normalized distance `d` (clamped into `[0, 1]`).
pub open spec fn ao_factor(strength: int, distance: int) -> int {
    let gap = UNIT - clamp_unit(distance);
    UNIT - crate::fixed::scaled_product(strength, crate::fixed::scaled_product(gap, gap))
}

/// The intensity left after ambient occlusion: unchanged without an occluder,
/// else scaled by the darkening factor.
pub open spec fn ao_attenuated(intensity: int, strength: int, occluder: Option<Fixed>) -> int {
    match occluder {
        None => intensity,
        Some(d) => crate::fixed::scaled_product(intensity, ao_factor(strength, d.val())),
    }
}

/// Whether a hit at `bounces` samples ambient occlusion at all: only below the
/// bounce limit and with a non-zero strength.
pub open spec fn ao_applies_spec(bounces: u32, max_bounces: u32, strength: int) -> bool {
    bounces < max_bounces && strength != 0
}

/// Whether a hit at `bounces` samples ambient occlusion at all.
pub fn ao_applies(bounces: u32, max_bounces: u32, strength: Fixed) -> (r: bool)
    ensures
        r == ao_applies_spec(bounces, max_bounces, strength.val()),
{
    bounces < max_bounces && strength.raw != 0
}

/// Darkens `intensity` by ambient occlusion. `occluder_distance` is the
/// distance of the nearest occluding hit divided by the occlusion falloff
/// distance, or `None` when no probe ray hit anything; distances beyond the
/// falloff count as the falloff itself. `strength` is in `[0, 1]`.
pub fn apply_ao(intensity: Fixed, strength: Fixed, occluder_distance: Option<Fixed>) -> (r: Fixed)
    requires
        0 <= strength.val() <= UNIT,
    ensures
        r.val() == ao_attenuated(intensity.val(), strength.val(), occluder_distance),
        strength.val() == 0 ==> r == intensity,
{
    match occluder_distance {
        None => intensity,
        Some(d) => {
            let near: i64 = if d.raw < 0 {
                0
            } else if d.raw > UNIT {
                UNIT
            } else {
                d.raw
            };
            let gap = Fixed { raw: UNIT - near };
            proof {
                crate::fixed::lemma_scaled_product_fraction(gap.val(), gap.val());
            }
            let falloff = gap.checked_mul(gap).unwrap();
            proof {
                crate::fixed::lemma_scaled_product_fraction(strength.val(), falloff.val());
            }
            let darkening = strength.checked_mul(falloff).unwrap();
            let factor = Fixed { raw: UNIT - darkening.raw };
            proof {
                crate::fixed::lemma_scaled_product_fraction(factor.val(), intensity.val());
                crate::fixed::lemma_scaled_product_zero(falloff.val());
                crate::fixed::lemma_scaled_product_unit(intensity.val());
            }
            intensity.checked_mul(factor).unwrap()
        },
    }
}

/// With zero strength, ambient occlusion never changes an intensity, whatever
/// the occluder.
pub proof fn lemma_zero_strength_ao(intensity: int, occluder: Option<Fixed>)
    requires
        crate::fixed::fits(intensity),
    ensures
        ao_attenuated(intensity, 0, occluder) == intensity,
{
    if let Some(d) = occluder {
        let gap = UNIT - clamp_unit(d.val());
        crate::fixed::lemma_scaled_product_zero(crate::fixed::scaled_product(gap, gap));
        crate::fixed::lemma_scaled_product_unit(intensity);
    }
}

/// What a hit below the bounce limit recurses into.
#[derive(Clone, Copy, Debug, PartialEq, Eq, Structural)]
pub struct BouncePlan {
    /// The bounce count of the spawned rays.
    pub next_bounces: u32,
    /// Whether reflected rays are cast.
    pub reflect: bool,
    /// Whether refracted rays are cast.
    pub refract: bool,
}

/// The recursion decision at a hit: none at the bounce limit, else a branch for
/// each share above the minimum intensity.
pub open spec fn bounce_plan(
    split: IntensitySplit,
    bounces: u32,
    max_bounces: u32,
    min_intensity: int,
) -> Option<BouncePlan> {
    if bounces >= max_bounces {
        None
    } else {
        Some(
            BouncePlan {
                next_bounces: (bounces + 1) as u32,
                reflect: split.reflection.val() > min_intensity,
                refract: split.refraction.val() > min_intensity,
            },
        )
    }
}

/// Decides whether a hit recurses, and into which branches.
pub fn plan_bounce(split: &IntensitySplit, bounces: u32, max_bounces: u32, min_intensity: Fixed) -> (r:
    Option<BouncePlan>)
    requires
        bounces <= max_bounces,
    ensures
        r == bounce_plan(*split, bounces, max_bounces, min_intensity.val()),
        r is None <==> bounces == max_bounces,
        r matches Some(p) ==> p.next_bounces == bounces + 1,
{
    if bounces >= max_bounces {
        None
    } else {
        Some(
            BouncePlan {
                next_bounces: bounces + 1,
                reflect: split.reflection.raw > min_intensity.raw,
                refract: split.refraction.raw > min_intensity.raw,
            },
        )
    }
}

/// With a bounce limit of zero, a primary hit neither samples ambient occlusion
/// nor recurses: its whole contribution is the color share of its split.
pub proof fn lemma_zero_bounce_limit(split: IntensitySplit, min_intensity: int, strength: int)
    ensures
        !ao_applies_spec(0, 0, strength),
        bounce_plan(split, 0, 0, min_intensity) is None,
{
}

/// A material property that changes from where a ray meets the surface
/// head-on to where it grazes it.
#[derive(Clone, Copy, Debug, PartialEq, Eq, Structural)]
pub struct EdgeBlend {
    /// The value head-on.
    pub center: Fixed,
    /// The value at a grazing angle.
    pub edges: Fixed,
    /// The incidence steepness (0 head-on, 1 grazing) raised to the
    /// property's power.
    pub influence: Fixed,
}

/// What a hit does with the intensity that reaches it.
#[derive(Clone, Copy, Debug, PartialEq, Eq, Structural)]
pub struct Shading {
    /// How the intensity is shared out.
    pub split: IntensitySplit,
    /// The rays it spawns; `None` at the bounce limit.
    pub plan: Option<BouncePlan>,
}

/// Whether the shading of a hit can be computed without overflow.
pub open spec fn shading_fits(intensity: int, opacity: EdgeBlend, reflection: EdgeBlend) -> bool {
    &&& blend_fits(opacity.center.val(), opacity.edges.val(), opacity.influence.val())
    &&& blend_fits(reflection.center.val(), reflection.edges.val(), reflection.influence.val())
    &&& split_fits(
        intensity,
        blend(opacity.center.val(), opacity.edges.val(), opacity.influence.val()),
        blend(reflection.center.val(), reflection.edges.val(), reflection.influence.val()),
    )
}

/// Shades a hit: blends opacity and reflectivity for the angle of incidence,
/// shares `intensity` out between color, reflection and refraction, and
/// decides the recursion. `None` when an intermediate value does not fit.
pub fn shade_hit(
    intensity: Fixed,
    opacity: EdgeBlend,
    reflection: EdgeBlend,
    bounces: u32,
    max_bounces: u32,
    min_intensity: Fixed,
) -> (r: Option<Shading>)
    requires
        bounces <= max_bounces,
    ensures
        r is Some <==> shading_fits(intensity.val(), opacity, reflection),
        r matches Some(s) ==> (s.split.color.val(), s.split.reflection.val(), s.split.refraction.val())
            == split_shares(
            intensity.val(),
            blend(opacity.center.val(), opacity.edges.val(), opacity.influence.val()),
            blend(reflection.center.val(), reflection.edges.val(), reflection.influence.val()),
        ),
        r matches Some(s) ==> s.plan == bounce_plan(
            s.split,
            bounces,
            max_bounces,
            min_intensity.val(),
        ),
{
    let alpha = match edge_blend(opacity.center, opacity.edges, opacity.influence) {
        Some(a) => a,
        None => return None,
    };
    let reflectivity = match edge_blend(reflection.center, reflection.edges, reflection.influence) {
        Some(m) => m,
        None => return None,
    };
    let split = match split_intensity(intensity, alpha, reflectivity) {
        Some(s) => s,
        None => return None,
    };
    let plan = plan_bounce(&split, bounces, max_bounces, min_intensity);
    Some(Shading { split, plan })
}

} // verus!

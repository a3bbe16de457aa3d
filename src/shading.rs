use vstd::prelude::*;
use crate::color::Color;

verus! {

/// The colour a primary ray receives, given what the geometric tests found.
///
/// The tests are taken in order: a hit on the sphere wins, otherwise a plane
/// lying behind the ray leaves the sky, otherwise the plane is seen, darkened
/// to one half where the way back to the light crosses the sphere.
pub open spec fn shade_spec(
    sphere_hit: bool,
    sphere_level: u8,
    plane_behind: bool,
    plane_level: u8,
    in_shadow: bool,
) -> Color {
    if sphere_hit {
        Color(sphere_level, sphere_level, sphere_level)
    } else if plane_behind {
        Color(255, 255, 255)
    } else if in_shadow {
        Color(plane_level / 2, plane_level / 2, plane_level / 2)
    } else {
        Color(plane_level, plane_level, plane_level)
    }
}

/// Decides the colour of one pixel.
///
/// `sphere_hit`: the sphere is met ahead of the ray origin; `sphere_level`:
/// white scaled by the light intensity there. `plane_behind`: the plane is
/// met behind the origin, so the ray sees the sky. `plane_level`: white
/// scaled by the distance shading of the plane hit. `in_shadow`: the ray from
/// that hit towards the light meets the sphere.
pub fn shade(
    sphere_hit: bool,
    sphere_level: u8,
    plane_behind: bool,
    plane_level: u8,
    in_shadow: bool,
) -> (c: Color)
    ensures
        c == shade_spec(sphere_hit, sphere_level, plane_behind, plane_level, in_shadow),
{
    if sphere_hit {
        Color::gray(sphere_level)
    } else if plane_behind {
        Color::white()
    } else {
        let base = Color::gray(plane_level);
        if in_shadow {
            base.halved()
        } else {
            base
        }
    }
}

/// A shadowed plane point and an unshadowed one at the same distance differ
/// by exactly a factor of one half in each channel, truncated.
pub proof fn lemma_shadow_halves(plane_level: u8, sphere_level: u8)
    ensures
        ({
            let lit = shade_spec(false, sphere_level, false, plane_level, false);
            let dark = shade_spec(false, sphere_level, false, plane_level, true);
            dark.0 == lit.0 / 2 && dark.1 == lit.1 / 2 && dark.2 == lit.2 / 2
        }),
{
}

/// Whatever else the tests found, a sphere hit gives a grey: white scaled
/// by one intensity in all three channels.
pub proof fn lemma_sphere_is_gray(
    sphere_level: u8,
    plane_behind: bool,
    plane_level: u8,
    in_shadow: bool,
)
    ensures
        ({
            let c = shade_spec(true, sphere_level, plane_behind, plane_level, in_shadow);
            c.0 == sphere_level && c.1 == sphere_level && c.2 == sphere_level
        }),
{
}

/// A ray that misses the sphere and sees no plane ahead of it is sky white.
pub proof fn lemma_miss_is_sky(sphere_level: u8, plane_level: u8, in_shadow: bool)
    ensures
        shade_spec(false, sphere_level, true, plane_level, in_shadow) == Color(255, 255, 255),
{
}

} // verus!

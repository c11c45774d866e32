//! Materials: what becomes of a ray at a surface.

use vstd::prelude::*;
use crate::hit::HitRecord;
use crate::ray::Ray;
use crate::scalar::Scalar;
use crate::vec3::{Colour, Vec3};

verus! {

/// A surface's way of scattering light.
#[derive(Clone, Copy, Debug)]
pub enum Material {
    /// A diffuse surface of colour `albedo`.
    Lambertian { albedo: Colour },
    /// A mirror of colour `albedo`, blurred by `fuzz`, between zero and one.
    Metal { albedo: Colour, fuzz: Scalar },
    /// A clear solid that bends light by `ref_idx`.
    Dielectric { ref_idx: Scalar },
}

/// The two ways through a clear surface.
#[derive(Clone, Copy, Debug, PartialEq, Eq, Structural)]
pub enum Bend {
    Reflect,
    Refract,
}

impl Material {
    /// The share of each colour that the material passes on: its albedo,
    /// and all of the light for a clear solid.
    pub open spec fn passes(self) -> Colour {
        match self {
            Material::Lambertian { albedo } => albedo,
            Material::Metal { albedo, .. } => albedo,
            Material::Dielectric { .. } => Vec3::ones(),
        }
    }

    /// Whether a ray scattered with the given alignment goes on. Only a
    /// metal absorbs: it swallows what its blur has sent into the surface.
    pub open spec fn keeps(self, alignment: Scalar) -> bool {
        match self {
            Material::Metal { .. } => alignment.is_positive(),
            _ => true,
        }
    }

    /// The attenuation of a ray scattered by this material.
    pub fn attenuation(&self) -> (r: Colour)
        ensures
            r == self.passes(),
    {
        match self {
            Material::Lambertian { albedo } => *albedo,
            Material::Metal { albedo, .. } => *albedo,
            Material::Dielectric { .. } => Vec3::white(),
        }
    }

    /// The ray that leaves the hit `rec` in `direction`, with its
    /// attenuation, or nothing where the surface absorbs the light.
    /// `alignment` is the dot product of `direction` with the normal of
    /// `rec`.
    pub fn scatter(&self, rec: &HitRecord, direction: Vec3, alignment: Scalar) -> (r: Option<
        (Colour, Ray),
    >)
        ensures
            r == if self.keeps(alignment) {
                Some((self.passes(), (Ray { origin: rec.p, dir: direction })))
            } else {
                None
            },
    {
        let scattered = Ray { origin: rec.p, dir: direction };
        match self {
            Material::Metal { albedo, .. } => {
                if alignment.gt(Scalar::zero()) {
                    Some((*albedo, scattered))
                } else {
                    None
                }
            },
            _ => Some((self.attenuation(), scattered)),
        }
    }
}

/// The ratio of the refractive indices that a ray crosses: `inverse`, one
/// over the solid's index, on the way in, and the index itself on the way
/// out.
pub fn refraction_ratio(front_face: bool, ref_idx: Scalar, inverse: Scalar) -> (r: Scalar)
    ensures
        r == if front_face {
            inverse
        } else {
            ref_idx
        },
{
    if front_face {
        inverse
    } else {
        ref_idx
    }
}

/// Which way a ray takes through a clear surface. `ratio_sin` is the
/// refraction ratio times the sine of the angle of incidence: above one no
/// refracted ray exists. Otherwise the ray is reflected with probability
/// `reflectance`: where `sample`, drawn uniformly from zero to one, falls
/// below it.
pub open spec fn bend(ratio_sin: Scalar, sample: Scalar, reflectance: Scalar) -> Bend {
    if cannot_refract(ratio_sin) || sample.less(reflectance) {
        Bend::Reflect
    } else {
        Bend::Refract
    }
}

/// Total internal reflection: the refraction ratio times the sine of the
/// angle of incidence is above one.
pub open spec fn cannot_refract(ratio_sin: Scalar) -> bool {
    Scalar::one().less(ratio_sin)
}

/// Whether the surface reflects the ray whatever the draw.
pub fn must_reflect(ratio_sin: Scalar) -> (r: bool)
    ensures
        r == cannot_refract(ratio_sin),
{
    ratio_sin.gt(Scalar::one())
}

/// The way of a ray that could be refracted, by the draw.
pub fn choose_bend(ratio_sin: Scalar, sample: Scalar, reflectance: Scalar) -> (r: Bend)
    ensures
        r == bend(ratio_sin, sample, reflectance),
{
    if must_reflect(ratio_sin) || sample.lt(reflectance) {
        Bend::Reflect
    } else {
        Bend::Refract
    }
}

/// Beyond the critical angle a clear surface reflects, whatever is drawn.
/// At the critical angle itself and below it the draw decides: the ray is
/// reflected exactly where the sample falls below the reflectance.
pub proof fn lemma_total_internal_reflection(
    ratio_sin: Scalar,
    sample: Scalar,
    reflectance: Scalar,
)
    ensures
        cannot_refract(ratio_sin) ==> bend(ratio_sin, sample, reflectance) == Bend::Reflect,
        !cannot_refract(ratio_sin) ==> (bend(ratio_sin, sample, reflectance) == Bend::Reflect
            <==> sample.less(reflectance)),
        ratio_sin == Scalar::one() ==> !cannot_refract(ratio_sin),
{
}

} // verus!

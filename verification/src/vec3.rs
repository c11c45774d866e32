//! Triples of numbers: points, directions and colours.

use vstd::prelude::*;
use crate::scalar::Scalar;

verus! {

/// Three numbers, read as a point, a direction or a colour.
#[derive(Clone, Copy, Debug)]
pub struct Vec3 {
    pub x: Scalar,
    pub y: Scalar,
    pub z: Scalar,
}

/// A colour: red, green and blue, each between zero and one.
pub type Colour = Vec3;

/// A point in space.
pub type Point3 = Vec3;

impl Vec3 {
    /// The vector of three zeros: the origin, and black.
    pub open spec fn zeros() -> Vec3 {
        Vec3 { x: Scalar::zero(), y: Scalar::zero(), z: Scalar::zero() }
    }

    /// The vector of three ones: white.
    pub open spec fn ones() -> Vec3 {
        Vec3 { x: Scalar::one(), y: Scalar::one(), z: Scalar::one() }
    }

    /// The vector with the sign of each component flipped.
    pub open spec fn negated(self) -> Vec3 {
        Vec3 { x: self.x.negated(), y: self.y.negated(), z: self.z.negated() }
    }

    /// The opposite vector.
    pub fn neg(self) -> (r: Vec3)
        ensures
            r == self.negated(),
            r.x.value() == -self.x.value(),
            r.y.value() == -self.y.value(),
            r.z.value() == -self.z.value(),
    {
        Vec3 { x: self.x.neg(), y: self.y.neg(), z: self.z.neg() }
    }

    /// White, the colour that attenuates nothing.
    pub fn white() -> (r: Colour)
        ensures
            r == Vec3::ones(),
    {
        Vec3 { x: Scalar::one(), y: Scalar::one(), z: Scalar::one() }
    }
}

impl Default for Vec3 {
    fn default() -> (r: Vec3)
        ensures
            r == Vec3::zeros(),
    {
        Vec3 { x: Scalar::zero(), y: Scalar::zero(), z: Scalar::zero() }
    }
}

/// Whether a point lies outside the unit ball, given the square of its
/// distance from the origin. Points on the sphere itself are inside.
pub fn outside_unit_ball(length_squared: Scalar) -> (r: bool)
    ensures
        r == Scalar::one().less(length_squared),
{
    length_squared.gt(Scalar::one())
}

/// A sample turned into the hemisphere around a normal: the sample itself
/// where it is aligned with the normal (`alignment`, their dot product, is
/// positive), else its opposite.
pub fn into_hemisphere(sample: Vec3, alignment: Scalar) -> (r: Vec3)
    ensures
        r == if alignment.is_positive() {
            sample
        } else {
            sample.negated()
        },
{
    if alignment.gt(Scalar::zero()) {
        sample
    } else {
        sample.neg()
    }
}

} // verus!

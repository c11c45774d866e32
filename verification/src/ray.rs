//! Rays.

use vstd::prelude::*;
use crate::vec3::{Point3, Vec3};

verus! {

/// A half-line: the points `origin + t * dir` for the parameters `t`.
#[derive(Clone, Copy, Debug)]
pub struct Ray {
    pub origin: Point3,
    pub dir: Vec3,
}

} // verus!

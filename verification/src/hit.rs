//! Which root of a sphere's quadratic a ray accepts, and which of many
//! objects it meets first.

use vstd::prelude::*;
use crate::scalar::Scalar;
use crate::vec3::{Point3, Vec3};

verus! {

/// Whether `t` lies strictly between `t_min` and `t_max`.
pub open spec fn within(t: Scalar, t_min: Scalar, t_max: Scalar) -> bool {
    t.less(t_max) && t_min.less(t)
}

/// What a ray's quadratic against one sphere came to: its discriminant and
/// the parameters of the two crossings, the nearer one first.
#[derive(Clone, Copy, Debug)]
pub struct Roots {
    pub discriminant: Scalar,
    pub near: Scalar,
    pub far: Scalar,
}

impl Roots {
    /// Whether the ray crosses the sphere at all: the discriminant is
    /// positive. A ray that only touches the sphere does not cross it.
    pub open spec fn crosses(self) -> bool {
        self.discriminant.is_positive()
    }

    /// Whether the roots come in ascending order.
    pub open spec fn ascending(self) -> bool {
        !self.far.less(self.near)
    }

    /// The crossing that counts between `t_min` and `t_max`: the near root
    /// where it lies strictly between them, else the far root where that one
    /// does, and neither without a positive discriminant.
    pub open spec fn accepted(self, t_min: Scalar, t_max: Scalar) -> Option<Scalar> {
        if !self.crosses() {
            None
        } else if within(self.near, t_min, t_max) {
            Some(self.near)
        } else if within(self.far, t_min, t_max) {
            Some(self.far)
        } else {
            None
        }
    }

    /// The parameter at which the ray hits the sphere between `t_min` and
    /// `t_max`, if it does.
    pub fn hit(&self, t_min: Scalar, t_max: Scalar) -> (r: Option<Scalar>)
        ensures
            r == self.accepted(t_min, t_max),
            self.discriminant.is_nan() || self.discriminant.value() <= 0 ==> r is None,
            r matches Some(t) ==> within(t, t_min, t_max) && (t == self.near || t == self.far),
    {
        if self.discriminant.gt(Scalar::zero()) {
            if self.near.lt(t_max) && self.near.gt(t_min) {
                return Some(self.near);
            }
            if self.far.lt(t_max) && self.far.gt(t_min) {
                return Some(self.far);
            }
        }
        None
    }
}

/// What is known of the place where a ray meets a surface.
#[derive(Clone, Copy, Debug)]
pub struct HitRecord {
    /// The place itself.
    pub p: Point3,
    /// The unit normal there, turned against the ray.
    pub normal: Vec3,
    /// The ray's parameter there.
    pub t: Scalar,
    /// Whether the ray met the outward side of the surface.
    pub front_face: bool,
    /// The surface's material, by its index in the scene.
    pub material: usize,
}

impl HitRecord {
    /// The record that a fresh hit starts from: the origin, no normal, the
    /// scene's first material.
    pub open spec fn blank() -> HitRecord {
        HitRecord {
            p: Vec3::zeros(),
            normal: Vec3::zeros(),
            t: Scalar::zero(),
            front_face: false,
            material: 0,
        }
    }

    /// Stores the side that was hit and the normal that faces the ray.
    /// `alignment` is the dot product of the ray's direction with
    /// `outward_normal`: where it is negative the ray came from outside and
    /// the outward normal is kept, else the normal is turned round.
    pub fn set_face_normal(&mut self, alignment: Scalar, outward_normal: Vec3)
        ensures
            final(self).front_face == alignment.is_negative(),
            final(self).normal == if alignment.is_negative() {
                outward_normal
            } else {
                outward_normal.negated()
            },
            final(self).p == old(self).p,
            final(self).t == old(self).t,
            final(self).material == old(self).material,
    {
        self.front_face = alignment.lt(Scalar::zero());
        self.normal = if self.front_face {
            outward_normal
        } else {
            outward_normal.neg()
        };
    }
}

impl Default for HitRecord {
    fn default() -> (r: HitRecord)
        ensures
            r == HitRecord::blank(),
    {
        HitRecord {
            p: Vec3::default(),
            normal: Vec3::default(),
            t: Scalar::zero(),
            front_face: false,
            material: 0,
        }
    }
}

/// The alignment of the stored normal with the ray, given that of the
/// outward normal: turning a normal round flips the sign of its dot product
/// with anything.
pub open spec fn stored_alignment(alignment: Scalar) -> Scalar {
    if alignment.is_negative() {
        alignment
    } else {
        alignment.negated()
    }
}

/// The stored normal never points along the ray, and it points against the
/// ray whenever the ray is not perpendicular to the outward normal.
pub proof fn lemma_stored_normal_opposes_ray(alignment: Scalar)
    ensures
        !stored_alignment(alignment).is_positive(),
        !alignment.is_nan() && alignment.value() != 0 ==> stored_alignment(
            alignment,
        ).is_negative(),
{
    let flipped = alignment.negated();
    assert(flipped.magnitude() == alignment.magnitude());
    assert(flipped.sign() != alignment.sign());
}

/// An object of a list and the parameter at which the ray meets it.
#[derive(Clone, Copy, Debug)]
pub struct Hit {
    pub index: usize,
    pub t: Scalar,
}

/// The upper bound that is left after `best`.
pub open spec fn bound_after(best: Option<Hit>, t_max: Scalar) -> Scalar {
    match best {
        Some(h) => h.t,
        None => t_max,
    }
}

/// The hit that a walk along `objects` ends with, when every object is asked
/// for a hit below the closest one found before it.
pub open spec fn scan(objects: Seq<Roots>, t_min: Scalar, t_max: Scalar) -> Option<Hit>
    decreases objects.len(),
{
    if objects.len() == 0 {
        None
    } else {
        let before = scan(objects.drop_last(), t_min, t_max);
        match objects.last().accepted(t_min, bound_after(before, t_max)) {
            Some(t) => Some(Hit { index: (objects.len() - 1) as usize, t }),
            None => before,
        }
    }
}

/// Whether `r` is the nearest hit among `objects` between `t_min` and
/// `t_max`: no object is hit nearer, and of those hit equally near it is the
/// first. `None` says that no object is hit.
pub open spec fn nearest(
    objects: Seq<Roots>,
    t_min: Scalar,
    t_max: Scalar,
    r: Option<Hit>,
) -> bool {
    match r {
        None => forall|j: int|
            0 <= j < objects.len() ==> (#[trigger] objects[j]).accepted(t_min, t_max) is None,
        Some(h) => {
            &&& h.index < objects.len()
            &&& objects[h.index as int].accepted(t_min, t_max) == Some(h.t)
            &&& forall|j: int|
                0 <= j < objects.len() ==> match (#[trigger] objects[j]).accepted(t_min, t_max) {
                    Some(t) => !t.less(h.t) && (j < h.index ==> h.t.less(t)),
                    None => true,
                }
        },
    }
}

/// Whether the roots of every object come in ascending order.
pub open spec fn all_ascending(objects: Seq<Roots>) -> bool {
    forall|j: int| 0 <= j < objects.len() ==> (#[trigger] objects[j]).ascending()
}

/// Asking an object with ascending roots for a hit below a bound `c` that is
/// no larger than `t_max` gives its hit below `t_max`, where that lies below
/// `c`, and nothing else.
pub proof fn lemma_lower_bound(o: Roots, t_min: Scalar, t_max: Scalar, c: Scalar)
    requires
        o.ascending(),
        c == t_max || within(c, t_min, t_max),
    ensures
        o.accepted(t_min, c) == match o.accepted(t_min, t_max) {
            Some(t) => if t.less(c) {
                Some(t)
            } else {
                None
            },
            None => None,
        },
{
}

/// Closest-hit semantics: where every object's roots ascend, the walk ends
/// with the nearest hit of the whole list, not with the first or the last.
pub proof fn lemma_scan_is_nearest(objects: Seq<Roots>, t_min: Scalar, t_max: Scalar)
    requires
        objects.len() <= usize::MAX,
        all_ascending(objects),
    ensures
        nearest(objects, t_min, t_max, scan(objects, t_min, t_max)),
    decreases objects.len(),
{
    if objects.len() > 0 {
        let prefix = objects.drop_last();
        let before = scan(prefix, t_min, t_max);
        let bound = bound_after(before, t_max);
        assert forall|j: int| 0 <= j < prefix.len() implies prefix[j] == objects[j] by {
        }
        lemma_scan_is_nearest(prefix, t_min, t_max);
        // The bound is `t_max` or a hit that was found below it.
        assert(bound == t_max || within(bound, t_min, t_max)) by {
            if let Some(h) = before {
                assert(prefix[h.index as int].accepted(t_min, t_max) == Some(h.t));
            }
        }
        lemma_lower_bound(objects.last(), t_min, t_max, bound);
        match scan(objects, t_min, t_max) {
            None => {
                assert forall|j: int| 0 <= j < objects.len() implies (#[trigger] objects[j]).accepted(
                    t_min,
                    t_max,
                ) is None by {
                    if j < prefix.len() {
                        assert(objects[j] == prefix[j]);
                    }
                }
            },
            Some(h) => {
                assert forall|j: int| 0 <= j < objects.len() implies match (#[trigger] objects[j]).accepted(
                    t_min,
                    t_max,
                ) {
                    Some(t) => !t.less(h.t) && (j < h.index ==> h.t.less(t)),
                    None => true,
                } by {
                    if j < prefix.len() {
                        assert(objects[j] == prefix[j]);
                    }
                }
                if h.index < prefix.len() {
                    assert(objects[h.index as int] == prefix[h.index as int]);
                }
            },
        }
    }
}

/// The nearest hit of a ray among `objects` between `t_min` and `t_max`. The
/// objects are asked in order, each for a hit nearer than the closest so far.
pub fn closest_hit(objects: &Vec<Roots>, t_min: Scalar, t_max: Scalar) -> (r: Option<Hit>)
    ensures
        r == scan(objects@, t_min, t_max),
        all_ascending(objects@) ==> nearest(objects@, t_min, t_max, r),
{
    let mut best: Option<Hit> = None;
    let mut closest_so_far = t_max;
    let mut i: usize = 0;
    while i < objects.len()
        invariant
            i <= objects.len(),
            best == scan(objects@.take(i as int), t_min, t_max),
            closest_so_far == bound_after(best, t_max),
        decreases objects.len() - i,
    {
        proof {
            assert(objects@.take(i + 1).drop_last() =~= objects@.take(i as int));
        }
        match objects[i].hit(t_min, closest_so_far) {
            Some(t) => {
                best = Some(Hit { index: i, t });
                closest_so_far = t;
            },
            None => {},
        }
        i += 1;
    }
    proof {
        assert(objects@.take(objects.len() as int) =~= objects@);
        if all_ascending(objects@) {
            lemma_scan_is_nearest(objects@, t_min, t_max);
        }
    }
    best
}

} // verus!

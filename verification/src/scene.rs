//! The scene: spheres, and the materials that they share.

use vstd::prelude::*;
use crate::material::Material;
use crate::scalar::Scalar;
use crate::vec3::Point3;

verus! {

/// A sphere. A negative radius turns its surface inside out, which makes a
/// hollow of it.
#[derive(Clone, Copy, Debug)]
pub struct Sphere {
    pub center: Point3,
    pub radius: Scalar,
    /// The material, by its index in the scene.
    pub material: usize,
}

/// Why a scene refused a sphere.
#[derive(Clone, Copy, Debug, PartialEq, Eq, Structural)]
pub enum SceneError {
    /// The sphere names a material that the scene does not hold.
    UnknownMaterial,
}

/// What a scene holds, in the order in which it was added.
pub struct SceneView {
    pub materials: Seq<Material>,
    pub spheres: Seq<Sphere>,
}

/// Spheres and their materials. Every sphere's material is one of the
/// scene's.
pub struct Scene {
    materials: Vec<Material>,
    spheres: Vec<Sphere>,
}

impl View for Scene {
    type V = SceneView;

    closed spec fn view(&self) -> SceneView {
        SceneView { materials: self.materials@, spheres: self.spheres@ }
    }
}

impl Scene {
    /// Whether every sphere's material is one of the scene's. A scene that
    /// was built by `new`, `add_material` and `add_sphere` is.
    pub open spec fn linked(&self) -> bool {
        forall|i: int|
            0 <= i < self@.spheres.len() ==> (#[trigger] self@.spheres[i]).material
                < self@.materials.len()
    }

    /// The empty scene.
    pub fn new() -> (scene: Scene)
        ensures
            scene@.materials.len() == 0,
            scene@.spheres.len() == 0,
            scene.linked(),
    {
        Scene { materials: Vec::new(), spheres: Vec::new() }
    }

    /// Adds a material and gives its index.
    pub fn add_material(&mut self, material: Material) -> (index: usize)
        ensures
            index == old(self)@.materials.len(),
            final(self)@.materials == old(self)@.materials.push(material),
            final(self)@.spheres == old(self)@.spheres,
            old(self).linked() ==> final(self).linked(),
    {
        let index: usize = self.materials.len();
        self.materials.push(material);
        index
    }

    /// Adds a sphere and gives its index, unless the scene lacks the
    /// sphere's material: then the scene stays as it was.
    pub fn add_sphere(&mut self, sphere: Sphere) -> (r: Result<usize, SceneError>)
        ensures
            final(self)@.materials == old(self)@.materials,
            sphere.material < old(self)@.materials.len() ==> r == Ok::<usize, SceneError>(
                old(self)@.spheres.len() as usize,
            ) && final(self)@.spheres == old(self)@.spheres.push(sphere),
            sphere.material >= old(self)@.materials.len() ==> r == Err::<usize, SceneError>(
                SceneError::UnknownMaterial,
            ) && final(self)@.spheres == old(self)@.spheres,
            old(self).linked() ==> final(self).linked(),
    {
        if sphere.material < self.materials.len() {
            let index: usize = self.spheres.len();
            self.spheres.push(sphere);
            Ok(index)
        } else {
            Err(SceneError::UnknownMaterial)
        }
    }

    /// The spheres, in the order in which they were added.
    pub fn spheres(&self) -> (r: &Vec<Sphere>)
        ensures
            r@ == self@.spheres,
    {
        &self.spheres
    }

    /// The material with the given index, if the scene holds it. In a
    /// linked scene it holds the material of every sphere.
    pub fn material(&self, index: usize) -> (r: Option<&Material>)
        ensures
            r is Some <==> index < self@.materials.len(),
            r matches Some(m) ==> *m == self@.materials[index as int],
            self.linked() ==> forall|i: int|
                0 <= i < self@.spheres.len() && index == (#[trigger] self@.spheres[i]).material
                    ==> r is Some,
    {
        if index < self.materials.len() {
            Some(&self.materials[index])
        } else {
            None
        }
    }
}

} // verus!

use vstd::prelude::*;

use crate::env::{plane_hit, sphere_hit, Plane, Sphere};
use crate::types::{Intersection, Light, Point, Ray, Rgb, SceneParams, SceneParamsView, V3};

verus! {

/// An object of a scene: one of the shapes that the tracer can hit.
#[derive(Clone, Copy, Debug, PartialEq, Eq, Structural)]
pub enum SceneObject {
    Sphere(Sphere),
    Plane(Plane),
}

/// What `SceneObject::test_hit` returns.
pub open spec fn object_hit(o: SceneObject, ray: Ray) -> Option<Intersection> {
    match o {
        SceneObject::Sphere(s) => sphere_hit(s, ray),
        SceneObject::Plane(p) => plane_hit(p, ray),
    }
}

impl SceneObject {
    /// Where `ray` first meets the object at a parameter `t >= 0`, if it does.
    pub fn test_hit(&self, ray: &Ray) -> (r: Option<Intersection>)
        requires
            !ray.direction.is_zero(),
        ensures
            r == object_hit(*self, *ray),
    {
        match self {
            SceneObject::Sphere(s) => s.test_hit(ray),
            SceneObject::Plane(p) => p.test_hit(ray),
        }
    }
}

/// The camera: where it stands, where it looks (a vector that is not zero),
/// how far in front of it the image plane stands and how wide that plane is.
#[derive(Clone, Copy, Debug, PartialEq, Eq, Structural)]
pub struct Camera {
    pub position: Point,
    pub direction: V3,
    pub image_distance: i16,
    pub image_width: i16,
}

/// A scene, built once and then only read: its objects (an object's id is
/// its index), its lights and ambient intensity, and its camera.
pub struct Scene {
    pub objects: Vec<SceneObject>,
    pub params: SceneParams,
    pub camera: Camera,
}

/// The scene built by `default_env`.
pub type Environment = Scene;

/// `Scene` with its collections as sequences.
pub struct SceneView {
    pub objects: Seq<SceneObject>,
    pub params: SceneParamsView,
    pub camera: Camera,
}

impl View for Scene {
    type V = SceneView;

    open spec fn view(&self) -> SceneView {
        SceneView { objects: self.objects@, params: self.params@, camera: self.camera }
    }
}

/// The hits of `ray` on the objects of `objects`, as pairs of id and hit, in
/// the order of the ids, leaving out the object whose id is `excluded`.
pub open spec fn hits_of(objects: Seq<SceneObject>, ray: Ray, excluded: Option<usize>) -> Seq<(usize, Intersection)>
    decreases objects.len(),
{
    if objects.len() == 0 {
        Seq::empty()
    } else {
        let last = (objects.len() - 1) as usize;
        let front = hits_of(objects.drop_last(), ray, excluded);
        match object_hit(objects.last(), ray) {
            Some(i) => if excluded == Some(last) {
                front
            } else {
                front.push((last, i))
            },
            None => front,
        }
    }
}

impl Scene {
    /// Builds the scene; the camera direction must not be zero.
    pub fn new(
        objects: Vec<SceneObject>,
        lights: Vec<Light>,
        ambient_intensity: Rgb,
        camera_position: Point,
        camera_direction: V3,
        image_distance: i16,
        image_width: i16,
    ) -> (r: Scene)
        requires
            !camera_direction.is_zero(),
        ensures
            r@.objects == objects@,
            r@.params.lights == lights@,
            r@.params.ambient_intensity == ambient_intensity,
            r@.camera == (Camera { position: camera_position, direction: camera_direction, image_distance, image_width }),
    {
        Scene {
            objects,
            params: SceneParams { lights, ambient_intensity },
            camera: Camera { position: camera_position, direction: camera_direction, image_distance, image_width },
        }
    }

    /// Every hit of `ray` on the scene's objects, with the id of the object
    /// hit, in the order of the ids; the object with id `excluded` is left
    /// out, so that a ray cast from a surface does not meet that surface.
    pub fn hits(&self, ray: &Ray, excluded: Option<usize>) -> (r: Vec<(usize, Intersection)>)
        requires
            !ray.direction.is_zero(),
        ensures
            r@ == hits_of(self.objects@, *ray, excluded),
            forall|k: int| 0 <= k < r@.len() ==> {
                &&& (#[trigger] r@[k]).0 < self.objects@.len()
                &&& Some(r@[k].0) != excluded
                &&& object_hit(self.objects@[r@[k].0 as int], *ray) == Some(r@[k].1)
            },
            forall|i: int| 0 <= i < self.objects@.len() && Some(i as usize) != excluded
                && (#[trigger] object_hit(self.objects@[i], *ray)).is_some()
                ==> exists|k: int| 0 <= k < r@.len() && (#[trigger] r@[k]).0 == i,
    {
        let mut r: Vec<(usize, Intersection)> = Vec::new();
        let mut i: usize = 0;
        while i < self.objects.len()
            invariant
                i <= self.objects@.len(),
                !ray.direction.is_zero(),
                r@ == hits_of(self.objects@.subrange(0, i as int), *ray, excluded),
                forall|k: int| 0 <= k < r@.len() ==> {
                    &&& (#[trigger] r@[k]).0 < i
                    &&& Some(r@[k].0) != excluded
                    &&& object_hit(self.objects@[r@[k].0 as int], *ray) == Some(r@[k].1)
                },
                forall|j: int| 0 <= j < i && Some(j as usize) != excluded
                    && (#[trigger] object_hit(self.objects@[j], *ray)).is_some()
                    ==> exists|k: int| 0 <= k < r@.len() && (#[trigger] r@[k]).0 == j,
            decreases self.objects@.len() - i,
        {
            proof {
                let next = self.objects@.subrange(0, i + 1);
                assert(next.drop_last() =~= self.objects@.subrange(0, i as int));
                assert(next.last() == self.objects@[i as int]);
            }
            match self.objects[i].test_hit(ray) {
                Some(hit) => {
                    if excluded != Some(i) {
                        let ghost before = r@;
                        r.push((i, hit));
                        proof {
                            assert forall|j: int| 0 <= j < i + 1 && Some(j as usize) != excluded
                                && (#[trigger] object_hit(self.objects@[j], *ray)).is_some()
                                implies exists|k: int| 0 <= k < r@.len() && (#[trigger] r@[k]).0 == j by {
                                if j < i {
                                    let k = choose|k: int| 0 <= k < before.len() && (#[trigger] before[k]).0 == j;
                                    assert(r@[k] == before[k]);
                                } else {
                                    assert(r@[before.len() as int].0 == j);
                                }
                            }
                        }
                    }
                },
                None => {},
            }
            i = i + 1;
        }
        proof {
            assert(self.objects@.subrange(0, i as int) =~= self.objects@);
        }
        r
    }
}

} // verus!

//! The closed set of renderable objects.
//!
//! Both primitive kinds satisfy the same capability set: hit-test
//! against a ray, surface normal at a point, and intrinsic color. The
//! renderer consumes only these three operations.

use vstd::prelude::*;
use crate::color::{Color, ColorV};
use crate::scene::{Ray, RayV};
use crate::vec3::{V3, Vec3, opt_v3};

pub mod plane;
pub mod sphere;

pub use plane::{Plane, PlaneV, plane_hit};
pub use sphere::{Sphere, SphereV, sphere_hit, sphere_normal};

verus! {

/// The mathematical model of an object.
pub ghost enum ObjectV {
    Sphere(SphereV),
    Plane(PlaneV),
}

/// A renderable object: a tagged variant over the two primitive kinds.
#[derive(Debug, Clone, Copy)]
pub enum Object {
    Sphere(Sphere),
    Plane(Plane),
}

impl View for Object {
    type V = ObjectV;

    open spec fn view(&self) -> ObjectV {
        match self {
            Object::Sphere(s) => ObjectV::Sphere(s@),
            Object::Plane(p) => ObjectV::Plane(p@),
        }
    }
}

/// The models of a list of objects.
pub open spec fn objects_view(os: Seq<Object>) -> Seq<ObjectV> {
    Seq::new(os.len(), |i: int| os[i]@)
}

/// The nearest valid intersection of a ray with an object, if any.
pub open spec fn object_hit(o: ObjectV, ray: RayV) -> Option<V3> {
    match o {
        ObjectV::Sphere(s) => sphere_hit(ray, s),
        ObjectV::Plane(p) => plane_hit(ray, p),
    }
}

/// The surface normal of an object at a point assumed on its surface.
pub open spec fn object_normal(o: ObjectV, p: V3) -> V3 {
    match o {
        ObjectV::Sphere(s) => sphere_normal(s, p),
        ObjectV::Plane(pl) => pl.normal,
    }
}

pub open spec fn object_color(o: ObjectV) -> ColorV {
    match o {
        ObjectV::Sphere(s) => s.color,
        ObjectV::Plane(p) => p.color,
    }
}

impl Object {
    pub fn hit_test(&self, ray: Ray) -> (hit: Option<Vec3>)
        ensures
            opt_v3(hit) == object_hit(self@, ray@),
    {
        match self {
            Object::Sphere(s) => s.hit_test(ray),
            Object::Plane(p) => p.hit_test(ray),
        }
    }

    pub fn normal(&self, surface_point: Vec3) -> (n: Vec3)
        ensures
            n@ == object_normal(self@, surface_point@),
    {
        match self {
            Object::Sphere(s) => s.normal(surface_point),
            Object::Plane(p) => p.normal(surface_point),
        }
    }

    pub fn color(&self) -> (c: Color)
        ensures
            c@ == object_color(self@),
    {
        match self {
            Object::Sphere(s) => s.color(),
            Object::Plane(p) => p.color(),
        }
    }
}

} // verus!

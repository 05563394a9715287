//! Spheres, and which of a ray's two crossings counts as the hit.
use crate::structs::aabb::AABB;
use crate::structs::hitable::HitRecord;
use crate::structs::material::Material;
use crate::structs::ray::Ray;
use crate::structs::scalar::Scalar;
use crate::structs::vec3::{Point3, Vec3};
use vstd::prelude::*;

verus! {

/// One place where a ray crosses a surface: the parameter, the point, the
/// geometric normal there, and the inner product of the ray's direction
/// with that normal.
#[derive(Clone, Copy, Debug)]
pub struct Crossing {
    pub t: Scalar,
    pub point: Point3,
    pub normal: Vec3,
    pub facing: Scalar,
}

/// What the quadratic of a ray and a sphere yields. With `o` the ray's
/// origin less the centre and `d` its direction, let `a = d . d`, `b = o .
/// d` and `c = o . o` less the square of the radius. Then `discr` is `b b -
/// a c`, `near` the crossing at `(-b - sqrt(discr)) / a` and `far` the one
/// at `(-b + sqrt(discr)) / a`. The normal of a crossing is its point less
/// the centre, divided by the radius.
#[derive(Clone, Copy, Debug)]
pub struct Crossings {
    pub discr: Scalar,
    pub near: Crossing,
    pub far: Crossing,
}

impl Crossing {
    /// Whether the crossing lies strictly between the two parameters.
    pub open spec fn within(self, t_min: Scalar, t_max: Scalar) -> bool {
        t_min.below(self.t) && self.t.below(t_max)
    }

    /// The hit record of this crossing: the normal is kept where the ray
    /// meets the front of the surface, and turned round otherwise.
    pub open spec fn record(self, material: Material) -> HitRecord {
        HitRecord {
            front_face: self.facing.below(Scalar { bits: 0 }),
            t: self.t,
            hit_point: self.point,
            out_normal: if self.facing.below(Scalar { bits: 0 }) {
                self.normal
            } else {
                Vec3 {
                    x_: self.normal.x_.negated(),
                    y_: self.normal.y_.negated(),
                    z_: self.normal.z_.negated(),
                }
            },
            material,
        }
    }
}

impl Crossings {
    /// The hit among the crossings: none unless the discriminant is
    /// positive; then the first root if it lies strictly inside the
    /// interval, else the second root if that one does.
    pub open spec fn first_within(self, t_min: Scalar, t_max: Scalar, material: Material) -> Option<
        HitRecord,
    > {
        if !(Scalar { bits: 0 }).below(self.discr) {
            None
        } else if self.near.within(t_min, t_max) {
            Some(self.near.record(material))
        } else if self.far.within(t_min, t_max) {
            Some(self.far.record(material))
        } else {
            None
        }
    }

    /// Picks the hit among crossings already computed.
    pub fn select(&self, t_min: Scalar, t_max: Scalar, material: Material) -> (out: Option<
        HitRecord,
    >)
        ensures
            out == self.first_within(t_min, t_max, material),
    {
        if self.discr.gt(&Scalar::zero()) {
            if self.near.t.gt(&t_min) && self.near.t.lt(&t_max) {
                return Some(
                    HitRecord::new(
                        self.near.t,
                        self.near.point,
                        self.near.normal,
                        self.near.facing,
                        material,
                    ),
                );
            } else if self.far.t.gt(&t_min) && self.far.t.lt(&t_max) {
                return Some(
                    HitRecord::new(
                        self.far.t,
                        self.far.point,
                        self.far.normal,
                        self.far.facing,
                        material,
                    ),
                );
            }
        }
        None
    }
}

/// A sphere with its material and the box around it.
#[derive(Clone, Copy, Debug)]
pub struct Sphere {
    pub radius: Scalar,
    pub center: Point3,
    pub material: Material,
    pub bbox: AABB,
}

/// Whether `out` is what a sphere answers to a ray between two parameters,
/// given what the arithmetic may answer for that sphere and ray.
pub open spec fn struck<C: Fn(Sphere, Ray) -> Crossings>(
    sphere: Sphere,
    r: Ray,
    t_min: Scalar,
    t_max: Scalar,
    crossings: C,
    out: Option<HitRecord>,
) -> bool {
    exists|c: Crossings| #[trigger]
        call_ensures(crossings, (sphere, r), c) && out == c.first_within(
            t_min,
            t_max,
            sphere.material,
        )
}

impl Sphere {
    /// A sphere; `bbox` is the box from the centre less the radius to the
    /// centre plus the radius on every axis.
    pub fn new(radius: Scalar, center: Point3, material: Material, bbox: AABB) -> (s: Sphere)
        ensures
            s == (Sphere { radius, center, material, bbox }),
    {
        Sphere { radius, center, material, bbox }
    }

    /// The nearest place strictly between `t_min` and `t_max` where the
    /// ray meets the sphere. `crossings` solves the quadratic; which root
    /// is the hit, and how its normal is turned, is decided here.
    pub fn hit<C: Fn(Sphere, Ray) -> Crossings>(
        &self,
        r: &Ray,
        t_min: Scalar,
        t_max: Scalar,
        crossings: &C,
    ) -> (out: Option<HitRecord>)
        requires
            call_requires(*crossings, (*self, *r)),
        ensures
            struck(*self, *r, t_min, t_max, *crossings, out),
    {
        let found = crossings(*self, *r);
        found.select(t_min, t_max, self.material)
    }

    /// The box around the sphere.
    pub fn bounding_box(&self) -> (b: Option<AABB>)
        ensures
            b == Some(self.bbox),
    {
        Some(self.bbox)
    }
}

} // verus!

//! Hit records and plain lists of primitives.
use crate::structs::aabb::{lemma_union_is_least_enclosing, AABB};
use crate::structs::material::Material;
use crate::structs::ray::Ray;
use crate::structs::scalar::Scalar;
use crate::structs::sphere::{struck, Crossings, Sphere};
use crate::structs::vec3::{Point3, Vec3};
use vstd::prelude::*;

verus! {

/// Where and how a ray met a surface.
#[derive(Clone, Copy, Debug)]
pub struct HitRecord {
    pub front_face: bool,
    pub t: Scalar,
    pub hit_point: Point3,
    pub out_normal: Vec3,
    pub material: Material,
}

impl HitRecord {
    /// The record of a hit at parameter `t`. `facing` is the inner product
    /// of the ray's direction and the geometric normal: where it is
    /// negative the ray met the front of the surface and the normal is
    /// kept, otherwise the normal is turned to oppose the ray.
    pub fn new(t: Scalar, hit_point: Point3, normal: Vec3, facing: Scalar, material: Material) -> (h:
        HitRecord)
        ensures
            h.front_face == facing.below(Scalar { bits: 0 }),
            h.t == t,
            h.hit_point == hit_point,
            h.front_face ==> h.out_normal == normal,
            !h.front_face ==> h.out_normal == (Vec3 {
                x_: normal.x_.negated(),
                y_: normal.y_.negated(),
                z_: normal.z_.negated(),
            }),
            h.material == material,
    {
        let front_face = facing.lt(&Scalar::zero());
        let out_normal = if front_face {
            normal
        } else {
            normal.neg()
        };
        HitRecord { front_face, t, hit_point, out_normal, material }
    }
}

/// A plain list of primitives.
#[derive(Debug)]
pub struct HitList {
    pub elements: Vec<Sphere>,
}

/// Whether `out` is what a scan of `elements` from place `from` on ends
/// with: each primitive is asked for a hit before the closest one so far,
/// which is `closest` to begin with, and a hit replaces `best`.
pub open spec fn scanned<C: Fn(Sphere, Ray) -> Crossings>(
    elements: Seq<Sphere>,
    from: int,
    r: Ray,
    t_min: Scalar,
    closest: Scalar,
    best: Option<HitRecord>,
    crossings: C,
    out: Option<HitRecord>,
) -> bool
    decreases elements.len() - from,
{
    if from < 0 || from >= elements.len() {
        out == best
    } else {
        exists|found: Option<HitRecord>| #[trigger]
            struck(elements[from], r, t_min, closest, crossings, found) && match found {
                Some(hit) => scanned(elements, from + 1, r, t_min, hit.t, found, crossings, out),
                None => scanned(elements, from + 1, r, t_min, closest, best, crossings, out),
            }
    }
}

/// The union of the boxes of the first `upto` primitives of a list that
/// is not empty: the box of the first one, grown by the box of each of the
/// others in turn.
pub open spec fn boxes_union(elements: Seq<Sphere>, upto: int) -> AABB
    recommends
        1 <= upto <= elements.len(),
    decreases upto,
{
    if upto <= 1 {
        elements[0].bbox
    } else {
        boxes_union(elements, upto - 1).union(elements[upto - 1].bbox)
    }
}

/// The union of the boxes of a list lies around the box of each of its
/// primitives, and every box that lies around all of them lies around the
/// union: on every axis its minimum corner is the least of theirs and its
/// maximum corner the greatest. No coordinate may be a NaN.
pub proof fn lemma_boxes_union_is_least(elements: Seq<Sphere>, upto: int, i: int, around: AABB)
    requires
        1 <= upto <= elements.len(),
        forall|k: int| 0 <= k < upto ==> (#[trigger] elements[k]).bbox.defined(),
        0 <= i < upto,
    ensures
        boxes_union(elements, upto).defined(),
        boxes_union(elements, upto).encloses(elements[i].bbox),
        (forall|k: int| 0 <= k < upto ==> around.encloses((#[trigger] elements[k]).bbox))
            ==> around.encloses(boxes_union(elements, upto)),
    decreases upto,
{
    if upto > 1 {
        let before = boxes_union(elements, upto - 1);
        let last = elements[upto - 1].bbox;
        lemma_boxes_union_is_least(elements, upto - 1, 0, around);
        if i < upto - 1 {
            lemma_boxes_union_is_least(elements, upto - 1, i, around);
        }
        lemma_union_is_least_enclosing(before, last, around);
    }
}

impl HitList {
    /// An empty list with room for `capacity` primitives.
    pub fn with_capacity(capacity: usize) -> (list: HitList)
        ensures
            list.elements@ == Seq::<Sphere>::empty(),
    {
        HitList { elements: Vec::with_capacity(capacity) }
    }

    /// Adds a primitive at the end.
    pub fn push(&mut self, item: Sphere)
        ensures
            final(self).elements@ == old(self).elements@.push(item),
    {
        self.elements.push(item);
    }

    /// Cuts the list in two at `at`: what stood before stays, the rest is
    /// returned.
    pub fn split_off(&mut self, at: usize) -> (tail: HitList)
        requires
            at <= old(self).elements@.len(),
        ensures
            final(self).elements@ == old(self).elements@.subrange(0, at as int),
            tail.elements@ == old(self).elements@.subrange(
                at as int,
                old(self).elements@.len() as int,
            ),
    {
        HitList { elements: self.elements.split_off(at) }
    }

    /// The closest hit of a ray strictly between `t_min` and `t_max`,
    /// found by asking every primitive in turn.
    pub fn hit<C: Fn(Sphere, Ray) -> Crossings>(
        &self,
        r: &Ray,
        t_min: Scalar,
        t_max: Scalar,
        crossings: &C,
    ) -> (out: Option<HitRecord>)
        requires
            forall|s: Sphere| call_requires(*crossings, (s, *r)),
        ensures
            scanned(self.elements@, 0, *r, t_min, t_max, None, *crossings, out),
    {
        let mut closest_so_far = t_max;
        let mut last_hit: Option<HitRecord> = None;
        let mut i: usize = 0;
        while i < self.elements.len()
            invariant
                i <= self.elements@.len(),
                forall|s: Sphere| call_requires(*crossings, (s, *r)),
                forall|out: Option<HitRecord>|
                    scanned(
                        self.elements@,
                        i as int,
                        *r,
                        t_min,
                        closest_so_far,
                        last_hit,
                        *crossings,
                        out,
                    ) ==> scanned(self.elements@, 0, *r, t_min, t_max, None, *crossings, out),
            decreases self.elements@.len() - i,
        {
            let found = self.elements[i].hit(r, t_min, closest_so_far, crossings);
            if let Some(hit) = found {
                closest_so_far = hit.t;
                last_hit = found;
            }
            i += 1;
        }
        last_hit
    }

    /// The smallest box around every primitive of the list, or nothing
    /// for an empty list.
    pub fn bounding_box(&self) -> (b: Option<AABB>)
        ensures
            self.elements@.len() == 0 ==> b is None,
            self.elements@.len() > 0 ==> b == Some(
                boxes_union(self.elements@, self.elements@.len() as int),
            ),
    {
        if self.elements.len() == 0 {
            return None;
        }
        let mut acc = match self.elements[0].bounding_box() {
            Some(bbox) => bbox,
            None => {
                return None;
            },
        };
        let mut i: usize = 1;
        while i < self.elements.len()
            invariant
                1 <= i <= self.elements@.len(),
                acc == boxes_union(self.elements@, i as int),
            decreases self.elements@.len() - i,
        {
            match self.elements[i].bounding_box() {
                Some(bbox) => {
                    acc.expand(bbox);
                },
                None => {
                    return None;
                },
            }
            i += 1;
        }
        Some(acc)
    }
}

} // verus!

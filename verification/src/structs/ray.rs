//! Rays: an origin and a direction.
use crate::structs::vec3::{Point3, Vec3};
use vstd::prelude::*;

verus! {

/// A half-line, given by where it starts and where it heads.
#[derive(Clone, Copy, Debug)]
pub struct Ray {
    pub orig: Point3,
    pub direction: Vec3,
}

impl Ray {
    pub fn new(orig: Point3, direction: Vec3) -> (r: Ray)
        ensures
            r == (Ray { orig, direction }),
    {
        Ray { orig, direction }
    }

    pub fn origin(&self) -> (p: Point3)
        ensures
            p == self.orig,
    {
        self.orig
    }

    pub fn direction(&self) -> (d: Vec3)
        ensures
            d == self.direction,
    {
        self.direction
    }
}

} // verus!

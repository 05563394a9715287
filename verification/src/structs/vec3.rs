//! Triples of quantities: points, directions and colours.
use crate::structs::scalar::Scalar;
use vstd::prelude::*;

verus! {

/// Three quantities, read as a point, a direction or a colour.
#[derive(Clone, Copy, Debug)]
pub struct Vec3 {
    pub x_: Scalar,
    pub y_: Scalar,
    pub z_: Scalar,
}

pub type Point3 = Vec3;

impl Vec3 {
    /// The component on an axis: 0 is x, 1 is y, anything else is z.
    pub open spec fn axis(self, index: int) -> Scalar {
        if index == 0 {
            self.x_
        } else if index == 1 {
            self.y_
        } else {
            self.z_
        }
    }

    /// Whether no component is a NaN.
    pub open spec fn defined(self) -> bool {
        !self.x_.nan() && !self.y_.nan() && !self.z_.nan()
    }

    /// Whether both triples hold equal quantities, component by component.
    pub open spec fn same(self, other: Vec3) -> bool {
        self.x_.same(other.x_) && self.y_.same(other.y_) && self.z_.same(other.z_)
    }

    /// Whether every component is at most the matching one of `other`.
    pub open spec fn at_most(self, other: Vec3) -> bool {
        self.x_.at_most(other.x_) && self.y_.at_most(other.y_) && self.z_.at_most(other.z_)
    }

    pub fn new(x: Scalar, y: Scalar, z: Scalar) -> (v: Vec3)
        ensures
            v == (Vec3 { x_: x, y_: y, z_: z }),
    {
        Vec3 { x_: x, y_: y, z_: z }
    }

    /// The triple of positive zeros.
    pub fn zero() -> (v: Vec3)
        ensures
            v == (Vec3 { x_: Scalar { bits: 0 }, y_: Scalar { bits: 0 }, z_: Scalar { bits: 0 } }),
    {
        Vec3 { x_: Scalar::zero(), y_: Scalar::zero(), z_: Scalar::zero() }
    }

    /// The components in the order x, y, z.
    pub fn as_array(self) -> (a: [Scalar; 3])
        ensures
            a@ == seq![self.x_, self.y_, self.z_],
    {
        [self.x_, self.y_, self.z_]
    }

    /// The component on axis `index`.
    pub fn index(&self, index: u8) -> (c: Scalar)
        requires
            index < 3,
        ensures
            c == self.axis(index as int),
    {
        if index == 0 {
            self.x_
        } else if index == 1 {
            self.y_
        } else {
            self.z_
        }
    }

    /// The component on axis `index`, for writing.
    pub fn index_mut(&mut self, index: u8) -> (c: &mut Scalar)
        requires
            index < 3,
        ensures
            *c == old(self).axis(index as int),
            index == 0 ==> *final(self) == (Vec3 { x_: *final(c), ..*old(self) }),
            index == 1 ==> *final(self) == (Vec3 { y_: *final(c), ..*old(self) }),
            index == 2 ==> *final(self) == (Vec3 { z_: *final(c), ..*old(self) }),
    {
        if index == 0 {
            &mut self.x_
        } else if index == 1 {
            &mut self.y_
        } else {
            &mut self.z_
        }
    }

    /// Whether a point drawn in the cube from -1 to 1 is taken as a point
    /// of the unit ball: it is, and is handed back, where `squared`, the
    /// inner product of the point with itself, is below 1. A caller draws
    /// again until a point is taken.
    pub fn random_in_unit_sphere(drawn: Vec3, squared: Scalar) -> (taken: Option<Vec3>)
        ensures
            squared.below(Scalar { bits: 0x3ff0_0000_0000_0000 }) ==> taken == Some(drawn),
            !squared.below(Scalar { bits: 0x3ff0_0000_0000_0000 }) ==> taken is None,
    {
        if squared.lt(&Scalar::one()) {
            Some(drawn)
        } else {
            None
        }
    }

    /// Whether a point drawn in the square from -1 to 1 is taken as a
    /// point of the unit disk: two drawn coordinates and a third of 0 are
    /// handed back where `squared`, the inner product of that point with
    /// itself, is below 1. A caller draws again until a point is taken.
    pub fn random_in_unit_disk(x: Scalar, y: Scalar, squared: Scalar) -> (taken: Option<Vec3>)
        ensures
            squared.below(Scalar { bits: 0x3ff0_0000_0000_0000 }) ==> taken == Some(
                Vec3 { x_: x, y_: y, z_: Scalar { bits: 0 } },
            ),
            !squared.below(Scalar { bits: 0x3ff0_0000_0000_0000 }) ==> taken is None,
    {
        if squared.lt(&Scalar::one()) {
            Some(Vec3 { x_: x, y_: y, z_: Scalar::zero() })
        } else {
            None
        }
    }

    /// The unit vector of a direction. `length` is the length of the
    /// direction and `scaled` the direction divided by it. A direction
    /// whose length is not above 0 has no unit vector and is handed back
    /// as it is, so that no division by 0 reaches the image.
    pub fn unit_vector(direction: Vec3, length: Scalar, scaled: Vec3) -> (v: Vec3)
        ensures
            (Scalar { bits: 0 }).below(length) ==> v == scaled,
            !(Scalar { bits: 0 }).below(length) ==> v == direction,
    {
        if length.gt(&Scalar::zero()) {
            scaled
        } else {
            direction
        }
    }

    /// Turns a point drawn in the unit ball into the half-space of a
    /// normal. `facing` is the inner product of the point and the normal:
    /// where it is positive the point is kept, otherwise its opposite is
    /// taken.
    pub fn random_in_hemisphere(inside: Vec3, facing: Scalar) -> (v: Vec3)
        ensures
            (Scalar { bits: 0 }).below(facing) ==> v == inside,
            !(Scalar { bits: 0 }).below(facing) ==> v == (Vec3 {
                x_: inside.x_.negated(),
                y_: inside.y_.negated(),
                z_: inside.z_.negated(),
            }),
    {
        if facing.gt(&Scalar::zero()) {
            inside
        } else {
            inside.neg()
        }
    }

    /// The triple with every sign flipped.
    pub fn neg(self) -> (v: Vec3)
        ensures
            v == (Vec3 {
                x_: self.x_.negated(),
                y_: self.y_.negated(),
                z_: self.z_.negated(),
            }),
    {
        Vec3 { x_: self.x_.neg(), y_: self.y_.neg(), z_: self.z_.neg() }
    }
}

} // verus!

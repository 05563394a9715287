//! Flat and chequered colourings.
use crate::structs::scalar::Scalar;
use crate::structs::vec3::{Point3, Vec3};
use vstd::prelude::*;

verus! {

/// Two colours that alternate in space like the fields of a chessboard.
#[derive(Clone, Copy, Debug)]
pub struct CheckerTexture {
    pub odd: Vec3,
    pub even: Vec3,
}

/// How a surface is coloured.
#[derive(Clone, Copy, Debug)]
pub enum Texture {
    SolidColor(Vec3),
    CheckerTexture(CheckerTexture),
}

impl CheckerTexture {
    /// The colour of a field, by the sign of the wave at the point: the odd
    /// colour where the wave is negative, the even colour elsewhere.
    pub open spec fn field(self, wave: Scalar) -> Vec3 {
        if wave.below(Scalar { bits: 0 }) {
            self.odd
        } else {
            self.even
        }
    }

    /// The colour at a point. `wave` computes the product of the sines of
    /// ten times each coordinate of the point.
    pub fn value<W: Fn(Point3) -> Scalar>(&self, p: &Point3, wave: &W) -> (colour: Vec3)
        requires
            call_requires(*wave, (*p,)),
        ensures
            exists|sine: Scalar| #[trigger]
                call_ensures(*wave, (*p,), sine) && colour == self.field(sine),
    {
        let sine = wave(*p);
        if sine.lt(&Scalar::zero()) {
            self.odd
        } else {
            self.even
        }
    }
}

impl Texture {
    pub fn new_solid_color(color: Vec3) -> (t: Texture)
        ensures
            t == Texture::SolidColor(color),
    {
        Texture::SolidColor(color)
    }

    pub fn new_checker_color(odd_col: Vec3, even_col: Vec3) -> (t: Texture)
        ensures
            t == Texture::CheckerTexture(CheckerTexture { odd: odd_col, even: even_col }),
    {
        Texture::CheckerTexture(CheckerTexture { odd: odd_col, even: even_col })
    }

    /// The colour at a point of the surface: the one colour of a flat
    /// texture, or the colour of the field of a chequered one. The surface
    /// coordinates `_u` and `_v` play no part.
    pub fn value<W: Fn(Point3) -> Scalar>(&self, _u: Scalar, _v: Scalar, p: &Point3, wave: &W) -> (colour:
        Vec3)
        requires
            call_requires(*wave, (*p,)),
        ensures
            match *self {
                Texture::SolidColor(color) => colour == color,
                Texture::CheckerTexture(checker) => exists|sine: Scalar| #[trigger]
                    call_ensures(*wave, (*p,), sine) && colour == checker.field(sine),
            },
    {
        match self {
            Texture::SolidColor(color) => *color,
            Texture::CheckerTexture(checker) => checker.value(p, wave),
        }
    }
}

} // verus!

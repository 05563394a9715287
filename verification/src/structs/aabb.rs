//! Axis-aligned bounding boxes: unions and the slab test.
use crate::structs::ray::Ray;
use crate::structs::scalar::Scalar;
use crate::structs::vec3::{Point3, Vec3};
use vstd::prelude::*;

verus! {

/// What a ray does on one axis of a box: `inv_d` is the reciprocal of its
/// direction on that axis, `t0` the minimum corner less the ray's origin,
/// times `inv_d`, and `t1` the same for the maximum corner. These are the
/// parameters at which the ray crosses the two planes of the box. A
/// direction of 0 gives an infinite reciprocal, and the test below needs no
/// other provision for it.
#[derive(Clone, Copy, Debug)]
pub struct Slab {
    pub inv_d: Scalar,
    pub t0: Scalar,
    pub t1: Scalar,
}

/// The three slabs of a ray and a box.
#[derive(Clone, Copy, Debug)]
pub struct Slabs {
    pub x: Slab,
    pub y: Slab,
    pub z: Slab,
}

/// A parameter interval, open at both ends.
#[derive(Clone, Copy, Debug)]
pub struct Span {
    pub lo: Scalar,
    pub hi: Scalar,
}

impl Span {
    /// Whether the interval holds anything: `lo < hi`.
    pub open spec fn holds_something(self) -> bool {
        self.lo.below(self.hi)
    }
}

impl Slab {
    /// The parameter at which the ray enters the slab: the crossings change
    /// places where the reciprocal is negative.
    pub open spec fn entry(self) -> Scalar {
        if self.inv_d.below(Scalar { bits: 0 }) {
            self.t1
        } else {
            self.t0
        }
    }

    /// The parameter at which the ray leaves the slab.
    pub open spec fn exit(self) -> Scalar {
        if self.inv_d.below(Scalar { bits: 0 }) {
            self.t0
        } else {
            self.t1
        }
    }

    /// The interval cut down to the part inside the slab. A crossing that is
    /// a NaN (a ray that runs inside one of the planes) cuts nothing off.
    pub open spec fn narrowed(self, span: Span) -> Span {
        Span { lo: span.lo.larger(self.entry()), hi: span.hi.smaller(self.exit()) }
    }

    /// Cuts the interval down to the part inside the slab.
    pub fn narrow(&self, span: Span) -> (r: Span)
        ensures
            r == self.narrowed(span),
    {
        let swap = self.inv_d.lt(&Scalar::zero());
        let entry = if swap {
            self.t1
        } else {
            self.t0
        };
        let exit = if swap {
            self.t0
        } else {
            self.t1
        };
        Span { lo: span.lo.max(entry), hi: span.hi.min(exit) }
    }
}

/// Whether a ray with slabs `a`, `b`, `c`, tested in that order, stays
/// inside all three somewhere in the interval: each slab narrows what the
/// one before left, and the box is missed as soon as nothing is left.
pub open spec fn slabs_overlap(a: Slab, b: Slab, c: Slab, span: Span) -> bool {
    a.narrowed(span).holds_something() && b.narrowed(a.narrowed(span)).holds_something() && c.narrowed(
        b.narrowed(a.narrowed(span)),
    ).holds_something()
}

impl Slabs {
    /// Whether the three slabs, x first, leave part of the interval.
    pub open spec fn overlap(self, t_min: Scalar, t_max: Scalar) -> bool {
        slabs_overlap(self.x, self.y, self.z, Span { lo: t_min, hi: t_max })
    }

    /// The slab test on crossings already computed.
    pub fn hit(&self, t_min: Scalar, t_max: Scalar) -> (r: bool)
        ensures
            r == self.overlap(t_min, t_max),
    {
        let after_x = self.x.narrow(Span { lo: t_min, hi: t_max });
        if !after_x.lo.lt(&after_x.hi) {
            return false;
        }
        let after_y = self.y.narrow(after_x);
        if !after_y.lo.lt(&after_y.hi) {
            return false;
        }
        let after_z = self.z.narrow(after_y);
        after_z.lo.lt(&after_z.hi)
    }
}

/// An axis-aligned box, given by its two extreme corners.
#[derive(Clone, Copy, Debug)]
pub struct AABB {
    pub min_c: Point3,
    pub max_c: Point3,
}

impl AABB {
    /// Whether the corners are ordered, `min_c` at most `max_c` on every
    /// axis; no coordinate of such a box is a NaN.
    pub open spec fn ordered(self) -> bool {
        self.min_c.at_most(self.max_c)
    }

    /// Whether no coordinate is a NaN.
    pub open spec fn defined(self) -> bool {
        self.min_c.defined() && self.max_c.defined()
    }

    /// Whether `other` lies inside this box.
    pub open spec fn encloses(self, other: AABB) -> bool {
        self.min_c.at_most(other.min_c) && other.max_c.at_most(self.max_c)
    }

    /// Whether both boxes have equal corners.
    pub open spec fn same(self, other: AABB) -> bool {
        self.min_c.same(other.min_c) && self.max_c.same(other.max_c)
    }

    /// The union of two boxes.
    pub open spec fn union(self, other: AABB) -> AABB {
        AABB {
            min_c: Vec3 {
                x_: self.min_c.x_.smaller(other.min_c.x_),
                y_: self.min_c.y_.smaller(other.min_c.y_),
                z_: self.min_c.z_.smaller(other.min_c.z_),
            },
            max_c: Vec3 {
                x_: self.max_c.x_.larger(other.max_c.x_),
                y_: self.max_c.y_.larger(other.max_c.y_),
                z_: self.max_c.z_.larger(other.max_c.z_),
            },
        }
    }

    /// The box that is the origin alone.
    pub fn zero() -> (b: AABB)
        ensures
            b.min_c == (Vec3 { x_: Scalar { bits: 0 }, y_: Scalar { bits: 0 }, z_: Scalar { bits: 0 } }),
            b.max_c == b.min_c,
    {
        AABB { min_c: Point3::zero(), max_c: Point3::zero() }
    }

    pub fn new(a: Point3, b: Point3) -> (r: AABB)
        ensures
            r == (AABB { min_c: a, max_c: b }),
    {
        AABB { min_c: a, max_c: b }
    }

    /// The slab test: whether the ray stays inside the box somewhere
    /// between `t_min` and `t_max`. `slabs` computes the crossings of the
    /// ray with the box's planes; the test itself is decided here.
    pub fn box_hit<F: Fn(AABB, Ray) -> Slabs>(
        &self,
        r: &Ray,
        t_min: Scalar,
        t_max: Scalar,
        slabs: &F,
    ) -> (hit: bool)
        requires
            call_requires(*slabs, (*self, *r)),
        ensures
            exists|s: Slabs| #[trigger]
                call_ensures(*slabs, (*self, *r), s) && hit == s.overlap(t_min, t_max),
    {
        let crossings = slabs(*self, *r);
        crossings.hit(t_min, t_max)
    }

    /// The smallest box around two boxes.
    pub fn bounding_box(lhs: &AABB, rhs: &AABB) -> (r: AABB)
        ensures
            r == lhs.union(*rhs),
    {
        let small = Point3::new(
            lhs.min_c.x_.min(rhs.min_c.x_),
            lhs.min_c.y_.min(rhs.min_c.y_),
            lhs.min_c.z_.min(rhs.min_c.z_),
        );
        let big = Point3::new(
            lhs.max_c.x_.max(rhs.max_c.x_),
            lhs.max_c.y_.max(rhs.max_c.y_),
            lhs.max_c.z_.max(rhs.max_c.z_),
        );
        AABB::new(small, big)
    }

    /// Grows the box until it holds `bbox` too.
    pub fn expand(&mut self, bbox: AABB)
        ensures
            *final(self) == old(self).union(bbox),
    {
        self.min_c.x_ = self.min_c.x_.min(bbox.min_c.x_);
        self.min_c.y_ = self.min_c.y_.min(bbox.min_c.y_);
        self.min_c.z_ = self.min_c.z_.min(bbox.min_c.z_);
        self.max_c.x_ = self.max_c.x_.max(bbox.max_c.x_);
        self.max_c.y_ = self.max_c.y_.max(bbox.max_c.y_);
        self.max_c.z_ = self.max_c.z_.max(bbox.max_c.z_);
    }
}

/// The rank of a lower end after a crossing has been taken into account.
spec fn raised(base: int, crossing: Scalar) -> int {
    if crossing.nan() || crossing.rank() <= base {
        base
    } else {
        crossing.rank()
    }
}

/// The rank of an upper end after a crossing has been taken into account.
spec fn lowered(base: int, crossing: Scalar) -> int {
    if crossing.nan() || crossing.rank() >= base {
        base
    } else {
        crossing.rank()
    }
}

/// Narrowing an interval whose ends are not NaN leaves such an interval,
/// moves its ends only inwards, and is a maximum and a minimum of ranks.
proof fn lemma_narrowed_ranks(slab: Slab, span: Span)
    requires
        !span.lo.nan(),
        !span.hi.nan(),
    ensures
        !slab.narrowed(span).lo.nan(),
        !slab.narrowed(span).hi.nan(),
        slab.narrowed(span).lo.rank() == raised(span.lo.rank(), slab.entry()),
        slab.narrowed(span).hi.rank() == lowered(span.hi.rank(), slab.exit()),
{
}

/// With ends that are not NaN the test comes to one comparison: the
/// largest entry, or the lower end, against the smallest exit, or the upper
/// end.
proof fn lemma_overlap_as_ranks(a: Slab, b: Slab, c: Slab, span: Span)
    requires
        !span.lo.nan(),
        !span.hi.nan(),
    ensures
        slabs_overlap(a, b, c, span) == (raised(
            raised(raised(span.lo.rank(), a.entry()), b.entry()),
            c.entry(),
        ) < lowered(lowered(lowered(span.hi.rank(), a.exit()), b.exit()), c.exit())),
{
    let after_a = a.narrowed(span);
    lemma_narrowed_ranks(a, span);
    let after_b = b.narrowed(after_a);
    lemma_narrowed_ranks(b, after_a);
    let after_c = c.narrowed(after_b);
    lemma_narrowed_ranks(c, after_b);
    assert(after_a.holds_something() == (after_a.lo.rank() < after_a.hi.rank()));
    assert(after_b.holds_something() == (after_b.lo.rank() < after_b.hi.rank()));
    assert(after_c.holds_something() == (after_c.lo.rank() < after_c.hi.rank()));
}

/// The slab test does not depend on the order in which the axes are tried,
/// for an interval whose ends are not NaN.
pub proof fn lemma_slab_order_is_irrelevant(a: Slab, b: Slab, c: Slab, span: Span)
    requires
        !span.lo.nan(),
        !span.hi.nan(),
    ensures
        slabs_overlap(a, b, c, span) == slabs_overlap(a, c, b, span),
        slabs_overlap(a, b, c, span) == slabs_overlap(b, a, c, span),
        slabs_overlap(a, b, c, span) == slabs_overlap(b, c, a, span),
        slabs_overlap(a, b, c, span) == slabs_overlap(c, a, b, span),
        slabs_overlap(a, b, c, span) == slabs_overlap(c, b, a, span),
{
    lemma_overlap_as_ranks(a, b, c, span);
    lemma_overlap_as_ranks(a, c, b, span);
    lemma_overlap_as_ranks(b, a, c, span);
    lemma_overlap_as_ranks(b, c, a, span);
    lemma_overlap_as_ranks(c, a, b, span);
    lemma_overlap_as_ranks(c, b, a, span);
}

/// The union of two boxes holds both, and every box that holds both holds
/// the union.
pub proof fn lemma_union_is_least_enclosing(a: AABB, b: AABB, c: AABB)
    requires
        a.defined(),
        b.defined(),
    ensures
        a.union(b).encloses(a),
        a.union(b).encloses(b),
        c.encloses(a) && c.encloses(b) ==> c.encloses(a.union(b)),
        a.ordered() && b.ordered() ==> a.union(b).ordered(),
{
}

/// The union does not depend on the order of its operands.
pub proof fn lemma_union_commutes(a: AABB, b: AABB)
    requires
        a.defined(),
        b.defined(),
    ensures
        a.union(b).same(b.union(a)),
{
}

/// The union of three boxes does not depend on how they are grouped.
pub proof fn lemma_union_associates(a: AABB, b: AABB, c: AABB)
    requires
        a.defined(),
        b.defined(),
        c.defined(),
    ensures
        a.union(b).union(c).same(a.union(b.union(c))),
{
}

} // verus!

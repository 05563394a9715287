//! The bounding-volume hierarchy: how it is built and how a ray walks it.
use crate::structs::aabb::{Slabs, AABB};
use crate::structs::hitable::{HitList, HitRecord};
use crate::structs::ray::Ray;
use crate::structs::scalar::Scalar;
use crate::structs::sphere::{struck, Crossings, Sphere};
use rand::Rng;
use vstd::prelude::*;

verus! {

/// What a node of the hierarchy holds.
#[derive(Debug)]
pub enum BVHNode {
    Branch { left: Box<BVH>, right: Box<BVH> },
    Leaf(Sphere),
    /// A scene without geometry. It occurs at the root only.
    Empty,
}

/// A node of the hierarchy with the box around everything below it.
#[derive(Debug)]
pub struct BVH {
    pub root: BVHNode,
    pub bbox: AABB,
}

/// The rank by which a sphere is ordered along an axis: that of the
/// minimum corner of its box.
pub open spec fn sort_rank(sphere: Sphere, axis: int) -> int {
    sphere.bbox.min_c.axis(axis).rank()
}

/// Whether a sequence is in ascending order along an axis.
pub open spec fn ascending(elements: Seq<Sphere>, axis: int) -> bool {
    forall|i: int, j: int|
        0 <= i <= j < elements.len() ==> sort_rank(#[trigger] elements[i], axis) <= sort_rank(
            #[trigger] elements[j],
            axis,
        )
}

/// Whether nothing in `left` stands after anything in `right` along an
/// axis.
pub open spec fn split_on(left: Seq<Sphere>, right: Seq<Sphere>, axis: int) -> bool {
    forall|i: int, j: int|
        0 <= i < left.len() && 0 <= j < right.len() ==> sort_rank(#[trigger] left[i], axis)
            <= sort_rank(#[trigger] right[j], axis)
}

/// The rank of a sphere along an axis, as a machine integer.
pub fn sort_key(sphere: &Sphere, axis: u8) -> (k: i64)
    requires
        axis < 3,
    ensures
        k == sort_rank(*sphere, axis as int),
{
    sphere.bbox.min_c.index(axis).key()
}

/// Draws the axis of a split: `rand::Rng::gen_range` with the bounds 0 and
/// 2, on the generator that `rand::thread_rng` hands out. It returns a
/// value from the lower bound up to, and not including, the upper one, so
/// 0 (x) or 1 (y).
#[verifier::external_body]
fn random_axis() -> (axis: u8)
    ensures
        axis < 2,
{
    rand::thread_rng().gen_range(0, 2)
}

/// Sorts with `slice::sort_unstable_by_key`, the key being the rank of a
/// sphere along the axis: afterwards the same spheres stand in ascending
/// order of that key. Where spheres with equal keys end up is not stated.
#[verifier::external_body]
fn sort_along(elements: &mut Vec<Sphere>, axis: u8)
    requires
        axis < 3,
    ensures
        final(elements)@.to_multiset() == old(elements)@.to_multiset(),
        ascending(final(elements)@, axis as int),
{
    elements.sort_unstable_by_key(|sphere| sort_key(sphere, axis));
}

impl HitList {
    /// Orders the list along an axis and cuts it at the middle: the lower
    /// half stays, the upper half is returned. Of `n` primitives the lower
    /// half gets `n / 2`.
    pub fn partition(&mut self, axis: u8) -> (upper: HitList)
        requires
            axis < 3,
        ensures
            final(self).elements@.len() == old(self).elements@.len() / 2,
            (final(self).elements@ + upper.elements@).to_multiset() == old(
                self,
            ).elements@.to_multiset(),
            ascending(final(self).elements@ + upper.elements@, axis as int),
    {
        let ghost given = self.elements@;
        sort_along(&mut self.elements, axis);
        let ghost sorted = self.elements@;
        proof {
            given.to_multiset_ensures();
            sorted.to_multiset_ensures();
        }
        let middle = self.elements.len() / 2;
        let upper = self.split_off(middle);
        assert(self.elements@ + upper.elements@ == sorted);
        upper
    }
}

impl BVH {
    /// The primitives under a node, from left to right.
    pub open spec fn leaves(self) -> Seq<Sphere>
        decreases self,
    {
        match self.root {
            BVHNode::Branch { left, right } => left.leaves() + right.leaves(),
            BVHNode::Leaf(sphere) => seq![sphere],
            BVHNode::Empty => Seq::empty(),
        }
    }

    /// Whether this is a node with geometry whose boxes are right all the
    /// way down: a leaf carries the box of its primitive, a branch the
    /// union of the boxes of its two children, and no child is empty.
    pub open spec fn boxed(self) -> bool
        decreases self,
    {
        match self.root {
            BVHNode::Branch { left, right } => left.boxed() && right.boxed() && self.bbox
                == left.bbox.union(right.bbox),
            BVHNode::Leaf(sphere) => self.bbox == sphere.bbox,
            BVHNode::Empty => false,
        }
    }

    /// Whether every branch is cut as construction cuts it: along x or
    /// along y nothing on the left stands after anything on the right, and
    /// of `n` primitives `n / 2` are on the left.
    pub open spec fn halved(self) -> bool
        decreases self,
    {
        match self.root {
            BVHNode::Branch { left, right } => {
                &&& left.halved()
                &&& right.halved()
                &&& left.leaves().len() == (left.leaves().len() + right.leaves().len()) / 2
                &&& split_on(left.leaves(), right.leaves(), 0) || split_on(
                    left.leaves(),
                    right.leaves(),
                    1,
                )
            },
            _ => true,
        }
    }

    /// Whether the hierarchy is well formed: empty, or boxed all the way
    /// down.
    pub open spec fn wf(self) -> bool {
        self.root is Empty || self.boxed()
    }

    /// Builds the hierarchy over a list of primitives. An empty list gives
    /// the empty scene and one primitive gives a leaf. Otherwise the list
    /// is ordered along an axis drawn at random from x and y, cut at the
    /// middle, and each half is built in the same way. The list is never
    /// ordered along z. Spheres are ordered by the rank of the minimum
    /// corner of their boxes, so a NaN there has its place too, beyond the
    /// infinity of its sign.
    pub fn new(mut hit_list: HitList) -> (tree: BVH)
        ensures
            tree.wf(),
            tree.halved(),
            tree.leaves().to_multiset() == hit_list.elements@.to_multiset(),
            tree.root is Empty <==> hit_list.elements@.len() == 0,
        decreases hit_list.elements@.len(),
    {
        let ghost given = hit_list.elements@;
        let axis = random_axis();
        let count = hit_list.elements.len();
        if count == 0 {
            assert(given =~= Seq::<Sphere>::empty());
            return BVH { root: BVHNode::Empty, bbox: AABB::zero() };
        }
        if count == 1 {
            let sphere = hit_list.elements[0];
            assert(given =~= seq![sphere]);
            return BVH { root: BVHNode::Leaf(sphere), bbox: sphere.bbox };
        }
        let upper = hit_list.partition(axis);
        let ghost lower_seq = hit_list.elements@;
        let ghost upper_seq = upper.elements@;
        proof {
            vstd::seq_lib::lemma_multiset_commutative(lower_seq, upper_seq);
            (lower_seq + upper_seq).to_multiset_ensures();
            given.to_multiset_ensures();
            assert((lower_seq + upper_seq).len() == given.len());
        }
        let right = BVH::new(upper);
        let left = BVH::new(hit_list);
        proof {
            vstd::seq_lib::lemma_multiset_commutative(left.leaves(), right.leaves());
            lemma_split_carries_over(lower_seq, upper_seq, left.leaves(), right.leaves(), axis as int);
            left.leaves().to_multiset_ensures();
            lower_seq.to_multiset_ensures();
            right.leaves().to_multiset_ensures();
            upper_seq.to_multiset_ensures();
            assert(left.leaves().len() == lower_seq.len());
            assert(right.leaves().len() == upper_seq.len());
            assert(lower_seq.len() == given.len() / 2);
            assert(lower_seq.len() + upper_seq.len() == given.len());
        }
        let bbox = AABB::bounding_box(&left.bbox, &right.bbox);
        BVH { root: BVHNode::Branch { left: Box::new(left), right: Box::new(right) }, bbox }
    }

    /// The closest hit of a ray strictly between `t_min` and `t_max`. A
    /// node whose box the ray misses is given up at once. Below a branch
    /// the left child is asked first, and the right child only for hits
    /// before the one the left child found, so that a hit on the right
    /// replaces the one on the left.
    pub fn hit<S, C>(
        &self,
        r: &Ray,
        t_min: Scalar,
        t_max: Scalar,
        slabs: &S,
        crossings: &C,
    ) -> (out: Option<HitRecord>) where
        S: Fn(AABB, Ray) -> Slabs,
        C: Fn(Sphere, Ray) -> Crossings,

        requires
            forall|b: AABB| call_requires(*slabs, (b, *r)),
            forall|s: Sphere| call_requires(*crossings, (s, *r)),
        ensures
            traversed(*self, *r, t_min, t_max, *slabs, *crossings, out),
        decreases self,
    {
        match &self.root {
            BVHNode::Empty => None,
            BVHNode::Leaf(leaf) => {
                let inside = self.bbox.box_hit(r, t_min, t_max, slabs);
                let ghost s = choose|s: Slabs|
                    call_ensures(*slabs, (self.bbox, *r), s) && inside == s.overlap(t_min, t_max);
                assert(call_ensures(*slabs, (self.bbox, *r), s));
                if inside {
                    leaf.hit(r, t_min, t_max, crossings)
                } else {
                    None
                }
            },
            BVHNode::Branch { left, right } => {
                let inside = self.bbox.box_hit(r, t_min, t_max, slabs);
                let ghost s = choose|s: Slabs|
                    call_ensures(*slabs, (self.bbox, *r), s) && inside == s.overlap(t_min, t_max);
                assert(call_ensures(*slabs, (self.bbox, *r), s));
                if inside {
                    let left_hit = left.hit(r, t_min, t_max, slabs, crossings);
                    let ttmax = match left_hit {
                        Some(found) => found.t,
                        None => t_max,
                    };
                    let right_hit = right.hit(r, t_min, ttmax, slabs, crossings);
                    let out = if right_hit.is_some() {
                        right_hit
                    } else {
                        left_hit
                    };
                    assert(later_wins(left_hit, right_hit) == out);
                    out
                } else {
                    None
                }
            },
        }
    }

    /// The box around the whole scene, or nothing for the empty scene.
    pub fn bounding_box(&self) -> (b: Option<AABB>)
        ensures
            self.root is Empty ==> b is None,
            !(self.root is Empty) ==> b == Some(self.bbox),
    {
        match self.root {
            BVHNode::Empty => None,
            _ => Some(self.bbox),
        }
    }
}

/// The upper end of the interval in which a hit still counts, once `best`
/// has been found.
pub open spec fn tightened(best: Option<HitRecord>, t_max: Scalar) -> Scalar {
    match best {
        Some(found) => found.t,
        None => t_max,
    }
}

/// What two children that were asked one after the other answer together:
/// the second was asked only for hits before the first one's, so its hit
/// wins.
pub open spec fn later_wins(near: Option<HitRecord>, far: Option<HitRecord>) -> Option<
    HitRecord,
> {
    if far is Some {
        far
    } else {
        near
    }
}

/// Whether `out` is what a walk of the hierarchy ends with, given what the
/// arithmetic may answer for its boxes and its spheres.
pub open spec fn traversed<S, C>(
    tree: BVH,
    r: Ray,
    t_min: Scalar,
    t_max: Scalar,
    slabs: S,
    crossings: C,
    out: Option<HitRecord>,
) -> bool where S: Fn(AABB, Ray) -> Slabs, C: Fn(Sphere, Ray) -> Crossings
    decreases tree,
{
    match tree.root {
        BVHNode::Empty => out is None,
        BVHNode::Leaf(leaf) => exists|s: Slabs| #[trigger]
            call_ensures(slabs, (tree.bbox, r), s) && if s.overlap(t_min, t_max) {
                struck(leaf, r, t_min, t_max, crossings, out)
            } else {
                out is None
            },
        BVHNode::Branch { left, right } => exists|s: Slabs| #[trigger]
            call_ensures(slabs, (tree.bbox, r), s) && if s.overlap(t_min, t_max) {
                exists|near: Option<HitRecord>, far: Option<HitRecord>|
                    {
                        &&& #[trigger] later_wins(near, far) == out
                        &&& traversed(*left, r, t_min, t_max, slabs, crossings, near)
                        &&& traversed(
                            *right,
                            r,
                            t_min,
                            tightened(near, t_max),
                            slabs,
                            crossings,
                            far,
                        )
                    }
            } else {
                out is None
            },
    }
}

/// Two halves that hold the same spheres as the halves of an ascending
/// sequence are split along the axis of that sequence.
proof fn lemma_split_carries_over(
    lower: Seq<Sphere>,
    upper: Seq<Sphere>,
    left: Seq<Sphere>,
    right: Seq<Sphere>,
    axis: int,
)
    requires
        ascending(lower + upper, axis),
        left.to_multiset() == lower.to_multiset(),
        right.to_multiset() == upper.to_multiset(),
    ensures
        split_on(left, right, axis),
{
    left.to_multiset_ensures();
    right.to_multiset_ensures();
    lower.to_multiset_ensures();
    upper.to_multiset_ensures();
    assert forall|i: int, j: int| 0 <= i < left.len() && 0 <= j < right.len() implies sort_rank(
        #[trigger] left[i],
        axis,
    ) <= sort_rank(#[trigger] right[j], axis) by {
        assert(left.to_multiset().count(left[i]) > 0);
        assert(lower.contains(left[i]));
        assert(right.to_multiset().count(right[j]) > 0);
        assert(upper.contains(right[j]));
        let a = choose|a: int| 0 <= a < lower.len() && lower[a] == left[i];
        let b = choose|b: int| 0 <= b < upper.len() && upper[b] == right[j];
        assert((lower + upper)[a] == left[i]);
        assert((lower + upper)[lower.len() + b] == right[j]);
    }
}

} // verus!

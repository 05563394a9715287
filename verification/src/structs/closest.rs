//! What the closest hit is, and that both searches find it.
use crate::structs::aabb::{Slabs, AABB};
use crate::structs::aabb::lemma_union_is_least_enclosing;
use crate::structs::bvh::{later_wins, tightened, traversed, BVHNode, BVH};
use crate::structs::hitable::{scanned, HitRecord};
use crate::structs::material::Material;
use crate::structs::ray::Ray;
use crate::structs::scalar::Scalar;
use crate::structs::sphere::{struck, Crossings, Sphere};
use vstd::prelude::*;

verus! {

/// The box of a node whose boxes are right all the way down lies around
/// the box of every primitive below it, where no coordinate of those is a
/// NaN.
pub proof fn lemma_box_holds_leaves(tree: BVH, i: int)
    requires
        tree.boxed(),
        forall|k: int| 0 <= k < tree.leaves().len() ==> (#[trigger] tree.leaves()[k]).bbox.defined(),
        0 <= i < tree.leaves().len(),
    ensures
        tree.bbox.defined(),
        tree.bbox.encloses(tree.leaves()[i].bbox),
    decreases tree,
{
    match tree.root {
        BVHNode::Branch { left, right } => {
            let lower = left.leaves();
            let upper = right.leaves();
            assert forall|k: int| 0 <= k < lower.len() implies (#[trigger] lower[k]).bbox.defined() by {
                assert(tree.leaves()[k] == lower[k]);
            }
            assert forall|k: int| 0 <= k < upper.len() implies (#[trigger] upper[k]).bbox.defined() by {
                assert(tree.leaves()[lower.len() + k] == upper[k]);
            }
            lemma_leaves_exist(*left);
            lemma_leaves_exist(*right);
            lemma_box_holds_leaves(*left, 0);
            lemma_box_holds_leaves(*right, 0);
            if i < lower.len() {
                lemma_box_holds_leaves(*left, i);
                lemma_union_is_least_enclosing(left.bbox, right.bbox, left.bbox);
            } else {
                lemma_box_holds_leaves(*right, i - lower.len());
                lemma_union_is_least_enclosing(left.bbox, right.bbox, right.bbox);
            }
        },
        BVHNode::Leaf(_) => {},
        BVHNode::Empty => {},
    }
}

/// A node whose boxes are right all the way down has a primitive below it.
proof fn lemma_leaves_exist(tree: BVH)
    requires
        tree.boxed(),
    ensures
        tree.leaves().len() > 0,
    decreases tree,
{
    match tree.root {
        BVHNode::Branch { left, right } => {
            lemma_leaves_exist(*left);
        },
        _ => {},
    }
}

/// Whether the arithmetic has one answer only for every sphere.
pub open spec fn single_valued<C: Fn(Sphere, Ray) -> Crossings>(crossings: C, r: Ray) -> bool {
    forall|sphere: Sphere, c1: Crossings, c2: Crossings|
        #![trigger call_ensures(crossings, (sphere, r), c1), call_ensures(crossings, (sphere, r), c2)]
        call_ensures(crossings, (sphere, r), c1) && call_ensures(crossings, (sphere, r), c2)
            ==> c1 == c2
}

/// Whether the arithmetic never puts the second root before the first.
pub open spec fn roots_ordered<C: Fn(Sphere, Ray) -> Crossings>(crossings: C, r: Ray) -> bool {
    forall|sphere: Sphere, c: Crossings| #[trigger]
        call_ensures(crossings, (sphere, r), c) ==> !c.far.t.below(c.near.t)
}

/// Whether none of the first `upto` primitives is hit strictly between `a`
/// and `b`.
pub open spec fn no_hit<C: Fn(Sphere, Ray) -> Crossings>(
    prims: Seq<Sphere>,
    upto: int,
    r: Ray,
    a: Scalar,
    b: Scalar,
    crossings: C,
) -> bool {
    forall|i: int, c: Crossings|
        0 <= i < upto && i < prims.len() && #[trigger] call_ensures(crossings, (prims[i], r), c)
            ==> c.first_within(a, b, prims[i].material) is None
}

/// Whether `hit` is the hit of one of the first `upto` primitives strictly
/// between `a` and `b`.
pub open spec fn genuine<C: Fn(Sphere, Ray) -> Crossings>(
    prims: Seq<Sphere>,
    upto: int,
    r: Ray,
    a: Scalar,
    b: Scalar,
    crossings: C,
    hit: HitRecord,
) -> bool {
    exists|i: int, c: Crossings|
        0 <= i < upto && i < prims.len() && #[trigger] call_ensures(crossings, (prims[i], r), c)
            && c.first_within(a, b, prims[i].material) == Some(hit)
}

/// Whether `out` is the closest hit among the first `upto` primitives
/// strictly between `a` and `b`: the hit of one of them before which none
/// of them is hit, or nothing where none of them is hit at all.
pub open spec fn closest_among<C: Fn(Sphere, Ray) -> Crossings>(
    prims: Seq<Sphere>,
    upto: int,
    r: Ray,
    a: Scalar,
    b: Scalar,
    crossings: C,
    out: Option<HitRecord>,
) -> bool {
    match out {
        None => no_hit(prims, upto, r, a, b, crossings),
        Some(hit) => genuine(prims, upto, r, a, b, crossings, hit) && no_hit(
            prims,
            upto,
            r,
            a,
            hit.t,
            crossings,
        ),
    }
}

/// Whether a box lets through every ray that hits one of the primitives:
/// wherever the arithmetic finds a hit between two parameters, it also
/// finds that the ray is inside the box somewhere between them.
pub open spec fn box_admits<S, C>(
    bbox: AABB,
    prims: Seq<Sphere>,
    r: Ray,
    slabs: S,
    crossings: C,
) -> bool where S: Fn(AABB, Ray) -> Slabs, C: Fn(Sphere, Ray) -> Crossings {
    forall|s: Slabs, i: int, c: Crossings, a: Scalar, b: Scalar|
        #![trigger call_ensures(slabs, (bbox, r), s), call_ensures(crossings, (prims[i], r), c), c.first_within(a, b, prims[i].material)]
        call_ensures(slabs, (bbox, r), s) && 0 <= i < prims.len() && call_ensures(
            crossings,
            (prims[i], r),
            c,
        ) && c.first_within(a, b, prims[i].material) is Some ==> s.overlap(a, b)
}

/// Whether every box of the hierarchy lets through the rays that hit a
/// primitive below it.
pub open spec fn boxes_admit<S, C>(tree: BVH, r: Ray, slabs: S, crossings: C) -> bool where
    S: Fn(AABB, Ray) -> Slabs,
    C: Fn(Sphere, Ray) -> Crossings,

    decreases tree,
{
    match tree.root {
        BVHNode::Empty => true,
        BVHNode::Leaf(_) => box_admits(tree.bbox, tree.leaves(), r, slabs, crossings),
        BVHNode::Branch { left, right } => {
            &&& box_admits(tree.bbox, tree.leaves(), r, slabs, crossings)
            &&& boxes_admit(*left, r, slabs, crossings)
            &&& boxes_admit(*right, r, slabs, crossings)
        },
    }
}

/// Whether the slab test grows with the box: a ray that is found inside a
/// box between two parameters is found inside every box around that box
/// between them.
pub open spec fn boxes_nest<S: Fn(AABB, Ray) -> Slabs>(slabs: S, r: Ray) -> bool {
    forall|outer: AABB, inner: AABB, wide: Slabs, narrow: Slabs, a: Scalar, b: Scalar|
        #![trigger call_ensures(slabs, (outer, r), wide), call_ensures(slabs, (inner, r), narrow), narrow.overlap(a, b)]
        outer.encloses(inner) && call_ensures(slabs, (outer, r), wide) && call_ensures(
            slabs,
            (inner, r),
            narrow,
        ) && narrow.overlap(a, b) ==> wide.overlap(a, b)
}

/// Whether the arithmetic has an answer for a box.
pub open spec fn box_answered<S: Fn(AABB, Ray) -> Slabs>(slabs: S, bbox: AABB, r: Ray) -> bool {
    exists|s: Slabs| #[trigger] call_ensures(slabs, (bbox, r), s)
}

/// Whether the arithmetic has an answer for every box.
pub open spec fn every_box_answered<S: Fn(AABB, Ray) -> Slabs>(slabs: S, r: Ray) -> bool {
    forall|bbox: AABB| #[trigger] box_answered(slabs, bbox, r)
}

/// Whether the box of every primitive lets through the rays that hit that
/// primitive.
pub open spec fn own_boxes_admit<S, C>(
    prims: Seq<Sphere>,
    r: Ray,
    slabs: S,
    crossings: C,
) -> bool where S: Fn(AABB, Ray) -> Slabs, C: Fn(Sphere, Ray) -> Crossings {
    forall|s: Slabs, i: int, c: Crossings, a: Scalar, b: Scalar|
        #![trigger call_ensures(slabs, (prims[i].bbox, r), s), call_ensures(crossings, (prims[i], r), c), c.first_within(a, b, prims[i].material)]
        0 <= i < prims.len() && call_ensures(slabs, (prims[i].bbox, r), s) && call_ensures(
            crossings,
            (prims[i], r),
            c,
        ) && c.first_within(a, b, prims[i].material) is Some ==> s.overlap(a, b)
}

/// In a hierarchy whose boxes are right all the way down, every box lets
/// through the rays that hit a primitive below it, as soon as the box of
/// every primitive does so and the slab test grows with the box.
pub proof fn lemma_right_boxes_admit<S, C>(tree: BVH, r: Ray, slabs: S, crossings: C) where
    S: Fn(AABB, Ray) -> Slabs,
    C: Fn(Sphere, Ray) -> Crossings,

    requires
        tree.boxed(),
        forall|k: int| 0 <= k < tree.leaves().len() ==> (#[trigger] tree.leaves()[k]).bbox.defined(),
        boxes_nest(slabs, r),
        every_box_answered(slabs, r),
        own_boxes_admit(tree.leaves(), r, slabs, crossings),
    ensures
        boxes_admit(tree, r, slabs, crossings),
    decreases tree,
{
    let prims = tree.leaves();
    assert forall|s: Slabs, i: int, c: Crossings, a: Scalar, b: Scalar|
        #![trigger call_ensures(slabs, (tree.bbox, r), s), call_ensures(crossings, (prims[i], r), c), c.first_within(a, b, prims[i].material)]
        call_ensures(slabs, (tree.bbox, r), s) && 0 <= i < prims.len() && call_ensures(
            crossings,
            (prims[i], r),
            c,
        ) && c.first_within(a, b, prims[i].material) is Some implies s.overlap(a, b) by {
        lemma_box_holds_leaves(tree, i);
        assert(box_answered(slabs, prims[i].bbox, r));
        let own = choose|own: Slabs| #[trigger] call_ensures(slabs, (prims[i].bbox, r), own);
        assert(own.overlap(a, b));
    }
    match tree.root {
        BVHNode::Branch { left, right } => {
            let lower = left.leaves();
            let upper = right.leaves();
            assert forall|k: int| 0 <= k < lower.len() implies (#[trigger] lower[k]).bbox.defined() by {
                assert(prims[k] == lower[k]);
            }
            assert forall|k: int| 0 <= k < upper.len() implies (#[trigger] upper[k]).bbox.defined() by {
                assert(prims[lower.len() + k] == upper[k]);
            }
            assert forall|s: Slabs, i: int, c: Crossings, a: Scalar, b: Scalar|
                #![trigger call_ensures(slabs, (lower[i].bbox, r), s), call_ensures(crossings, (lower[i], r), c), c.first_within(a, b, lower[i].material)]
                0 <= i < lower.len() && call_ensures(slabs, (lower[i].bbox, r), s)
                    && call_ensures(crossings, (lower[i], r), c) && c.first_within(
                    a,
                    b,
                    lower[i].material,
                ) is Some implies s.overlap(a, b) by {
                assert(prims[i] == lower[i]);
            }
            assert forall|s: Slabs, i: int, c: Crossings, a: Scalar, b: Scalar|
                #![trigger call_ensures(slabs, (upper[i].bbox, r), s), call_ensures(crossings, (upper[i], r), c), c.first_within(a, b, upper[i].material)]
                0 <= i < upper.len() && call_ensures(slabs, (upper[i].bbox, r), s)
                    && call_ensures(crossings, (upper[i], r), c) && c.first_within(
                    a,
                    b,
                    upper[i].material,
                ) is Some implies s.overlap(a, b) by {
                assert(prims[lower.len() + i] == upper[i]);
            }
            lemma_right_boxes_admit(*left, r, slabs, crossings);
            lemma_right_boxes_admit(*right, r, slabs, crossings);
        },
        _ => {},
    }
}

/// How the hit among two ordered roots depends on the upper end of the
/// interval: it lies inside the interval and nothing lies before it; a
/// shorter interval holds no hit where a longer one holds none; and the
/// hit stays the same as long as the upper end stays behind it.
proof fn lemma_first_within(c: Crossings, m: Material, a: Scalar, b: Scalar, b2: Scalar)
    requires
        !c.far.t.below(c.near.t),
    ensures
        c.first_within(a, b, m) matches Some(h) ==> (a.below(h.t) && h.t.below(b)
            && c.first_within(a, h.t, m) is None),
        (b2 == b || b2.below(b)) && c.first_within(a, b, m) is None ==> c.first_within(a, b2, m)
            is None,
        (b2 == b || b2.below(b)) && c.first_within(a, b2, m) is Some ==> c.first_within(a, b, m)
            == c.first_within(a, b2, m),
        c.first_within(a, b, m) matches Some(h) ==> (h.t.below(b2) && b2.below(b)
            ==> c.first_within(a, b2, m) == Some(h)),
{
}

/// A scan that has found the closest hit among the primitives it has
/// seen ends with the closest hit among all of them.
proof fn lemma_scan_goes_on<C: Fn(Sphere, Ray) -> Crossings>(
    prims: Seq<Sphere>,
    from: int,
    r: Ray,
    a: Scalar,
    t_max: Scalar,
    best: Option<HitRecord>,
    crossings: C,
    out: Option<HitRecord>,
)
    requires
        single_valued(crossings, r),
        roots_ordered(crossings, r),
        0 <= from <= prims.len(),
        closest_among(prims, from, r, a, t_max, crossings, best),
        scanned(prims, from, r, a, tightened(best, t_max), best, crossings, out),
    ensures
        closest_among(prims, prims.len() as int, r, a, t_max, crossings, out),
    decreases prims.len() - from,
{
    let closest = tightened(best, t_max);
    if from < prims.len() {
        let found = choose|found: Option<HitRecord>| #[trigger]
            struck(prims[from], r, a, closest, crossings, found) && match found {
                Some(hit) => scanned(prims, from + 1, r, a, hit.t, found, crossings, out),
                None => scanned(prims, from + 1, r, a, closest, best, crossings, out),
            };
        let m = prims[from].material;
        let c = choose|c: Crossings| #[trigger]
            call_ensures(crossings, (prims[from], r), c) && found == c.first_within(a, closest, m);
        // The closest so far is the upper end itself or lies before it.
        assert(closest == t_max || closest.below(t_max)) by {
            if let Some(h) = best {
                let (i0, c0) = choose|i: int, c: Crossings|
                    0 <= i < from && i < prims.len() && #[trigger] call_ensures(
                        crossings,
                        (prims[i], r),
                        c,
                    ) && c.first_within(a, t_max, prims[i].material) == Some(h);
                lemma_first_within(c0, prims[i0].material, a, t_max, t_max);
            }
        }
        lemma_first_within(c, m, a, closest, closest);
        lemma_first_within(c, m, a, t_max, closest);
        match found {
            Some(hit) => {
                assert(genuine(prims, from + 1, r, a, t_max, crossings, hit));
                assert forall|i: int, ci: Crossings|
                    0 <= i < from + 1 && i < prims.len() && #[trigger] call_ensures(
                        crossings,
                        (prims[i], r),
                        ci,
                    ) implies ci.first_within(a, hit.t, prims[i].material) is None by {
                    if i < from {
                        lemma_first_within(ci, prims[i].material, a, closest, hit.t);
                    }
                }
                lemma_scan_goes_on(prims, from + 1, r, a, t_max, found, crossings, out);
            },
            None => {
                match best {
                    Some(h) => {
                        let (i0, c0) = choose|i: int, c: Crossings|
                            0 <= i < from && i < prims.len() && #[trigger] call_ensures(
                                crossings,
                                (prims[i], r),
                                c,
                            ) && c.first_within(a, t_max, prims[i].material) == Some(h);
                        assert(genuine(prims, from + 1, r, a, t_max, crossings, h));
                    },
                    None => {},
                }
                lemma_scan_goes_on(prims, from + 1, r, a, t_max, best, crossings, out);
            },
        }
    }
}

/// A scan of a list ends with the closest hit among its primitives, where
/// the arithmetic has one answer for every sphere and orders its roots.
pub proof fn lemma_scan_finds_closest<C: Fn(Sphere, Ray) -> Crossings>(
    prims: Seq<Sphere>,
    r: Ray,
    t_min: Scalar,
    t_max: Scalar,
    crossings: C,
    out: Option<HitRecord>,
)
    requires
        single_valued(crossings, r),
        roots_ordered(crossings, r),
        scanned(prims, 0, r, t_min, t_max, None, crossings, out),
    ensures
        closest_among(prims, prims.len() as int, r, t_min, t_max, crossings, out),
{
    lemma_scan_goes_on(prims, 0, r, t_min, t_max, None, crossings, out);
}

/// A walk of the hierarchy ends with the closest hit among the primitives
/// below the node, where the arithmetic has one answer for every sphere,
/// orders its roots, and every box lets through the rays that hit a
/// primitive below it.
pub proof fn lemma_walk_finds_closest<S, C>(
    tree: BVH,
    r: Ray,
    t_min: Scalar,
    t_max: Scalar,
    slabs: S,
    crossings: C,
    out: Option<HitRecord>,
) where S: Fn(AABB, Ray) -> Slabs, C: Fn(Sphere, Ray) -> Crossings
    requires
        single_valued(crossings, r),
        roots_ordered(crossings, r),
        boxes_admit(tree, r, slabs, crossings),
        traversed(tree, r, t_min, t_max, slabs, crossings, out),
    ensures
        closest_among(
            tree.leaves(),
            tree.leaves().len() as int,
            r,
            t_min,
            t_max,
            crossings,
            out,
        ),
    decreases tree,
{
    let prims = tree.leaves();
    let n = prims.len() as int;
    match tree.root {
        BVHNode::Empty => {},
        BVHNode::Leaf(leaf) => {
            let s = choose|s: Slabs| #[trigger]
                call_ensures(slabs, (tree.bbox, r), s) && if s.overlap(t_min, t_max) {
                    struck(leaf, r, t_min, t_max, crossings, out)
                } else {
                    out is None
                };
            assert(prims[0] == leaf);
            if s.overlap(t_min, t_max) {
                let c = choose|c: Crossings| #[trigger]
                    call_ensures(crossings, (leaf, r), c) && out == c.first_within(
                        t_min,
                        t_max,
                        leaf.material,
                    );
                lemma_first_within(c, leaf.material, t_min, t_max, t_max);
                if let Some(hit) = out {
                    assert(call_ensures(crossings, (prims[0], r), c));
                    assert(genuine(prims, n, r, t_min, t_max, crossings, hit));
                }
            } else {
                lemma_missed_box_hides_nothing(tree.bbox, prims, r, t_min, t_max, slabs, crossings, s);
            }
        },
        BVHNode::Branch { left, right } => {
            let s = choose|s: Slabs| #[trigger]
                call_ensures(slabs, (tree.bbox, r), s) && if s.overlap(t_min, t_max) {
                    exists|near: Option<HitRecord>, far: Option<HitRecord>|
                        {
                            &&& #[trigger] later_wins(near, far) == out
                            &&& traversed(*left, r, t_min, t_max, slabs, crossings, near)
                            &&& traversed(
                                *right,
                                r,
                                t_min,
                                tightened(near, t_max),
                                slabs,
                                crossings,
                                far,
                            )
                        }
                } else {
                    out is None
                };
            if s.overlap(t_min, t_max) {
                let (near, far) = choose|near: Option<HitRecord>, far: Option<HitRecord>|
                    {
                        &&& #[trigger] later_wins(near, far) == out
                        &&& traversed(*left, r, t_min, t_max, slabs, crossings, near)
                        &&& traversed(
                            *right,
                            r,
                            t_min,
                            tightened(near, t_max),
                            slabs,
                            crossings,
                            far,
                        )
                    };
                let lower = left.leaves();
                let upper = right.leaves();
                let cut = tightened(near, t_max);
                lemma_walk_finds_closest(*left, r, t_min, t_max, slabs, crossings, near);
                lemma_walk_finds_closest(*right, r, t_min, cut, slabs, crossings, far);
                lemma_closest_is_inside(lower, r, t_min, t_max, crossings, near);
                lemma_closest_is_inside(upper, r, t_min, cut, crossings, far);
                assert(cut == t_max || cut.below(t_max));
                match far {
                    Some(hit) => {
                        // Nothing on the left lies before the hit on the right.
                        lemma_no_hit_shrinks(lower, r, t_min, cut, hit.t, crossings);
                        lemma_genuine_grows(upper, r, t_min, cut, t_max, crossings, hit);
                        lemma_genuine_joins_right(lower, upper, r, t_min, t_max, crossings, hit);
                        lemma_no_hit_joins(lower, upper, r, t_min, hit.t, crossings);
                    },
                    None => {
                        match near {
                            Some(hit) => {
                                lemma_genuine_joins_left(lower, upper, r, t_min, t_max, crossings, hit);
                                lemma_no_hit_joins(lower, upper, r, t_min, hit.t, crossings);
                            },
                            None => {
                                lemma_no_hit_joins(lower, upper, r, t_min, t_max, crossings);
                            },
                        }
                    },
                }
            } else {
                lemma_missed_box_hides_nothing(tree.bbox, prims, r, t_min, t_max, slabs, crossings, s);
            }
        },
    }
}

/// Behind a box that the ray misses no primitive is hit.
proof fn lemma_missed_box_hides_nothing<S, C>(
    bbox: AABB,
    prims: Seq<Sphere>,
    r: Ray,
    a: Scalar,
    b: Scalar,
    slabs: S,
    crossings: C,
    s: Slabs,
) where S: Fn(AABB, Ray) -> Slabs, C: Fn(Sphere, Ray) -> Crossings
    requires
        box_admits(bbox, prims, r, slabs, crossings),
        call_ensures(slabs, (bbox, r), s),
        !s.overlap(a, b),
    ensures
        no_hit(prims, prims.len() as int, r, a, b, crossings),
{
    assert forall|i: int, c: Crossings|
        0 <= i < prims.len() && #[trigger] call_ensures(crossings, (prims[i], r), c) implies c.first_within(
        a,
        b,
        prims[i].material,
    ) is None by {
        if c.first_within(a, b, prims[i].material) is Some {
            assert(s.overlap(a, b));
        }
    }
}

/// The closest hit lies before the upper end of the interval.
proof fn lemma_closest_is_inside<C: Fn(Sphere, Ray) -> Crossings>(
    prims: Seq<Sphere>,
    r: Ray,
    a: Scalar,
    b: Scalar,
    crossings: C,
    out: Option<HitRecord>,
)
    requires
        roots_ordered(crossings, r),
        closest_among(prims, prims.len() as int, r, a, b, crossings, out),
    ensures
        tightened(out, b) == b || tightened(out, b).below(b),
{
    if let Some(hit) = out {
        let (i, c) = choose|i: int, c: Crossings|
            0 <= i < prims.len() && i < prims.len() && #[trigger] call_ensures(
                crossings,
                (prims[i], r),
                c,
            ) && c.first_within(a, b, prims[i].material) == Some(hit);
        lemma_first_within(c, prims[i].material, a, b, b);
    }
}

/// Where nothing is hit before `b`, nothing is hit before an earlier end.
proof fn lemma_no_hit_shrinks<C: Fn(Sphere, Ray) -> Crossings>(
    prims: Seq<Sphere>,
    r: Ray,
    a: Scalar,
    b: Scalar,
    b2: Scalar,
    crossings: C,
)
    requires
        roots_ordered(crossings, r),
        no_hit(prims, prims.len() as int, r, a, b, crossings),
        b2 == b || b2.below(b),
    ensures
        no_hit(prims, prims.len() as int, r, a, b2, crossings),
{
    assert forall|i: int, c: Crossings|
        0 <= i < prims.len() && #[trigger] call_ensures(crossings, (prims[i], r), c) implies c.first_within(
        a,
        b2,
        prims[i].material,
    ) is None by {
        lemma_first_within(c, prims[i].material, a, b, b2);
    }
}

/// A hit found before an earlier end is the hit before a later end too.
proof fn lemma_genuine_grows<C: Fn(Sphere, Ray) -> Crossings>(
    prims: Seq<Sphere>,
    r: Ray,
    a: Scalar,
    b2: Scalar,
    b: Scalar,
    crossings: C,
    hit: HitRecord,
)
    requires
        roots_ordered(crossings, r),
        genuine(prims, prims.len() as int, r, a, b2, crossings, hit),
        b2 == b || b2.below(b),
    ensures
        genuine(prims, prims.len() as int, r, a, b, crossings, hit),
{
    let (i, c) = choose|i: int, c: Crossings|
        0 <= i < prims.len() && i < prims.len() && #[trigger] call_ensures(
            crossings,
            (prims[i], r),
            c,
        ) && c.first_within(a, b2, prims[i].material) == Some(hit);
    lemma_first_within(c, prims[i].material, a, b, b2);
}

/// A hit of the left part is a hit of the whole.
proof fn lemma_genuine_joins_left<C: Fn(Sphere, Ray) -> Crossings>(
    lower: Seq<Sphere>,
    upper: Seq<Sphere>,
    r: Ray,
    a: Scalar,
    b: Scalar,
    crossings: C,
    hit: HitRecord,
)
    requires
        genuine(lower, lower.len() as int, r, a, b, crossings, hit),
    ensures
        genuine(lower + upper, (lower + upper).len() as int, r, a, b, crossings, hit),
{
    let (i, c) = choose|i: int, c: Crossings|
        0 <= i < lower.len() && i < lower.len() && #[trigger] call_ensures(
            crossings,
            (lower[i], r),
            c,
        ) && c.first_within(a, b, lower[i].material) == Some(hit);
    assert((lower + upper)[i] == lower[i]);
    assert(call_ensures(crossings, ((lower + upper)[i], r), c));
}

/// A hit of the right part is a hit of the whole.
proof fn lemma_genuine_joins_right<C: Fn(Sphere, Ray) -> Crossings>(
    lower: Seq<Sphere>,
    upper: Seq<Sphere>,
    r: Ray,
    a: Scalar,
    b: Scalar,
    crossings: C,
    hit: HitRecord,
)
    requires
        genuine(upper, upper.len() as int, r, a, b, crossings, hit),
    ensures
        genuine(lower + upper, (lower + upper).len() as int, r, a, b, crossings, hit),
{
    let (i, c) = choose|i: int, c: Crossings|
        0 <= i < upper.len() && i < upper.len() && #[trigger] call_ensures(
            crossings,
            (upper[i], r),
            c,
        ) && c.first_within(a, b, upper[i].material) == Some(hit);
    let j = lower.len() + i;
    assert((lower + upper)[j] == upper[i]);
    assert(call_ensures(crossings, ((lower + upper)[j], r), c));
}

/// Where neither part is hit, the whole is not hit.
proof fn lemma_no_hit_joins<C: Fn(Sphere, Ray) -> Crossings>(
    lower: Seq<Sphere>,
    upper: Seq<Sphere>,
    r: Ray,
    a: Scalar,
    b: Scalar,
    crossings: C,
)
    requires
        no_hit(lower, lower.len() as int, r, a, b, crossings),
        no_hit(upper, upper.len() as int, r, a, b, crossings),
    ensures
        no_hit(lower + upper, (lower + upper).len() as int, r, a, b, crossings),
{
    let whole = lower + upper;
    assert forall|i: int, c: Crossings|
        0 <= i < whole.len() && #[trigger] call_ensures(crossings, (whole[i], r), c) implies c.first_within(
        a,
        b,
        whole[i].material,
    ) is None by {
        if i < lower.len() {
            assert(whole[i] == lower[i]);
        } else {
            assert(whole[i] == upper[i - lower.len()]);
        }
    }
}

/// Two closest hits among the same primitives in the same interval lie at
/// the same parameter, or there is none.
pub proof fn lemma_closest_is_unique<C: Fn(Sphere, Ray) -> Crossings>(
    prims: Seq<Sphere>,
    r: Ray,
    t_min: Scalar,
    t_max: Scalar,
    crossings: C,
    one: Option<HitRecord>,
    other: Option<HitRecord>,
)
    requires
        roots_ordered(crossings, r),
        closest_among(prims, prims.len() as int, r, t_min, t_max, crossings, one),
        closest_among(prims, prims.len() as int, r, t_min, t_max, crossings, other),
    ensures
        one is None <==> other is None,
        one is Some && other is Some ==> one->0.t.same(other->0.t),
{
    if let Some(h1) = one {
        let (i1, c1) = choose|i: int, c: Crossings|
            0 <= i < prims.len() && i < prims.len() && #[trigger] call_ensures(
                crossings,
                (prims[i], r),
                c,
            ) && c.first_within(t_min, t_max, prims[i].material) == Some(h1);
        lemma_first_within(c1, prims[i1].material, t_min, t_max, t_max);
        if let Some(h2) = other {
            let (i2, c2) = choose|i: int, c: Crossings|
                0 <= i < prims.len() && i < prims.len() && #[trigger] call_ensures(
                    crossings,
                    (prims[i], r),
                    c,
                ) && c.first_within(t_min, t_max, prims[i].material) == Some(h2);
            lemma_first_within(c2, prims[i2].material, t_min, t_max, t_max);
            lemma_first_within(c1, prims[i1].material, t_min, t_max, h2.t);
            lemma_first_within(c2, prims[i2].material, t_min, t_max, h1.t);
        }
    } else if let Some(h2) = other {
        let (i2, c2) = choose|i: int, c: Crossings|
            0 <= i < prims.len() && i < prims.len() && #[trigger] call_ensures(
                crossings,
                (prims[i], r),
                c,
            ) && c.first_within(t_min, t_max, prims[i].material) == Some(h2);
    }
}

/// Whether two hits at one parameter are one and the same whenever they
/// are hits of two places of the list. This holds, in particular, where no
/// two primitives are hit at one parameter.
pub open spec fn ties_agree<C: Fn(Sphere, Ray) -> Crossings>(
    prims: Seq<Sphere>,
    r: Ray,
    a: Scalar,
    b: Scalar,
    crossings: C,
) -> bool {
    forall|i: int, j: int, ci: Crossings, cj: Crossings|
        #![trigger call_ensures(crossings, (prims[i], r), ci), call_ensures(crossings, (prims[j], r), cj)]
        0 <= i < prims.len() && 0 <= j < prims.len() && i != j && call_ensures(
            crossings,
            (prims[i], r),
            ci,
        ) && call_ensures(crossings, (prims[j], r), cj) && ci.first_within(
            a,
            b,
            prims[i].material,
        ) is Some && cj.first_within(a, b, prims[j].material) is Some && ci.first_within(
            a,
            b,
            prims[i].material,
        )->0.t.same(cj.first_within(a, b, prims[j].material)->0.t) ==> ci.first_within(
            a,
            b,
            prims[i].material,
        ) == cj.first_within(a, b, prims[j].material)
}

/// Two closest hits among the same primitives in the same interval are one
/// and the same record, where hits at one parameter are.
pub proof fn lemma_closest_record_is_unique<C: Fn(Sphere, Ray) -> Crossings>(
    prims: Seq<Sphere>,
    r: Ray,
    t_min: Scalar,
    t_max: Scalar,
    crossings: C,
    one: Option<HitRecord>,
    other: Option<HitRecord>,
)
    requires
        single_valued(crossings, r),
        roots_ordered(crossings, r),
        ties_agree(prims, r, t_min, t_max, crossings),
        closest_among(prims, prims.len() as int, r, t_min, t_max, crossings, one),
        closest_among(prims, prims.len() as int, r, t_min, t_max, crossings, other),
    ensures
        one == other,
{
    lemma_closest_is_unique(prims, r, t_min, t_max, crossings, one, other);
    if let Some(h1) = one {
        if let Some(h2) = other {
            let (i1, c1) = choose|i: int, c: Crossings|
                0 <= i < prims.len() && i < prims.len() && #[trigger] call_ensures(
                    crossings,
                    (prims[i], r),
                    c,
                ) && c.first_within(t_min, t_max, prims[i].material) == Some(h1);
            let (i2, c2) = choose|i: int, c: Crossings|
                0 <= i < prims.len() && i < prims.len() && #[trigger] call_ensures(
                    crossings,
                    (prims[i], r),
                    c,
                ) && c.first_within(t_min, t_max, prims[i].material) == Some(h2);
            if i1 == i2 {
                assert(c1 == c2);
            }
        }
    }
}

/// What stands at a place of one sequence stands at some place of every
/// sequence that holds the same spheres.
proof fn lemma_found_elsewhere(here: Seq<Sphere>, there: Seq<Sphere>, i: int) -> (j: int)
    requires
        here.to_multiset() == there.to_multiset(),
        0 <= i < here.len(),
    ensures
        0 <= j < there.len(),
        there[j] == here[i],
{
    here.to_multiset_ensures();
    there.to_multiset_ensures();
    assert(here.to_multiset().count(here[i]) > 0);
    assert(there.contains(here[i]));
    choose|j: int| 0 <= j < there.len() && there[j] == here[i]
}

/// The closest hit among the primitives of a list is the closest hit among
/// the primitives of every list that holds the same spheres, in whatever
/// order.
pub proof fn lemma_order_is_irrelevant<C: Fn(Sphere, Ray) -> Crossings>(
    here: Seq<Sphere>,
    there: Seq<Sphere>,
    r: Ray,
    t_min: Scalar,
    t_max: Scalar,
    crossings: C,
    out: Option<HitRecord>,
)
    requires
        here.to_multiset() == there.to_multiset(),
        closest_among(here, here.len() as int, r, t_min, t_max, crossings, out),
    ensures
        closest_among(there, there.len() as int, r, t_min, t_max, crossings, out),
{
    let end = tightened(out, t_max);
    assert forall|j: int, c: Crossings|
        0 <= j < there.len() && #[trigger] call_ensures(crossings, (there[j], r), c) implies c.first_within(
        t_min,
        end,
        there[j].material,
    ) is None by {
        let i = lemma_found_elsewhere(there, here, j);
        assert(call_ensures(crossings, (here[i], r), c));
    }
    if let Some(hit) = out {
        let (i, c) = choose|i: int, c: Crossings|
            0 <= i < here.len() && i < here.len() && #[trigger] call_ensures(
                crossings,
                (here[i], r),
                c,
            ) && c.first_within(t_min, t_max, here[i].material) == Some(hit);
        let j = lemma_found_elsewhere(here, there, i);
        assert(call_ensures(crossings, (there[j], r), c));
    }
}

/// A walk of a hierarchy over the spheres of a list ends with the closest
/// hit among the primitives of that list: a hit of one of them strictly
/// inside the interval, before which none of them is hit, or nothing where
/// none of them is hit. This holds where the arithmetic has one answer for
/// every sphere, orders its roots, and finds every ray that hits a
/// primitive inside the boxes around it.
pub proof fn lemma_walk_finds_closest_of_list<S, C>(
    tree: BVH,
    prims: Seq<Sphere>,
    r: Ray,
    t_min: Scalar,
    t_max: Scalar,
    slabs: S,
    crossings: C,
    out: Option<HitRecord>,
) where S: Fn(AABB, Ray) -> Slabs, C: Fn(Sphere, Ray) -> Crossings
    requires
        tree.leaves().to_multiset() == prims.to_multiset(),
        single_valued(crossings, r),
        roots_ordered(crossings, r),
        boxes_admit(tree, r, slabs, crossings),
        traversed(tree, r, t_min, t_max, slabs, crossings, out),
    ensures
        closest_among(prims, prims.len() as int, r, t_min, t_max, crossings, out),
        out matches Some(hit) ==> t_min.below(hit.t) && hit.t.below(t_max),
{
    lemma_walk_finds_closest(tree, r, t_min, t_max, slabs, crossings, out);
    lemma_order_is_irrelevant(tree.leaves(), prims, r, t_min, t_max, crossings, out);
    if let Some(hit) = out {
        let (i, c) = choose|i: int, c: Crossings|
            0 <= i < prims.len() && i < prims.len() && #[trigger] call_ensures(
                crossings,
                (prims[i], r),
                c,
            ) && c.first_within(t_min, t_max, prims[i].material) == Some(hit);
        lemma_first_within(c, prims[i].material, t_min, t_max, t_max);
    }
}

/// A walk of a hierarchy over the spheres of a list and a scan of that
/// list agree: both find nothing, or both find a hit at the same
/// parameter, and the very same hit where hits at one parameter are the
/// same. This holds where the arithmetic has one answer for every sphere,
/// orders its roots, and finds every ray that hits a primitive inside the
/// boxes around it.
pub proof fn lemma_walk_agrees_with_scan<S, C>(
    tree: BVH,
    prims: Seq<Sphere>,
    r: Ray,
    t_min: Scalar,
    t_max: Scalar,
    slabs: S,
    crossings: C,
    walked: Option<HitRecord>,
    scan: Option<HitRecord>,
) where S: Fn(AABB, Ray) -> Slabs, C: Fn(Sphere, Ray) -> Crossings
    requires
        tree.leaves().to_multiset() == prims.to_multiset(),
        single_valued(crossings, r),
        roots_ordered(crossings, r),
        boxes_admit(tree, r, slabs, crossings),
        traversed(tree, r, t_min, t_max, slabs, crossings, walked),
        scanned(prims, 0, r, t_min, t_max, None, crossings, scan),
    ensures
        walked is None <==> scan is None,
        walked is Some && scan is Some ==> walked->0.t.same(scan->0.t),
        ties_agree(prims, r, t_min, t_max, crossings) ==> walked == scan,
{
    lemma_walk_finds_closest_of_list(tree, prims, r, t_min, t_max, slabs, crossings, walked);
    lemma_scan_finds_closest(prims, r, t_min, t_max, crossings, scan);
    lemma_closest_is_unique(prims, r, t_min, t_max, crossings, walked, scan);
    if ties_agree(prims, r, t_min, t_max, crossings) {
        lemma_closest_record_is_unique(prims, r, t_min, t_max, crossings, walked, scan);
    }
}

/// In a well-formed hierarchy over the spheres of a list, every box lets
/// through the rays that hit a primitive below it, as soon as the box of
/// every primitive of the list does so and the slab test grows with the
/// box.
proof fn lemma_built_boxes_admit<S, C>(
    tree: BVH,
    prims: Seq<Sphere>,
    r: Ray,
    slabs: S,
    crossings: C,
) where S: Fn(AABB, Ray) -> Slabs, C: Fn(Sphere, Ray) -> Crossings
    requires
        tree.wf(),
        tree.leaves().to_multiset() == prims.to_multiset(),
        forall|k: int| 0 <= k < prims.len() ==> (#[trigger] prims[k]).bbox.defined(),
        boxes_nest(slabs, r),
        every_box_answered(slabs, r),
        own_boxes_admit(prims, r, slabs, crossings),
    ensures
        boxes_admit(tree, r, slabs, crossings),
{
    let leaves = tree.leaves();
    assert forall|k: int| 0 <= k < leaves.len() implies (#[trigger] leaves[k]).bbox.defined() by {
        let j = lemma_found_elsewhere(leaves, prims, k);
        assert(prims[j].bbox.defined());
    }
    assert forall|s: Slabs, i: int, c: Crossings, a: Scalar, b: Scalar|
        #![trigger call_ensures(slabs, (leaves[i].bbox, r), s), call_ensures(crossings, (leaves[i], r), c), c.first_within(a, b, leaves[i].material)]
        0 <= i < leaves.len() && call_ensures(slabs, (leaves[i].bbox, r), s) && call_ensures(
            crossings,
            (leaves[i], r),
            c,
        ) && c.first_within(a, b, leaves[i].material) is Some implies s.overlap(a, b) by {
        let j = lemma_found_elsewhere(leaves, prims, i);
        assert(call_ensures(slabs, (prims[j].bbox, r), s));
        assert(call_ensures(crossings, (prims[j], r), c));
    }
    if !(tree.root is Empty) {
        lemma_right_boxes_admit(tree, r, slabs, crossings);
    }
}

/// A walk of the hierarchy that construction makes of a list ends with the
/// closest hit among the primitives of that list: a hit of one of them
/// strictly inside the interval, before which none of them is hit, or
/// nothing where none of them is hit. This holds where no corner of the
/// box of a primitive is a NaN, and where the arithmetic has one answer
/// for every sphere and an answer for every box, orders its roots, finds
/// every ray that hits a primitive inside the box of that primitive, and
/// finds a ray that is inside a box inside every box around it.
pub proof fn lemma_built_walk_finds_closest<S, C>(
    tree: BVH,
    prims: Seq<Sphere>,
    r: Ray,
    t_min: Scalar,
    t_max: Scalar,
    slabs: S,
    crossings: C,
    out: Option<HitRecord>,
) where S: Fn(AABB, Ray) -> Slabs, C: Fn(Sphere, Ray) -> Crossings
    requires
        tree.wf(),
        tree.leaves().to_multiset() == prims.to_multiset(),
        forall|k: int| 0 <= k < prims.len() ==> (#[trigger] prims[k]).bbox.defined(),
        single_valued(crossings, r),
        roots_ordered(crossings, r),
        boxes_nest(slabs, r),
        every_box_answered(slabs, r),
        own_boxes_admit(prims, r, slabs, crossings),
        traversed(tree, r, t_min, t_max, slabs, crossings, out),
    ensures
        closest_among(prims, prims.len() as int, r, t_min, t_max, crossings, out),
        out matches Some(hit) ==> t_min.below(hit.t) && hit.t.below(t_max),
{
    lemma_built_boxes_admit(tree, prims, r, slabs, crossings);
    lemma_walk_finds_closest_of_list(tree, prims, r, t_min, t_max, slabs, crossings, out);
}

/// A walk of the hierarchy that construction makes of a list and a scan of
/// that list agree, whichever axes construction drew: both find nothing,
/// or both find a hit at the same parameter, and the very same hit where
/// hits at one parameter are the same. This holds where no corner of the
/// box of a primitive is a NaN, and where the arithmetic has one answer
/// for every sphere and an answer for every box, orders its roots, finds
/// every ray that hits a primitive inside the box of that primitive, and
/// finds a ray that is inside a box inside every box around it.
pub proof fn lemma_built_walk_agrees_with_scan<S, C>(
    tree: BVH,
    prims: Seq<Sphere>,
    r: Ray,
    t_min: Scalar,
    t_max: Scalar,
    slabs: S,
    crossings: C,
    walked: Option<HitRecord>,
    scan: Option<HitRecord>,
) where S: Fn(AABB, Ray) -> Slabs, C: Fn(Sphere, Ray) -> Crossings
    requires
        tree.wf(),
        tree.leaves().to_multiset() == prims.to_multiset(),
        forall|k: int| 0 <= k < prims.len() ==> (#[trigger] prims[k]).bbox.defined(),
        single_valued(crossings, r),
        roots_ordered(crossings, r),
        boxes_nest(slabs, r),
        every_box_answered(slabs, r),
        own_boxes_admit(prims, r, slabs, crossings),
        traversed(tree, r, t_min, t_max, slabs, crossings, walked),
        scanned(prims, 0, r, t_min, t_max, None, crossings, scan),
    ensures
        walked is None <==> scan is None,
        walked is Some && scan is Some ==> walked->0.t.same(scan->0.t),
        ties_agree(prims, r, t_min, t_max, crossings) ==> walked == scan,
{
    lemma_built_boxes_admit(tree, prims, r, slabs, crossings);
    lemma_walk_agrees_with_scan(tree, prims, r, t_min, t_max, slabs, crossings, walked, scan);
}

} // verus!

#![allow(dead_code)]
#![allow(unused_imports)]
use rand::Rng;
use rand::SeedableRng;
use rusttracer::structs::aabb::{Slab, Slabs, Span, AABB};
use rusttracer::structs::bvh::{sort_key, BVHNode, BVH};
use rusttracer::structs::hitable::{HitList, HitRecord};
use rusttracer::structs::material::{
    Dielectric, DiffuseSample, GlassSample, Lambertian, Material, MaterialError, Metal,
    MirrorSample,
};
use rusttracer::structs::ray::Ray;
use rusttracer::structs::scalar::Scalar;
use rusttracer::structs::sphere::{Crossing, Crossings, Sphere};
use rusttracer::structs::vec3::Vec3;
use rusttracer::structs::viewport::Viewport;

fn s(x: f64) -> Scalar {
    Scalar::from_bits(x.to_bits())
}

fn f(x: Scalar) -> f64 {
    f64::from_bits(x.to_bits())
}

fn v(x: f64, y: f64, z: f64) -> Vec3 {
    Vec3::new(s(x), s(y), s(z))
}

fn a(p: Vec3) -> [f64; 3] {
    [f(p.x_), f(p.y_), f(p.z_)]
}

fn add(p: Vec3, q: Vec3) -> Vec3 {
    v(f(p.x_) + f(q.x_), f(p.y_) + f(q.y_), f(p.z_) + f(q.z_))
}

fn sub(p: Vec3, q: Vec3) -> Vec3 {
    v(f(p.x_) - f(q.x_), f(p.y_) - f(q.y_), f(p.z_) - f(q.z_))
}

fn mul(p: Vec3, q: Vec3) -> Vec3 {
    v(f(p.x_) * f(q.x_), f(p.y_) * f(q.y_), f(p.z_) * f(q.z_))
}

fn scale(k: f64, p: Vec3) -> Vec3 {
    v(f(p.x_) * k, f(p.y_) * k, f(p.z_) * k)
}

fn over(p: Vec3, k: f64) -> Vec3 {
    v(f(p.x_) / k, f(p.y_) / k, f(p.z_) / k)
}

fn dot(p: Vec3, q: Vec3) -> f64 {
    f(p.x_) * f(q.x_) + f(p.y_) * f(q.y_) + f(p.z_) * f(q.z_)
}

fn length(p: Vec3) -> f64 {
    dot(p, p).sqrt()
}

fn unit(p: Vec3) -> Vec3 {
    over(p, length(p))
}

fn reflect(p: Vec3, n: Vec3) -> Vec3 {
    sub(p, scale(2.0 * dot(p, n), n))
}

fn refract(uv: Vec3, n: Vec3, eta: f64) -> Vec3 {
    let cos_theta = dot(uv.neg(), n).min(1.0);
    let out_orthogonal = scale(eta, add(uv, scale(cos_theta, n)));
    let out_parallel = -(1.0 - dot(out_orthogonal, out_orthogonal)).abs().sqrt();
    add(out_orthogonal, scale(out_parallel, n))
}

fn reflectance(cosine: f64, ratio: f64) -> f64 {
    let r0 = ((1.0 - ratio) / (1.0 + ratio)).powi(2);
    r0 + (1.0 - r0) * (1.0 - cosine).powi(5)
}

fn random_in_unit_sphere() -> Vec3 {
    let mut rng = rand::thread_rng();
    loop {
        let p = v(
            rng.gen_range(-1.0, 1.0),
            rng.gen_range(-1.0, 1.0),
            rng.gen_range(-1.0, 1.0),
        );
        if dot(p, p) < 1.0 {
            return p;
        }
    }
}

fn slab(min: Scalar, max: Scalar, origin: Scalar, direction: Scalar) -> Slab {
    let inv_d = 1.0 / f(direction);
    Slab {
        inv_d: s(inv_d),
        t0: s((f(min) - f(origin)) * inv_d),
        t1: s((f(max) - f(origin)) * inv_d),
    }
}

fn slabs(b: AABB, r: Ray) -> Slabs {
    Slabs {
        x: slab(b.min_c.x_, b.max_c.x_, r.orig.x_, r.direction.x_),
        y: slab(b.min_c.y_, b.max_c.y_, r.orig.y_, r.direction.y_),
        z: slab(b.min_c.z_, b.max_c.z_, r.orig.z_, r.direction.z_),
    }
}

fn crossing(sphere: Sphere, r: Ray, t: f64) -> Crossing {
    let point = add(r.orig, scale(t, r.direction));
    let normal = over(sub(point, sphere.center), f(sphere.radius));
    Crossing { t: s(t), point, normal, facing: s(dot(r.direction, normal)) }
}

fn crossings(sphere: Sphere, r: Ray) -> Crossings {
    let oc = sub(r.orig, sphere.center);
    let qa = dot(r.direction, r.direction);
    let qb = dot(oc, r.direction);
    let qc = dot(oc, oc) - f(sphere.radius) * f(sphere.radius);
    let discr = qb * qb - qa * qc;
    let root = discr.sqrt();
    Crossings {
        discr: s(discr),
        near: crossing(sphere, r, (-qb - root) / qa),
        far: crossing(sphere, r, (-qb + root) / qa),
    }
}

fn ball(radius: f64, center: Vec3, material: Material) -> Sphere {
    let reach = v(radius, radius, radius);
    Sphere::new(s(radius), center, material, AABB::new(sub(center, reach), add(center, reach)))
}

fn diffuse(_matter: Lambertian, _r: Ray, hit: HitRecord) -> DiffuseSample {
    let inside = random_in_unit_sphere();
    DiffuseSample {
        facing: s(dot(inside, hit.out_normal)),
        toward: add(hit.out_normal, inside),
        away: sub(hit.out_normal, inside),
    }
}

fn mirror(metal: Metal, r: Ray, hit: HitRecord) -> MirrorSample {
    let fuzz = f(metal.fuzz());
    let reflection = reflect(unit(r.direction), hit.out_normal);
    let direction = add(reflection, scale(fuzz, random_in_unit_sphere()));
    MirrorSample { direction, facing: s(dot(direction, hit.out_normal)) }
}

fn glass_with(matter: Dielectric, r: Ray, hit: HitRecord, draw: f64) -> GlassSample {
    let index = f(matter.refraction());
    let ratio = if hit.front_face { 1.0 / index } else { index };
    let unit_dir = unit(r.direction);
    let cos_theta = dot(unit_dir.neg(), hit.out_normal).min(1.0);
    let sin_theta = (1.0 - cos_theta * cos_theta).sqrt();
    GlassSample {
        bend: s(ratio * sin_theta),
        reflectance: s(reflectance(cos_theta, ratio)),
        draw: s(draw),
        reflected: reflect(unit_dir, hit.out_normal),
        refracted: refract(unit_dir, hit.out_normal, ratio),
    }
}

fn glass(matter: Dielectric, r: Ray, hit: HitRecord) -> GlassSample {
    let draw: f64 = rand::thread_rng().gen();
    glass_with(matter, r, hit, draw)
}

fn sky(r: Ray) -> Vec3 {
    let t = 0.5 * (f(unit(r.direction).y_) + 1.0);
    add(scale(1.0 - t, v(1.0, 1.0, 1.0)), scale(t, v(0.5, 0.7, 1.0)))
}

fn develop(colours: Vec<Vec3>) -> Vec3 {
    let mut sum = v(0.0, 0.0, 0.0);
    for colour in colours.iter() {
        sum = add(sum, *colour);
    }
    let mean = over(sum, colours.len() as f64);
    v(f(mean.x_).sqrt(), f(mean.y_).sqrt(), f(mean.z_).sqrt())
}

fn cross(p: Vec3, q: Vec3) -> Vec3 {
    v(
        f(p.y_) * f(q.z_) - f(p.z_) * f(q.y_),
        f(p.z_) * f(q.x_) - f(p.x_) * f(q.z_),
        f(p.x_) * f(q.y_) - f(p.y_) * f(q.x_),
    )
}

fn camera(
    lookfrom: Vec3,
    lookat: Vec3,
    vup: Vec3,
    vfov: f64,
    aspect_ratio: f64,
    aperture: f64,
    focus_dist: f64,
) -> Viewport {
    let h = (vfov.to_radians() / 2.0).tan();
    let view_height = h;
    let view_width = aspect_ratio * view_height;
    let w = unit(sub(lookfrom, lookat));
    let u = unit(cross(vup, w));
    let vv = cross(w, u);
    Viewport::new(
        s(aperture / 2.0),
        lookfrom,
        scale(2.0 * focus_dist * view_width, u),
        scale(2.0 * focus_dist * view_height, vv),
        sub(
            sub(sub(lookfrom, scale(view_width * focus_dist, u)), scale(view_height * focus_dist, vv)),
            scale(focus_dist, w),
        ),
        u,
        vv,
    )
}

fn send_ray(c: Viewport, x: f64, y: f64, lens: Vec3) -> Ray {
    let rd = scale(f(c.lens_radius_), lens);
    let offset = add(scale(f(rd.x_), c.u_), scale(f(rd.y_), c.v_));
    Ray::new(
        add(c.origin_, offset),
        sub(
            sub(add(add(c.lower_left_corner_, scale(x, c.horizontal_)), scale(y, c.vertical_)), c.origin_),
            offset,
        ),
    )
}

fn through_centre(c: Viewport, i: u32, j: u32, width: u32, height: u32) -> Ray {
    send_ray(
        c,
        (i as f64 + 0.5) / width as f64,
        (j as f64 + 0.5) / height as f64,
        v(0.0, 0.0, 0.0),
    )
}

fn grey() -> Material {
    Material::new_lambertian(v(0.5, 0.5, 0.5))
}

#[test]
fn the_box_of_a_sphere_is_kept() {
    let sphere = ball(2.0, v(1.0, 2.0, 3.0), grey());
    let b = sphere.bounding_box().unwrap();
    assert_eq!(a(b.min_c), [-1.0, 0.0, 1.0]);
    assert_eq!(a(b.max_c), [3.0, 4.0, 5.0]);
    assert_eq!(f(sphere.radius), 2.0);
    assert_eq!(a(sphere.center), [1.0, 2.0, 3.0]);
}

#[test]
fn a_ray_through_the_centre_hits_at_the_near_root() {
    let sphere = ball(1.0, v(0.0, 0.0, 0.0), grey());
    let r = Ray::new(v(0.0, 0.0, -5.0), v(0.0, 0.0, 1.0));
    let hit = sphere.hit(&r, s(0.001), s(f64::MAX), &crossings).unwrap();
    assert!((f(hit.t) - 4.0).abs() < 1e-9);
    assert!(hit.front_face);
    let n = a(hit.out_normal);
    assert!((length(hit.out_normal) - 1.0).abs() < 1e-9);
    assert!(n[0].abs() < 1e-9 && n[1].abs() < 1e-9 && (n[2] + 1.0).abs() < 1e-9);
    let p = a(hit.hit_point);
    assert!(p[0].abs() < 1e-9 && p[1].abs() < 1e-9 && (p[2] + 1.0).abs() < 1e-9);
}

#[test]
fn the_root_matches_the_quadratic_for_a_slanted_ray() {
    let sphere = ball(2.0, v(1.0, -1.0, 0.5), grey());
    let r = Ray::new(v(-6.0, 2.0, 1.0), v(2.0, -0.8, -0.1));
    let hit = sphere.hit(&r, s(0.001), s(f64::MAX), &crossings).unwrap();
    let t = f(hit.t);
    let p = add(r.orig, scale(t, r.direction));
    assert!((length(sub(p, sphere.center)) - 2.0).abs() < 1e-9);
    assert!((length(hit.out_normal) - 1.0).abs() < 1e-9);
    // The normal points away from the centre on the side the ray entered.
    assert!(hit.front_face);
    assert!(dot(hit.out_normal, sub(p, sphere.center)) > 0.0);
    assert!(dot(hit.out_normal, r.direction) < 0.0);
    // It is the smaller of the two roots.
    let found = crossings(sphere, r);
    assert_eq!(f(found.near.t), t);
    assert!(f(found.far.t) > t);
}

#[test]
fn a_ray_from_inside_hits_at_the_far_root() {
    let sphere = ball(1.0, v(0.0, 0.0, 0.0), grey());
    let r = Ray::new(v(0.0, 0.0, 0.0), v(0.0, 0.0, 1.0));
    let hit = sphere.hit(&r, s(0.001), s(f64::MAX), &crossings).unwrap();
    assert!((f(hit.t) - 1.0).abs() < 1e-9);
    assert!(!hit.front_face);
    let n = a(hit.out_normal);
    assert!((n[2] + 1.0).abs() < 1e-9);
}

#[test]
fn both_ends_of_the_interval_are_excluded() {
    let sphere = ball(1.0, v(0.0, 0.0, 0.0), grey());
    let r = Ray::new(v(0.0, 0.0, -5.0), v(0.0, 0.0, 1.0));
    let found = crossings(sphere, r);
    assert_eq!(f(found.near.t), 4.0);
    assert_eq!(f(found.far.t), 6.0);
    // The near root is the upper end: only nothing lies strictly inside.
    assert!(sphere.hit(&r, s(0.001), s(4.0), &crossings).is_none());
    // The near root is the lower end: the far root is the hit.
    let hit = sphere.hit(&r, s(4.0), s(f64::MAX), &crossings).unwrap();
    assert_eq!(f(hit.t), 6.0);
    assert!(sphere.hit(&r, s(4.0), s(6.0), &crossings).is_none());
    assert!(sphere.hit(&r, s(6.0), s(f64::MAX), &crossings).is_none());
    let hit = sphere.hit(&r, s(3.9), s(4.1), &crossings).unwrap();
    assert_eq!(f(hit.t), 4.0);
}

#[test]
fn never_both_roots() {
    let sphere = ball(1.0, v(0.0, 0.0, 0.0), grey());
    let r = Ray::new(v(0.0, 0.0, -5.0), v(0.0, 0.0, 1.0));
    let found = crossings(sphere, r);
    let picked = found.select(s(0.0), s(10.0), grey()).unwrap();
    assert_eq!(f(picked.t), 4.0);
}

#[test]
fn a_ray_that_passes_by_or_only_touches_does_not_hit() {
    let sphere = ball(1.0, v(0.0, 0.0, 0.0), grey());
    let passing = Ray::new(v(0.0, 2.0, -5.0), v(0.0, 0.0, 1.0));
    assert!(sphere.hit(&passing, s(0.001), s(f64::MAX), &crossings).is_none());
    let touching = Ray::new(v(0.0, 1.0, -5.0), v(0.0, 0.0, 1.0));
    assert_eq!(f(crossings(sphere, touching).discr), 0.0);
    assert!(sphere.hit(&touching, s(0.001), s(f64::MAX), &crossings).is_none());
}

#[test]
fn a_sphere_behind_the_ray_is_not_hit() {
    let sphere = ball(1.0, v(0.0, 0.0, 0.0), grey());
    let r = Ray::new(v(0.0, 0.0, 5.0), v(0.0, 0.0, 1.0));
    assert!(sphere.hit(&r, s(0.001), s(f64::MAX), &crossings).is_none());
}

#[test]
fn the_record_carries_the_material() {
    let sphere = ball(1.0, v(0.0, 0.0, 0.0), Material::new_lambertian(v(0.1, 0.2, 0.3)));
    let r = Ray::new(v(0.0, 0.0, -5.0), v(0.0, 0.0, 1.0));
    let hit = sphere.hit(&r, s(0.001), s(f64::MAX), &crossings).unwrap();
    assert_eq!(a(hit.material.attenuation()), [0.1, 0.2, 0.3]);
}

#[test]
fn a_ray_without_direction_hits_nothing() {
    // The quadratic degenerates: its discriminant is 0 and both roots are
    // NaN, so nothing is reported.
    let sphere = ball(1.0, v(0.0, 0.0, 0.0), grey());
    let r = Ray::new(v(0.0, 0.0, -5.0), v(0.0, 0.0, 0.0));
    assert!(sphere.hit(&r, s(0.001), s(f64::MAX), &crossings).is_none());
}

#[test]
fn a_sphere_without_radius_yields_no_usable_normal() {
    let sphere = ball(0.0, v(0.0, 0.0, 0.0), grey());
    let r = Ray::new(v(0.0, 0.0, -5.0), v(0.0, 0.0, 1.0));
    assert!(sphere.hit(&r, s(0.001), s(f64::MAX), &crossings).is_none());
}

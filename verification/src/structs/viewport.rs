//! The camera, the bounded path of a ray through the scene, and the image
//! buffer.
use crate::structs::aabb::{Slabs, AABB};
use crate::structs::bvh::{traversed, BVH};
use crate::structs::hitable::HitRecord;
use crate::structs::material::{
    scattered, Dielectric, DiffuseSample, GlassSample, Lambertian, Metal, MirrorSample,
};
use crate::structs::pixel::{channel, channel_of};
use crate::structs::ray::Ray;
use crate::structs::scalar::Scalar;
use crate::structs::sphere::{Crossings, Sphere};
use crate::structs::vec3::{Point3, Vec3};
use vstd::prelude::*;

verus! {

/// The pattern of 0.001: a hit counts only beyond this parameter, so that a
/// scattered ray does not meet the surface it starts from.
pub const NEAREST_BITS: u64 = 0x3f50_624d_d2f1_a9fc;

/// The pattern of positive infinity: a hit counts at every finite
/// parameter beyond the nearest.
pub const FARTHEST_BITS: u64 = 0x7ff0_0000_0000_0000;

/// The camera: where it stands, the frame of its image plane, and its lens.
#[derive(Clone, Copy, Debug)]
pub struct Viewport {
    pub lens_radius_: Scalar,
    pub origin_: Point3,
    pub horizontal_: Vec3,
    pub vertical_: Vec3,
    pub lower_left_corner_: Vec3,
    pub u_: Vec3,
    pub v_: Vec3,
}

/// The colour of a path that carries no light.
pub open spec fn black() -> Vec3 {
    Vec3 { x_: Scalar { bits: 0 }, y_: Scalar { bits: 0 }, z_: Scalar { bits: 0 } }
}

/// Whether `out` is a colour that a ray may bring back from the scene with
/// `depth` bounces left. With none left the path is black. Otherwise the
/// scene is asked for the closest hit between 0.001 and infinity: a ray
/// that hits nothing brings back the sky; a hit whose material absorbs the
/// ray gives black; and a hit that scatters gives the colour of the
/// scattered ray, with one bounce less, tinted by the material.
pub open spec fn coloured<S, C, D, M, G, K, T>(
    r: Ray,
    scene: BVH,
    depth: nat,
    slabs: S,
    crossings: C,
    diffuse: D,
    mirror: M,
    glass: G,
    sky: K,
    tint: T,
    out: Vec3,
) -> bool where
    S: Fn(AABB, Ray) -> Slabs,
    C: Fn(Sphere, Ray) -> Crossings,
    D: Fn(Lambertian, Ray, HitRecord) -> DiffuseSample,
    M: Fn(Metal, Ray, HitRecord) -> MirrorSample,
    G: Fn(Dielectric, Ray, HitRecord) -> GlassSample,
    K: Fn(Ray) -> Vec3,
    T: Fn(Vec3, Vec3) -> Vec3,

    decreases depth,
{
    if depth == 0 {
        out == black()
    } else {
        exists|found: Option<HitRecord>| #[trigger]
            traversed(
                scene,
                r,
                Scalar { bits: NEAREST_BITS },
                Scalar { bits: FARTHEST_BITS },
                slabs,
                crossings,
                found,
            ) && match found {
                None => call_ensures(sky, (r,), out),
                Some(hit) => exists|next: Option<Ray>| #[trigger]
                    scattered(hit.material, r, hit, diffuse, mirror, glass, next) && match next {
                        None => out == black(),
                        Some(ray) => exists|rest: Vec3| #[trigger]
                            call_ensures(tint, (hit.material.tint(), rest), out) && coloured(
                                ray,
                                scene,
                                (depth - 1) as nat,
                                slabs,
                                crossings,
                                diffuse,
                                mirror,
                                glass,
                                sky,
                                tint,
                                rest,
                            ),
                    },
            }
    }
}

/// Whether `colour` is what one sample of the pixel in column `i` of row
/// `j` may bring back: the colour of a primary ray of that pixel.
pub open spec fn sampled<S, C, D, M, G, K, T, P>(
    camera: Viewport,
    i: u32,
    j: u32,
    width: u32,
    height: u32,
    depth: u32,
    scene: BVH,
    slabs: S,
    crossings: C,
    diffuse: D,
    mirror: M,
    glass: G,
    sky: K,
    tint: T,
    primary: P,
    colour: Vec3,
) -> bool where
    S: Fn(AABB, Ray) -> Slabs,
    C: Fn(Sphere, Ray) -> Crossings,
    D: Fn(Lambertian, Ray, HitRecord) -> DiffuseSample,
    M: Fn(Metal, Ray, HitRecord) -> MirrorSample,
    G: Fn(Dielectric, Ray, HitRecord) -> GlassSample,
    K: Fn(Ray) -> Vec3,
    T: Fn(Vec3, Vec3) -> Vec3,
    P: Fn(Viewport, u32, u32, u32, u32) -> Ray,
 {
    exists|ray: Ray| #[trigger]
        call_ensures(primary, (camera, i, j, width, height), ray) && coloured(
            ray,
            scene,
            depth as nat,
            slabs,
            crossings,
            diffuse,
            mirror,
            glass,
            sky,
            tint,
            colour,
        )
}

/// Whether `colour` is what the pixel in column `i` of row `j` may come
/// to: what `develop` makes of `samples` samples of that pixel.
pub open spec fn developed<S, C, D, M, G, K, T, P, V>(
    camera: Viewport,
    i: u32,
    j: u32,
    width: u32,
    height: u32,
    samples: u32,
    depth: u32,
    scene: BVH,
    slabs: S,
    crossings: C,
    diffuse: D,
    mirror: M,
    glass: G,
    sky: K,
    tint: T,
    primary: P,
    develop: V,
    colour: Vec3,
) -> bool where
    S: Fn(AABB, Ray) -> Slabs,
    C: Fn(Sphere, Ray) -> Crossings,
    D: Fn(Lambertian, Ray, HitRecord) -> DiffuseSample,
    M: Fn(Metal, Ray, HitRecord) -> MirrorSample,
    G: Fn(Dielectric, Ray, HitRecord) -> GlassSample,
    K: Fn(Ray) -> Vec3,
    T: Fn(Vec3, Vec3) -> Vec3,
    P: Fn(Viewport, u32, u32, u32, u32) -> Ray,
    V: Fn(Vec<Vec3>) -> Vec3,
 {
    exists|colours: Vec<Vec3>| #[trigger]
        call_ensures(develop, (colours,), colour) && colours@.len() == samples && forall|k: int|
            0 <= k < samples ==> sampled(
                camera,
                i,
                j,
                width,
                height,
                depth,
                scene,
                slabs,
                crossings,
                diffuse,
                mirror,
                glass,
                sky,
                tint,
                primary,
                #[trigger] colours@[k],
            )
}

/// Whether the three bytes from place `at` on are the channels of
/// `colour`, red first.
pub open spec fn shows(buffer: Seq<u8>, at: int, colour: Vec3) -> bool {
    &&& 0 <= at
    &&& at + 2 < buffer.len()
    &&& buffer[at] == channel_of(colour.x_)
    &&& buffer[at + 1] == channel_of(colour.y_)
    &&& buffer[at + 2] == channel_of(colour.z_)
}

/// Whether the buffer holds, from place `at` on, a colour that the pixel in
/// column `i` of row `j` may come to.
pub open spec fn painted<S, C, D, M, G, K, T, P, V>(
    buffer: Seq<u8>,
    at: int,
    camera: Viewport,
    i: u32,
    j: u32,
    width: u32,
    height: u32,
    samples: u32,
    depth: u32,
    scene: BVH,
    slabs: S,
    crossings: C,
    diffuse: D,
    mirror: M,
    glass: G,
    sky: K,
    tint: T,
    primary: P,
    develop: V,
) -> bool where
    S: Fn(AABB, Ray) -> Slabs,
    C: Fn(Sphere, Ray) -> Crossings,
    D: Fn(Lambertian, Ray, HitRecord) -> DiffuseSample,
    M: Fn(Metal, Ray, HitRecord) -> MirrorSample,
    G: Fn(Dielectric, Ray, HitRecord) -> GlassSample,
    K: Fn(Ray) -> Vec3,
    T: Fn(Vec3, Vec3) -> Vec3,
    P: Fn(Viewport, u32, u32, u32, u32) -> Ray,
    V: Fn(Vec<Vec3>) -> Vec3,
 {
    exists|colour: Vec3| #[trigger]
        shows(buffer, at, colour) && developed(
            camera,
            i,
            j,
            width,
            height,
            samples,
            depth,
            scene,
            slabs,
            crossings,
            diffuse,
            mirror,
            glass,
            sky,
            tint,
            primary,
            develop,
            colour,
        )
}

/// Whether a row of bytes holds the pixel in column `i` of row `j`: three
/// bytes for every pixel, from left to right.
pub open spec fn row_holds<S, C, D, M, G, K, T, P, V>(
    row: Seq<u8>,
    i: int,
    camera: Viewport,
    j: u32,
    width: u32,
    height: u32,
    samples: u32,
    depth: u32,
    scene: BVH,
    slabs: S,
    crossings: C,
    diffuse: D,
    mirror: M,
    glass: G,
    sky: K,
    tint: T,
    primary: P,
    develop: V,
) -> bool where
    S: Fn(AABB, Ray) -> Slabs,
    C: Fn(Sphere, Ray) -> Crossings,
    D: Fn(Lambertian, Ray, HitRecord) -> DiffuseSample,
    M: Fn(Metal, Ray, HitRecord) -> MirrorSample,
    G: Fn(Dielectric, Ray, HitRecord) -> GlassSample,
    K: Fn(Ray) -> Vec3,
    T: Fn(Vec3, Vec3) -> Vec3,
    P: Fn(Viewport, u32, u32, u32, u32) -> Ray,
    V: Fn(Vec<Vec3>) -> Vec3,
 {
    painted(
        row,
        3 * i,
        camera,
        i as u32,
        j,
        width,
        height,
        samples,
        depth,
        scene,
        slabs,
        crossings,
        diffuse,
        mirror,
        glass,
        sky,
        tint,
        primary,
        develop,
    )
}

/// Whether an image holds the pixel in column `i` of its `k`-th row from
/// the top. Rows follow each other from the top, and rays are cast with
/// rows counted from the bottom, so that row is row `height - 1 - k`.
pub open spec fn image_holds<S, C, D, M, G, K, T, P, V>(
    buffer: Seq<u8>,
    k: int,
    i: int,
    camera: Viewport,
    width: u32,
    height: u32,
    samples: u32,
    depth: u32,
    scene: BVH,
    slabs: S,
    crossings: C,
    diffuse: D,
    mirror: M,
    glass: G,
    sky: K,
    tint: T,
    primary: P,
    develop: V,
) -> bool where
    S: Fn(AABB, Ray) -> Slabs,
    C: Fn(Sphere, Ray) -> Crossings,
    D: Fn(Lambertian, Ray, HitRecord) -> DiffuseSample,
    M: Fn(Metal, Ray, HitRecord) -> MirrorSample,
    G: Fn(Dielectric, Ray, HitRecord) -> GlassSample,
    K: Fn(Ray) -> Vec3,
    T: Fn(Vec3, Vec3) -> Vec3,
    P: Fn(Viewport, u32, u32, u32, u32) -> Ray,
    V: Fn(Vec<Vec3>) -> Vec3,
 {
    painted(
        buffer,
        3 * (k * width + i),
        camera,
        i as u32,
        (height - 1 - k) as u32,
        width,
        height,
        samples,
        depth,
        scene,
        slabs,
        crossings,
        diffuse,
        mirror,
        glass,
        sky,
        tint,
        primary,
        develop,
    )
}

/// With no bounce allowed every sample is black, whatever the scene: the
/// colours that `develop` is given for a pixel are all black.
pub proof fn lemma_no_bounce_is_black<S, C, D, M, G, K, T, P, V>(
    camera: Viewport,
    i: u32,
    j: u32,
    width: u32,
    height: u32,
    samples: u32,
    scene: BVH,
    slabs: S,
    crossings: C,
    diffuse: D,
    mirror: M,
    glass: G,
    sky: K,
    tint: T,
    primary: P,
    develop: V,
    colour: Vec3,
) where
    S: Fn(AABB, Ray) -> Slabs,
    C: Fn(Sphere, Ray) -> Crossings,
    D: Fn(Lambertian, Ray, HitRecord) -> DiffuseSample,
    M: Fn(Metal, Ray, HitRecord) -> MirrorSample,
    G: Fn(Dielectric, Ray, HitRecord) -> GlassSample,
    K: Fn(Ray) -> Vec3,
    T: Fn(Vec3, Vec3) -> Vec3,
    P: Fn(Viewport, u32, u32, u32, u32) -> Ray,
    V: Fn(Vec<Vec3>) -> Vec3,

    requires
        developed(
            camera,
            i,
            j,
            width,
            height,
            samples,
            0,
            scene,
            slabs,
            crossings,
            diffuse,
            mirror,
            glass,
            sky,
            tint,
            primary,
            develop,
            colour,
        ),
    ensures
        exists|colours: Vec<Vec3>| #[trigger]
            call_ensures(develop, (colours,), colour) && colours@.len() == samples && forall|
                k: int,
            |
                0 <= k < samples ==> #[trigger] colours@[k] == black(),
{
    let colours = choose|colours: Vec<Vec3>| #[trigger]
        call_ensures(develop, (colours,), colour) && colours@.len() == samples && forall|k: int|
            0 <= k < samples ==> sampled(
                camera,
                i,
                j,
                width,
                height,
                0,
                scene,
                slabs,
                crossings,
                diffuse,
                mirror,
                glass,
                sky,
                tint,
                primary,
                #[trigger] colours@[k],
            );
    assert forall|k: int| 0 <= k < samples implies #[trigger] colours@[k] == black() by {
        assert(sampled(
            camera,
            i,
            j,
            width,
            height,
            0,
            scene,
            slabs,
            crossings,
            diffuse,
            mirror,
            glass,
            sky,
            tint,
            primary,
            colours@[k],
        ));
    }
}

impl Viewport {
    /// A camera from its derived frame: half the aperture, the place it
    /// looks from, the two edges of the image plane, the corner of the
    /// plane where both start, and the two unit vectors that span the lens.
    pub fn new(
        lens_radius: Scalar,
        origin: Point3,
        horizontal: Vec3,
        vertical: Vec3,
        lower_left_corner: Vec3,
        u: Vec3,
        v: Vec3,
    ) -> (camera: Viewport)
        ensures
            camera == (Viewport {
                lens_radius_: lens_radius,
                origin_: origin,
                horizontal_: horizontal,
                vertical_: vertical,
                lower_left_corner_: lower_left_corner,
                u_: u,
                v_: v,
            }),
    {
        Viewport {
            lens_radius_: lens_radius,
            origin_: origin,
            horizontal_: horizontal,
            vertical_: vertical,
            lower_left_corner_: lower_left_corner,
            u_: u,
            v_: v,
        }
    }

    /// The colour a ray brings back from the scene, with at most `depth`
    /// bounces. The function parameters do the arithmetic: the crossings
    /// of a ray with boxes and spheres and the three kinds of scattering;
    /// `sky`, the colour of the background along a ray, which goes from
    /// white to (0.5, 0.7, 1) as the height of the unit direction goes from
    /// -1 to 1; and `tint`, the product of two colours channel by channel.
    pub fn ray_col<S, C, D, M, G, K, T>(
        r: &Ray,
        scene: &BVH,
        depth: u32,
        slabs: &S,
        crossings: &C,
        diffuse: &D,
        mirror: &M,
        glass: &G,
        sky: &K,
        tint: &T,
    ) -> (out: Vec3) where
        S: Fn(AABB, Ray) -> Slabs,
        C: Fn(Sphere, Ray) -> Crossings,
        D: Fn(Lambertian, Ray, HitRecord) -> DiffuseSample,
        M: Fn(Metal, Ray, HitRecord) -> MirrorSample,
        G: Fn(Dielectric, Ray, HitRecord) -> GlassSample,
        K: Fn(Ray) -> Vec3,
        T: Fn(Vec3, Vec3) -> Vec3,

        requires
            forall|b: AABB, ray: Ray| call_requires(*slabs, (b, ray)),
            forall|s: Sphere, ray: Ray| call_requires(*crossings, (s, ray)),
            forall|m: Lambertian, ray: Ray, hit: HitRecord| call_requires(*diffuse, (m, ray, hit)),
            forall|m: Metal, ray: Ray, hit: HitRecord| call_requires(*mirror, (m, ray, hit)),
            forall|m: Dielectric, ray: Ray, hit: HitRecord| call_requires(*glass, (m, ray, hit)),
            forall|ray: Ray| call_requires(*sky, (ray,)),
            forall|a: Vec3, b: Vec3| call_requires(*tint, (a, b)),
        ensures
            coloured(
                *r,
                *scene,
                depth as nat,
                *slabs,
                *crossings,
                *diffuse,
                *mirror,
                *glass,
                *sky,
                *tint,
                out,
            ),
            depth == 0 ==> out == black(),
        decreases depth,
    {
        if depth != 0 {
            let found = scene.hit(
                r,
                Scalar::from_bits(NEAREST_BITS),
                Scalar::from_bits(FARTHEST_BITS),
                slabs,
                crossings,
            );
            match found {
                Some(hit_rec) => {
                    let next = hit_rec.material.scatter(r, &hit_rec, diffuse, mirror, glass);
                    if let Some(scatter_vec) = next {
                        let rest = Viewport::ray_col(
                            &scatter_vec,
                            scene,
                            depth - 1,
                            slabs,
                            crossings,
                            diffuse,
                            mirror,
                            glass,
                            sky,
                            tint,
                        );
                        let out = tint(hit_rec.material.attenuation(), rest);
                        assert(call_ensures(*tint, (hit_rec.material.tint(), rest), out));
                        out
                    } else {
                        Vec3::zero()
                    }
                },
                None => sky(*r),
            }
        } else {
            Vec3::zero()
        }
    }

    /// The bytes of row `j` of the image, rows being counted from the
    /// bottom: for every pixel from left to right its red, green and blue
    /// channel. `primary` casts a ray from a random point of the lens
    /// through a random point of the pixel in a column and a row of an
    /// image of a width and a height, and `develop` takes the mean of the
    /// samples of a pixel and the square root of each of its channels.
    pub fn render_row<S, C, D, M, G, K, T, P, V>(
        &self,
        j: u32,
        img_width: u32,
        img_height: u32,
        samples: u32,
        ray_depth: u32,
        scene: &BVH,
        slabs: &S,
        crossings: &C,
        diffuse: &D,
        mirror: &M,
        glass: &G,
        sky: &K,
        tint: &T,
        primary: &P,
        develop: &V,
    ) -> (row: Vec<u8>) where
        S: Fn(AABB, Ray) -> Slabs,
        C: Fn(Sphere, Ray) -> Crossings,
        D: Fn(Lambertian, Ray, HitRecord) -> DiffuseSample,
        M: Fn(Metal, Ray, HitRecord) -> MirrorSample,
        G: Fn(Dielectric, Ray, HitRecord) -> GlassSample,
        K: Fn(Ray) -> Vec3,
        T: Fn(Vec3, Vec3) -> Vec3,
        P: Fn(Viewport, u32, u32, u32, u32) -> Ray,
        V: Fn(Vec<Vec3>) -> Vec3,

        requires
            forall|b: AABB, ray: Ray| call_requires(*slabs, (b, ray)),
            forall|s: Sphere, ray: Ray| call_requires(*crossings, (s, ray)),
            forall|m: Lambertian, ray: Ray, hit: HitRecord| call_requires(*diffuse, (m, ray, hit)),
            forall|m: Metal, ray: Ray, hit: HitRecord| call_requires(*mirror, (m, ray, hit)),
            forall|m: Dielectric, ray: Ray, hit: HitRecord| call_requires(*glass, (m, ray, hit)),
            forall|ray: Ray| call_requires(*sky, (ray,)),
            forall|a: Vec3, b: Vec3| call_requires(*tint, (a, b)),
            forall|c: Viewport, x: u32, y: u32, w: u32, h: u32|
                call_requires(*primary, (c, x, y, w, h)),
            forall|colours: Vec<Vec3>| call_requires(*develop, (colours,)),
        ensures
            row@.len() == 3 * img_width,
            forall|i: int|
                0 <= i < img_width ==> #[trigger] row_holds(
                    row@,
                    i,
                    *self,
                    j,
                    img_width,
                    img_height,
                    samples,
                    ray_depth,
                    *scene,
                    *slabs,
                    *crossings,
                    *diffuse,
                    *mirror,
                    *glass,
                    *sky,
                    *tint,
                    *primary,
                    *develop,
                ),
    {
        let mut row: Vec<u8> = Vec::new();
        let mut i: u32 = 0;
        while i < img_width
            invariant
                i <= img_width,
                row@.len() == 3 * i,
                forall|b: AABB, ray: Ray| call_requires(*slabs, (b, ray)),
                forall|s: Sphere, ray: Ray| call_requires(*crossings, (s, ray)),
                forall|m: Lambertian, ray: Ray, hit: HitRecord| call_requires(*diffuse, (m, ray, hit)),
                forall|m: Metal, ray: Ray, hit: HitRecord| call_requires(*mirror, (m, ray, hit)),
                forall|m: Dielectric, ray: Ray, hit: HitRecord| call_requires(*glass, (m, ray, hit)),
                forall|ray: Ray| call_requires(*sky, (ray,)),
                forall|a: Vec3, b: Vec3| call_requires(*tint, (a, b)),
                forall|c: Viewport, x: u32, y: u32, w: u32, h: u32|
                    call_requires(*primary, (c, x, y, w, h)),
                forall|colours: Vec<Vec3>| call_requires(*develop, (colours,)),
                forall|x: int|
                    0 <= x < i ==> #[trigger] row_holds(
                        row@,
                        x,
                        *self,
                        j,
                        img_width,
                        img_height,
                        samples,
                        ray_depth,
                        *scene,
                        *slabs,
                        *crossings,
                        *diffuse,
                        *mirror,
                        *glass,
                        *sky,
                        *tint,
                        *primary,
                        *develop,
                    ),
            decreases img_width - i,
        {
            let mut colours: Vec<Vec3> = Vec::new();
            let mut taken: u32 = 0;
            while taken < samples
                invariant
                    taken <= samples,
                    colours@.len() == taken,
                    forall|b: AABB, ray: Ray| call_requires(*slabs, (b, ray)),
                    forall|s: Sphere, ray: Ray| call_requires(*crossings, (s, ray)),
                    forall|m: Lambertian, ray: Ray, hit: HitRecord| call_requires(*diffuse, (m, ray, hit)),
                    forall|m: Metal, ray: Ray, hit: HitRecord| call_requires(*mirror, (m, ray, hit)),
                    forall|m: Dielectric, ray: Ray, hit: HitRecord| call_requires(*glass, (m, ray, hit)),
                    forall|ray: Ray| call_requires(*sky, (ray,)),
                    forall|a: Vec3, b: Vec3| call_requires(*tint, (a, b)),
                    forall|c: Viewport, x: u32, y: u32, w: u32, h: u32|
                        call_requires(*primary, (c, x, y, w, h)),
                    forall|colours: Vec<Vec3>| call_requires(*develop, (colours,)),
                    forall|k: int|
                        0 <= k < taken ==> sampled(
                            *self,
                            i,
                            j,
                            img_width,
                            img_height,
                            ray_depth,
                            *scene,
                            *slabs,
                            *crossings,
                            *diffuse,
                            *mirror,
                            *glass,
                            *sky,
                            *tint,
                            *primary,
                            #[trigger] colours@[k],
                        ),
                decreases samples - taken,
            {
                let r = primary(*self, i, j, img_width, img_height);
                let colour = Viewport::ray_col(
                    &r,
                    scene,
                    ray_depth,
                    slabs,
                    crossings,
                    diffuse,
                    mirror,
                    glass,
                    sky,
                    tint,
                );
                colours.push(colour);
                taken += 1;
            }
            let col = develop(colours);
            let ghost before = row@;
            row.push(channel(col.x_));
            row.push(channel(col.y_));
            row.push(channel(col.z_));
            proof {
                assert(shows(row@, 3 * i, col));
                assert forall|x: int| 0 <= x < i implies #[trigger] row_holds(
                    row@,
                    x,
                    *self,
                    j,
                    img_width,
                    img_height,
                    samples,
                    ray_depth,
                    *scene,
                    *slabs,
                    *crossings,
                    *diffuse,
                    *mirror,
                    *glass,
                    *sky,
                    *tint,
                    *primary,
                    *develop,
                ) by {
                    assert(row_holds(
                        before,
                        x,
                        *self,
                        j,
                        img_width,
                        img_height,
                        samples,
                        ray_depth,
                        *scene,
                        *slabs,
                        *crossings,
                        *diffuse,
                        *mirror,
                        *glass,
                        *sky,
                        *tint,
                        *primary,
                        *develop,
                    ));
                    let c = choose|c: Vec3| #[trigger]
                        shows(before, 3 * x, c) && developed(
                            *self,
                            x as u32,
                            j,
                            img_width,
                            img_height,
                            samples,
                            ray_depth,
                            *scene,
                            *slabs,
                            *crossings,
                            *diffuse,
                            *mirror,
                            *glass,
                            *sky,
                            *tint,
                            *primary,
                            *develop,
                            c,
                        );
                    assert(shows(row@, 3 * x, c));
                }
            }
            i += 1;
        }
        row
    }

    /// The image: three bytes for every pixel, the rows from the top to
    /// the bottom and every row from left to right.
    pub fn render<S, C, D, M, G, K, T, P, V>(
        &self,
        img_width: u32,
        img_height: u32,
        samples: u32,
        ray_depth: u32,
        scene: &BVH,
        slabs: &S,
        crossings: &C,
        diffuse: &D,
        mirror: &M,
        glass: &G,
        sky: &K,
        tint: &T,
        primary: &P,
        develop: &V,
    ) -> (buffer: Vec<u8>) where
        S: Fn(AABB, Ray) -> Slabs,
        C: Fn(Sphere, Ray) -> Crossings,
        D: Fn(Lambertian, Ray, HitRecord) -> DiffuseSample,
        M: Fn(Metal, Ray, HitRecord) -> MirrorSample,
        G: Fn(Dielectric, Ray, HitRecord) -> GlassSample,
        K: Fn(Ray) -> Vec3,
        T: Fn(Vec3, Vec3) -> Vec3,
        P: Fn(Viewport, u32, u32, u32, u32) -> Ray,
        V: Fn(Vec<Vec3>) -> Vec3,

        requires
            forall|b: AABB, ray: Ray| call_requires(*slabs, (b, ray)),
            forall|s: Sphere, ray: Ray| call_requires(*crossings, (s, ray)),
            forall|m: Lambertian, ray: Ray, hit: HitRecord| call_requires(*diffuse, (m, ray, hit)),
            forall|m: Metal, ray: Ray, hit: HitRecord| call_requires(*mirror, (m, ray, hit)),
            forall|m: Dielectric, ray: Ray, hit: HitRecord| call_requires(*glass, (m, ray, hit)),
            forall|ray: Ray| call_requires(*sky, (ray,)),
            forall|a: Vec3, b: Vec3| call_requires(*tint, (a, b)),
            forall|c: Viewport, x: u32, y: u32, w: u32, h: u32|
                call_requires(*primary, (c, x, y, w, h)),
            forall|colours: Vec<Vec3>| call_requires(*develop, (colours,)),
        ensures
            buffer@.len() == 3 * img_width * img_height,
            forall|k: int, i: int|
                0 <= k < img_height && 0 <= i < img_width ==> #[trigger] image_holds(
                    buffer@,
                    k,
                    i,
                    *self,
                    img_width,
                    img_height,
                    samples,
                    ray_depth,
                    *scene,
                    *slabs,
                    *crossings,
                    *diffuse,
                    *mirror,
                    *glass,
                    *sky,
                    *tint,
                    *primary,
                    *develop,
                ),
    {
        let mut buffer: Vec<u8> = Vec::new();
        let mut k: u32 = 0;
        while k < img_height
            invariant
                k <= img_height,
                buffer@.len() == 3 * (k * img_width),
                forall|b: AABB, ray: Ray| call_requires(*slabs, (b, ray)),
                forall|s: Sphere, ray: Ray| call_requires(*crossings, (s, ray)),
                forall|m: Lambertian, ray: Ray, hit: HitRecord| call_requires(*diffuse, (m, ray, hit)),
                forall|m: Metal, ray: Ray, hit: HitRecord| call_requires(*mirror, (m, ray, hit)),
                forall|m: Dielectric, ray: Ray, hit: HitRecord| call_requires(*glass, (m, ray, hit)),
                forall|ray: Ray| call_requires(*sky, (ray,)),
                forall|a: Vec3, b: Vec3| call_requires(*tint, (a, b)),
                forall|c: Viewport, x: u32, y: u32, w: u32, h: u32|
                    call_requires(*primary, (c, x, y, w, h)),
                forall|colours: Vec<Vec3>| call_requires(*develop, (colours,)),
                forall|y: int, x: int|
                    0 <= y < k && 0 <= x < img_width ==> #[trigger] image_holds(
                        buffer@,
                        y,
                        x,
                        *self,
                        img_width,
                        img_height,
                        samples,
                        ray_depth,
                        *scene,
                        *slabs,
                        *crossings,
                        *diffuse,
                        *mirror,
                        *glass,
                        *sky,
                        *tint,
                        *primary,
                        *develop,
                    ),
            decreases img_height - k,
        {
            let j = img_height - 1 - k;
            let mut row = self.render_row(
                j,
                img_width,
                img_height,
                samples,
                ray_depth,
                scene,
                slabs,
                crossings,
                diffuse,
                mirror,
                glass,
                sky,
                tint,
                primary,
                develop,
            );
            let ghost before = buffer@;
            let ghost added = row@;
            buffer.append(&mut row);
            proof {
                assert((k + 1) * img_width == k * img_width + img_width) by (nonlinear_arith);
                assert forall|y: int, x: int|
                    0 <= y < k + 1 && 0 <= x < img_width implies #[trigger] image_holds(
                    buffer@,
                    y,
                    x,
                    *self,
                    img_width,
                    img_height,
                    samples,
                    ray_depth,
                    *scene,
                    *slabs,
                    *crossings,
                    *diffuse,
                    *mirror,
                    *glass,
                    *sky,
                    *tint,
                    *primary,
                    *develop,
                ) by {
                    if y < k {
                        assert(image_holds(
                            before,
                            y,
                            x,
                            *self,
                            img_width,
                            img_height,
                            samples,
                            ray_depth,
                            *scene,
                            *slabs,
                            *crossings,
                            *diffuse,
                            *mirror,
                            *glass,
                            *sky,
                            *tint,
                            *primary,
                            *develop,
                        ));
                        let c = choose|c: Vec3| #[trigger]
                            shows(before, 3 * (y * img_width + x), c) && developed(
                                *self,
                                x as u32,
                                (img_height - 1 - y) as u32,
                                img_width,
                                img_height,
                                samples,
                                ray_depth,
                                *scene,
                                *slabs,
                                *crossings,
                                *diffuse,
                                *mirror,
                                *glass,
                                *sky,
                                *tint,
                                *primary,
                                *develop,
                                c,
                            );
                        assert(shows(buffer@, 3 * (y * img_width + x), c));
                    } else {
                        assert(row_holds(
                            added,
                            x,
                            *self,
                            j,
                            img_width,
                            img_height,
                            samples,
                            ray_depth,
                            *scene,
                            *slabs,
                            *crossings,
                            *diffuse,
                            *mirror,
                            *glass,
                            *sky,
                            *tint,
                            *primary,
                            *develop,
                        ));
                        let c = choose|c: Vec3| #[trigger]
                            shows(added, 3 * x, c) && developed(
                                *self,
                                x as u32,
                                j,
                                img_width,
                                img_height,
                                samples,
                                ray_depth,
                                *scene,
                                *slabs,
                                *crossings,
                                *diffuse,
                                *mirror,
                                *glass,
                                *sky,
                                *tint,
                                *primary,
                                *develop,
                                c,
                            );
                        let at = 3 * (k * img_width + x);
                        assert(buffer@[at] == added[3 * x]);
                        assert(buffer@[at + 1] == added[3 * x + 1]);
                        assert(buffer@[at + 2] == added[3 * x + 2]);
                        assert(shows(buffer@, at, c));
                    }
                }
            }
            k += 1;
        }
        proof {
            assert(3 * (img_height * img_width) == 3 * img_width * img_height) by (nonlinear_arith);
        }
        buffer
    }
}

} // verus!

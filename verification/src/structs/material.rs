//! Surface materials: what they absorb and how they send a ray on.
use crate::structs::hitable::HitRecord;
use crate::structs::ray::Ray;
use crate::structs::scalar::Scalar;
use crate::structs::vec3::Vec3;
use vstd::prelude::*;

verus! {

/// Why a material was refused.
#[derive(Clone, Copy, Debug, PartialEq, Eq, Structural)]
pub enum MaterialError {
    /// The fuzz of a metal is not within 0 and 1.
    FuzzOutOfRange,
    /// The refraction index of a dielectric is not above 0.
    RefractionNotPositive,
}

/// Whether a fuzz is acceptable: within 0 and 1, ends included.
pub open spec fn fuzz_in_range(fuzz: Scalar) -> bool {
    (Scalar { bits: 0 }).at_most(fuzz) && fuzz.at_most(Scalar { bits: 0x3ff0_0000_0000_0000 })
}

/// Whether a refraction index is acceptable: above 0.
pub open spec fn refraction_positive(refraction: Scalar) -> bool {
    (Scalar { bits: 0 }).below(refraction)
}

/// A surface that scatters light evenly into the half-space it faces.
#[derive(Clone, Copy, Debug)]
pub struct Lambertian {
    pub albedo: Vec3,
}

/// A mirror, more or less blurred.
#[derive(Clone, Copy, Debug)]
pub struct Metal {
    albedo: Vec3,
    fuzz: Scalar,
}

/// Clear matter that bends light, such as glass.
#[derive(Clone, Copy, Debug)]
pub struct Dielectric {
    refraction: Scalar,
}

/// What the arithmetic of a diffuse bounce yields. A point is drawn
/// uniformly in the unit ball; `facing` is its inner product with the
/// outward normal of the hit, `toward` the normal plus the point and `away`
/// the normal less the point.
#[derive(Clone, Copy, Debug)]
pub struct DiffuseSample {
    pub facing: Scalar,
    pub toward: Vec3,
    pub away: Vec3,
}

/// What the arithmetic of a reflection yields. The unit direction `v` of
/// the ray is mirrored at the outward normal `n` of the hit, `v - 2 (v . n)
/// n`, and a point drawn uniformly in the unit ball, times the fuzz, is
/// added: that is `direction`, and `facing` is its inner product with the
/// normal.
#[derive(Clone, Copy, Debug)]
pub struct MirrorSample {
    pub direction: Vec3,
    pub facing: Scalar,
}

/// What the arithmetic of a refraction yields. The refraction ratio is
/// what [`Dielectric::refraction_ratio`] picks. With the cosine of the angle of
/// incidence, which is the inner product of the reversed unit direction and
/// the outward normal, or 1 if that is less, `bend` is the ratio times the
/// sine of that angle; `reflectance` is Schlick's `r0 + (1 - r0) (1 -
/// cosine)^5` with `r0` the square of `(1 - ratio) / (1 + ratio)`; `draw`
/// is drawn uniformly from 0 up to, and not including, 1; `reflected` is
/// the unit direction mirrored at the normal, and `refracted` the one bent
/// by Snell's law.
#[derive(Clone, Copy, Debug)]
pub struct GlassSample {
    pub bend: Scalar,
    pub reflectance: Scalar,
    pub draw: Scalar,
    pub reflected: Vec3,
    pub refracted: Vec3,
}

impl Lambertian {
    /// The direction a diffuse bounce takes: the drawn point is turned into
    /// the half-space of the normal before it is added to the normal.
    pub open spec fn chosen(sample: DiffuseSample) -> Vec3 {
        if (Scalar { bits: 0 }).below(sample.facing) {
            sample.toward
        } else {
            sample.away
        }
    }

    /// A diffuse bounce never fails.
    pub fn scatter(&self, hit_record: &HitRecord, sample: &DiffuseSample) -> (out: Option<Ray>)
        ensures
            out == Some(Ray { orig: hit_record.hit_point, direction: Self::chosen(*sample) }),
    {
        let direction = if sample.facing.gt(&Scalar::zero()) {
            sample.toward
        } else {
            sample.away
        };
        Some(Ray::new(hit_record.hit_point, direction))
    }

    pub fn attenuation(&self) -> (colour: Vec3)
        ensures
            colour == self.albedo,
    {
        self.albedo
    }
}

impl Metal {
    #[verifier::type_invariant]
    spec fn valid(self) -> bool {
        fuzz_in_range(self.fuzz)
    }

    /// The colour of the metal.
    pub closed spec fn colour(self) -> Vec3 {
        self.albedo
    }

    /// The blur of the metal.
    pub closed spec fn blur(self) -> Scalar {
        self.fuzz
    }

    pub fn albedo(&self) -> (colour: Vec3)
        ensures
            colour == self.colour(),
    {
        self.albedo
    }

    /// The fuzz, which is within 0 and 1.
    pub fn fuzz(&self) -> (fuzz: Scalar)
        ensures
            fuzz == self.blur(),
            fuzz_in_range(fuzz),
    {
        proof {
            use_type_invariant(self);
        }
        self.fuzz
    }

    /// What becomes of a reflection from `point`: one that heads into the
    /// surface is absorbed, any other is sent on.
    pub open spec fn reflected(point: Vec3, sample: MirrorSample) -> Option<Ray> {
        if (Scalar { bits: 0 }).below(sample.facing) {
            Some(Ray { orig: point, direction: sample.direction })
        } else {
            None
        }
    }

    /// A reflection that heads into the surface is absorbed; any other is
    /// sent on from the point that was hit.
    pub fn scatter(&self, hit_record: &HitRecord, sample: &MirrorSample) -> (out: Option<Ray>)
        ensures
            out == Self::reflected(hit_record.hit_point, *sample),
    {
        if sample.facing.gt(&Scalar::zero()) {
            Some(Ray::new(hit_record.hit_point, sample.direction))
        } else {
            None
        }
    }

    pub fn attenuation(&self) -> (colour: Vec3)
        ensures
            colour == self.colour(),
    {
        self.albedo
    }
}

impl Dielectric {
    #[verifier::type_invariant]
    spec fn valid(self) -> bool {
        refraction_positive(self.refraction)
    }

    /// The refraction index.
    pub closed spec fn index(self) -> Scalar {
        self.refraction
    }

    /// The refraction index, which is above 0.
    pub fn refraction(&self) -> (refraction: Scalar)
        ensures
            refraction == self.index(),
            refraction_positive(refraction),
    {
        proof {
            use_type_invariant(self);
        }
        self.refraction
    }

    /// The refraction ratio at a hit: `reciprocal`, which is 1 divided by
    /// the index, where the ray meets the front of the surface, and the
    /// index itself where it leaves through the back.
    pub fn refraction_ratio(&self, front_face: bool, reciprocal: Scalar) -> (ratio: Scalar)
        ensures
            front_face ==> ratio == reciprocal,
            !front_face ==> ratio == self.index(),
    {
        if front_face {
            reciprocal
        } else {
            self.refraction
        }
    }

    /// Whether the ray is reflected: either it cannot be refracted (total
    /// internal reflection), or the draw fell below the reflectance.
    pub open spec fn reflects(sample: GlassSample) -> bool {
        (Scalar { bits: 0x3ff0_0000_0000_0000 }).below(sample.bend) || sample.draw.below(
            sample.reflectance,
        )
    }

    /// The direction the ray takes.
    pub open spec fn chosen(sample: GlassSample) -> Vec3 {
        if Self::reflects(sample) {
            sample.reflected
        } else {
            sample.refracted
        }
    }

    /// Glass absorbs nothing: the ray is reflected or refracted.
    pub fn scatter(&self, hit_record: &HitRecord, sample: &GlassSample) -> (out: Option<Ray>)
        ensures
            out == Some(Ray { orig: hit_record.hit_point, direction: Self::chosen(*sample) }),
    {
        let cannot_refract = sample.bend.gt(&Scalar::one());
        let direction = if cannot_refract || sample.reflectance.gt(&sample.draw) {
            sample.reflected
        } else {
            sample.refracted
        };
        Some(Ray::new(hit_record.hit_point, direction))
    }
}

/// The material of a surface.
#[derive(Clone, Copy, Debug)]
pub enum Material {
    Lambertian(Lambertian),
    Metal(Metal),
    Dielectric(Dielectric),
}

impl Material {
    /// The colour by which the material dims what it passes on.
    pub open spec fn tint(self) -> Vec3 {
        match self {
            Material::Lambertian(lamb) => lamb.albedo,
            Material::Metal(met) => met.colour(),
            Material::Dielectric(_) => Vec3 {
                x_: Scalar { bits: 0x3ff0_0000_0000_0000 },
                y_: Scalar { bits: 0x3ff0_0000_0000_0000 },
                z_: Scalar { bits: 0x3ff0_0000_0000_0000 },
            },
        }
    }

    pub fn new_lambertian(albedo: Vec3) -> (m: Material)
        ensures
            m == Material::Lambertian(Lambertian { albedo }),
    {
        Material::Lambertian(Lambertian { albedo })
    }

    /// A metal, unless the fuzz is outside 0 to 1 or a NaN.
    pub fn new_metal(albedo: Vec3, fuzz: Scalar) -> (r: Result<Material, MaterialError>)
        ensures
            fuzz_in_range(fuzz) ==> (r matches Ok(Material::Metal(met)) && met.colour() == albedo
                && met.blur() == fuzz),
            !fuzz_in_range(fuzz) ==> r == Err::<Material, MaterialError>(
                MaterialError::FuzzOutOfRange,
            ),
    {
        if Scalar::zero().le(&fuzz) && fuzz.le(&Scalar::one()) {
            Ok(Material::Metal(Metal { albedo, fuzz }))
        } else {
            Err(MaterialError::FuzzOutOfRange)
        }
    }

    /// A dielectric, unless the refraction index is 0, negative or a NaN.
    pub fn new_dielectric(refraction: Scalar) -> (r: Result<Material, MaterialError>)
        ensures
            refraction_positive(refraction) ==> (r matches Ok(Material::Dielectric(diel))
                && diel.index() == refraction),
            !refraction_positive(refraction) ==> r == Err::<Material, MaterialError>(
                MaterialError::RefractionNotPositive,
            ),
    {
        if refraction.gt(&Scalar::zero()) {
            Ok(Material::Dielectric(Dielectric { refraction }))
        } else {
            Err(MaterialError::RefractionNotPositive)
        }
    }

    /// Sends a ray on from a hit, or absorbs it. The three function
    /// parameters do the arithmetic of the three kinds of surface, each for
    /// a surface of its kind; which one is asked, and what becomes of its
    /// answer, is decided here.
    pub fn scatter<D, M, G>(
        &self,
        r: &Ray,
        hit_record: &HitRecord,
        diffuse: &D,
        mirror: &M,
        glass: &G,
    ) -> (out: Option<Ray>) where
        D: Fn(Lambertian, Ray, HitRecord) -> DiffuseSample,
        M: Fn(Metal, Ray, HitRecord) -> MirrorSample,
        G: Fn(Dielectric, Ray, HitRecord) -> GlassSample,

        requires
            forall|lamb: Lambertian| call_requires(*diffuse, (lamb, *r, *hit_record)),
            forall|met: Metal| call_requires(*mirror, (met, *r, *hit_record)),
            forall|diel: Dielectric| call_requires(*glass, (diel, *r, *hit_record)),
        ensures
            scattered(*self, *r, *hit_record, *diffuse, *mirror, *glass, out),
    {
        match self {
            Material::Lambertian(lamb) => {
                let sample = diffuse(*lamb, *r, *hit_record);
                lamb.scatter(hit_record, &sample)
            },
            Material::Metal(met) => {
                let sample = mirror(*met, *r, *hit_record);
                met.scatter(hit_record, &sample)
            },
            Material::Dielectric(diel) => {
                let sample = glass(*diel, *r, *hit_record);
                diel.scatter(hit_record, &sample)
            },
        }
    }

    pub fn attenuation(&self) -> (colour: Vec3)
        ensures
            colour == self.tint(),
    {
        match self {
            Material::Lambertian(lamb) => lamb.attenuation(),
            Material::Metal(met) => met.attenuation(),
            Material::Dielectric(_) => Vec3::new(Scalar::one(), Scalar::one(), Scalar::one()),
        }
    }
}

/// Glass lets the ray through whenever total internal reflection is out of
/// the question and the draw is not below the reflectance.
pub proof fn lemma_glass_transmits(sample: GlassSample)
    requires
        !(Scalar { bits: 0x3ff0_0000_0000_0000 }).below(sample.bend),
        !sample.draw.below(sample.reflectance),
    ensures
        Dielectric::chosen(sample) == sample.refracted,
{
}

/// Whether `out` is what a material makes of a hit, given what the
/// arithmetic of its kind may answer for that ray and hit.
pub open spec fn scattered<D, M, G>(
    material: Material,
    r: Ray,
    hit_record: HitRecord,
    diffuse: D,
    mirror: M,
    glass: G,
    out: Option<Ray>,
) -> bool where
    D: Fn(Lambertian, Ray, HitRecord) -> DiffuseSample,
    M: Fn(Metal, Ray, HitRecord) -> MirrorSample,
    G: Fn(Dielectric, Ray, HitRecord) -> GlassSample,
 {
    match material {
        Material::Lambertian(lamb) => exists|s: DiffuseSample| #[trigger]
            call_ensures(diffuse, (lamb, r, hit_record), s) && out == Some(
                Ray { orig: hit_record.hit_point, direction: Lambertian::chosen(s) },
            ),
        Material::Metal(met) => exists|s: MirrorSample| #[trigger]
            call_ensures(mirror, (met, r, hit_record), s) && out == Metal::reflected(
                hit_record.hit_point,
                s,
            ),
        Material::Dielectric(diel) => exists|s: GlassSample| #[trigger]
            call_ensures(glass, (diel, r, hit_record), s) && out == Some(
                Ray { orig: hit_record.hit_point, direction: Dielectric::chosen(s) },
            ),
    }
}

} // verus!

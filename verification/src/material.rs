//! The three material models and their scattering behaviour.
//!
//! Each scatter decision is split into an exact deterministic part, specified
//! by a spec function over the random draws it consumes, and an executable
//! part that makes the draws.  The executable contracts quantify over the
//! draws, so everything past the draw is verified for every value it can
//! take.

use vstd::prelude::*;

verus! {

use crate::fixed::Fx;
use crate::fixed::FX_SCALE;
use crate::fixed::fx_add;
use crate::fixed::fx_sub;
use crate::fixed::fx_neg;
use crate::fixed::fx_mul;
use crate::fixed::fx_div;
use crate::fixed::fx_sqrt;
use crate::constants::white;
use crate::hittable::HitRecord;
use crate::ray::Ray;
use crate::vec3::Colour;
use crate::vec3::Vec3;
use crate::vec3::v3_add;
use crate::vec3::v3_dot;
use crate::vec3::v3_len_sq;
use crate::vec3::v3_len;
use crate::vec3::v3_near_zero;
use crate::vec3::v3_neg;
use crate::vec3::v3_reflect;
use crate::vec3::v3_refract;
use crate::vec3::v3_scale;
use crate::vec3::v3_unit;
use crate::vec3::v3_wf;
use crate::vec3::lemma_len_positive;

/// A diffuse material: always scatters, tinted by its albedo.
#[derive(Clone, Copy, Debug, PartialEq, Eq, Structural)]
pub struct Lambertian {
    pub albedo: Colour,
}

/// A specular material: reflects, roughened by `fuzz`; grazing fuzzed
/// reflections that point into the surface are absorbed.
#[derive(Clone, Copy, Debug, PartialEq, Eq, Structural)]
pub struct Metal {
    pub albedo: Colour,
    pub fuzz: Fx,
}

/// A transparent refractive material; never absorbs, never tints.
#[derive(Clone, Copy, Debug, PartialEq, Eq, Structural)]
pub struct Dielectric {
    pub refraction_idx: Fx,
}

/// A material: one closed set of scattering behaviours.
#[derive(Clone, Copy, Debug, PartialEq, Eq, Structural)]
pub enum Material {
    Lambertian(Lambertian),
    Metal(Metal),
    Dielectric(Dielectric),
}

/// A dielectric with a nonpositive index is a configuration error; scattering
/// treats such a material as absorbing.
pub open spec fn material_wf(m: Material) -> bool {
    m matches Material::Dielectric(d) ==> d.refraction_idx@ > 0
}

/// The material's albedo channels lie in the unit interval (a dielectric
/// carries none: it attenuates with white).
pub open spec fn material_albedo_wf(m: Material) -> bool {
    match m {
        Material::Lambertian(l) => 0 <= l.albedo.x@ <= FX_SCALE as int && 0 <= l.albedo.y@
            <= FX_SCALE as int && 0 <= l.albedo.z@ <= FX_SCALE as int,
        Material::Metal(mm) => 0 <= mm.albedo.x@ <= FX_SCALE as int && 0 <= mm.albedo.y@
            <= FX_SCALE as int && 0 <= mm.albedo.z@ <= FX_SCALE as int,
        Material::Dielectric(_) => true,
    }
}

/// The diffuse scatter direction for a given unit-vector draw `u`: the offset
/// surface normal, or the normal itself when the two cancel.
pub open spec fn lambertian_dir(n: Vec3, u: Vec3) -> Vec3 {
    let d = v3_add(n, u);
    if v3_near_zero(d) {
        n
    } else {
        d
    }
}

/// The fuzzed mirror direction for a given unit-ball draw `p`.
pub open spec fn metal_dir(ray: Ray, n: Vec3, fuzz: int, p: Vec3) -> Vec3 {
    v3_add(v3_reflect(v3_unit(ray.dir), n), v3_scale(p, fuzz))
}

/// The metal scatter outcome for a given unit-ball draw `p`.
pub open spec fn metal_scatter(ray: Ray, rec: HitRecord, fuzz: int, p: Vec3) -> Option<Ray> {
    let dir = metal_dir(ray, rec.n, fuzz, p);
    if v3_dot(dir, rec.n) < 0 {
        None
    } else {
        Some(Ray { dir, orig: rec.p })
    }
}

/// The Schlick reflectance approximation, over the incidence cosine and the
/// refraction ratio.
pub open spec fn reflectance_spec(cos: int, ratio: int) -> int
    recommends
        fx_add(FX_SCALE as int, ratio) != 0,
{
    let r0 = fx_div(fx_sub(FX_SCALE as int, ratio), fx_add(FX_SCALE as int, ratio));
    let r0sq = fx_mul(r0, r0);
    let omc = fx_sub(FX_SCALE as int, cos);
    let p2 = fx_mul(omc, omc);
    let p5 = fx_mul(fx_mul(p2, p2), omc);
    fx_add(r0sq, fx_mul(fx_sub(FX_SCALE as int, r0sq), p5))
}

/// The incidence cosine the dielectric uses: `min((-v) . n, 1)`.
pub open spec fn dielectric_cos(unit_dir: Vec3, n: Vec3) -> int {
    let d = v3_dot(v3_neg(unit_dir), n);
    if d > FX_SCALE as int {
        FX_SCALE as int
    } else {
        d
    }
}

/// The dielectric scatter outcome for a given reflectance draw `coin`:
/// reflect on total internal reflection or a winning Schlick draw, refract
/// otherwise; never absorb.
pub open spec fn dielectric_scatter(ir: int, ray: Ray, rec: HitRecord, coin: int) -> Ray
    recommends
        ir > 0,
        v3_len(ray.dir) != 0,
{
    let ratio = if rec.front_face {
        fx_div(FX_SCALE as int, ir)
    } else {
        ir
    };
    let unit_dir = v3_unit(ray.dir);
    let cos_theta = dielectric_cos(unit_dir, rec.n);
    let sin2 = fx_sub(FX_SCALE as int, fx_mul(cos_theta, cos_theta));
    let sin_theta = fx_sqrt(
        if sin2 >= 0 {
            sin2
        } else {
            0
        },
    );
    let reflect_now = fx_mul(ratio, sin_theta) > FX_SCALE as int || reflectance_spec(
        cos_theta,
        ratio,
    ) > coin;
    let dir = if reflect_now {
        v3_reflect(unit_dir, rec.n)
    } else {
        v3_refract(unit_dir, rec.n, ratio)
    };
    Ray { dir, orig: rec.p }
}

impl Lambertian {
    pub fn new(a: &Colour) -> (m: Lambertian)
        ensures
            m.albedo == *a,
    {
        Lambertian { albedo: *a }
    }

    /// Diffuse scattering: the albedo attenuates, and the ray leaves along
    /// the offset normal of some fresh unit-vector draw.
    pub fn scatter(&self, _ray: &Ray, rec: &HitRecord, attenuation: &mut Colour) -> (r: Option<
        Ray,
    >)
        ensures
            *final(attenuation) == self.albedo,
            r matches Some(sr) && sr.orig == rec.p,
            r matches Some(sr) ==> exists|q: Vec3|
                #![auto]
                0 < v3_len_sq(q) < FX_SCALE as int && sr.dir == lambertian_dir(
                    rec.n,
                    v3_unit(q),
                ),
    {
        let u = Vec3::random_unit_vec();
        let mut scatter_dir = rec.n.add(u);
        if scatter_dir.near_zero() {
            scatter_dir = rec.n;
        }
        *attenuation = self.albedo;
        let out = Ray::new(&rec.p, &scatter_dir);
        proof {
            let q = choose|q: Vec3| 0 < v3_len_sq(q) < FX_SCALE as int && u == v3_unit(q);
            assert(0 < v3_len_sq(q) < FX_SCALE as int && out.dir == lambertian_dir(
                rec.n,
                v3_unit(q),
            ));
        }
        Some(out)
    }
}

impl Metal {
    /// `fuzz` is clamped to at most one; negative values are the caller's
    /// responsibility.
    pub fn new(a: &Colour, f: Fx) -> (m: Metal)
        ensures
            m.albedo == *a,
            m.fuzz@ == if f@ < FX_SCALE as int {
                f@
            } else {
                FX_SCALE as int
            },
    {
        Metal {
            albedo: *a,
            fuzz: if f.raw < FX_SCALE {
                f
            } else {
                Fx { raw: FX_SCALE }
            },
        }
    }

    /// Specular scattering: the fuzzed mirror direction of some fresh
    /// unit-ball draw, absorbed when it points into the surface.  With zero
    /// fuzz the outcome is the exact mirror law.
    pub fn scatter(&self, ray: &Ray, rec: &HitRecord, attenuation: &mut Colour) -> (r: Option<
        Ray,
    >)
        requires
            v3_len_sq(ray.dir) > 0,
        ensures
            *final(attenuation) == self.albedo,
            exists|p: Vec3|
                #![auto]
                0 < v3_len_sq(p) < FX_SCALE as int && v3_wf(p) && r == metal_scatter(
                    *ray,
                    *rec,
                    self.fuzz@,
                    p,
                ),
    {
        proof {
            lemma_len_positive(ray.dir);
        }
        let reflected = ray.dir().unit_vector().reflect(&rec.n);
        let p = Vec3::random_in_unit_sphere();
        let dir = reflected.add(p.mul_fx(self.fuzz));
        let scattered = Ray::new(&rec.p, &dir);
        *attenuation = self.albedo;
        if scattered.dir().dot(&rec.n).raw < 0 {
            return None;
        }
        Some(scattered)
    }
}

impl Dielectric {
    pub fn new(ir: Fx) -> (m: Dielectric)
        ensures
            m.refraction_idx == ir,
    {
        Dielectric { refraction_idx: ir }
    }

    /// The Schlick reflectance approximation.
    fn reflectance(cos: Fx, ratio: Fx) -> (r: Fx)
        requires
            fx_add(FX_SCALE as int, ratio@) != 0,
        ensures
            r@ == reflectance_spec(cos@, ratio@),
    {
        let one = Fx { raw: FX_SCALE };
        let r0 = one.sub(ratio).div(one.add(ratio));
        let r0sq = r0.mul(r0);
        let omc = one.sub(cos);
        let p2 = omc.mul(omc);
        let p5 = p2.mul(p2).mul(omc);
        r0sq.add(one.sub(r0sq).mul(p5))
    }

    /// Refractive scattering: full transmission, reflecting on total internal
    /// reflection or a winning Schlick draw, refracting otherwise.
    pub fn scatter(&self, ray: &Ray, rec: &HitRecord, attenuation: &mut Colour) -> (r: Option<
        Ray,
    >)
        requires
            v3_len_sq(ray.dir) > 0,
            self.refraction_idx@ > 0,
        ensures
            *final(attenuation) == white(),
            r matches Some(sr) && exists|coin: int|
                #![auto]
                0 <= coin < FX_SCALE as int && sr == dielectric_scatter(
                    self.refraction_idx@,
                    *ray,
                    *rec,
                    coin,
                ),
    {
        proof {
            lemma_len_positive(ray.dir);
        }
        *attenuation = white();
        let one = Fx { raw: FX_SCALE };
        let ratio = if rec.front_face {
            one.div(self.refraction_idx)
        } else {
            self.refraction_idx
        };
        proof {
            crate::fixed::lemma_tdiv_bound(FX_SCALE as int * FX_SCALE as int, self.refraction_idx@);
        }
        let unit_dir = ray.dir().unit_vector();
        let cos0 = unit_dir.neg().dot(&rec.n);
        let cos_theta = if cos0.raw > FX_SCALE {
            one
        } else {
            cos0
        };
        let sin2 = one.sub(cos_theta.mul(cos_theta));
        let kk = if sin2.raw >= 0 {
            sin2
        } else {
            Fx { raw: 0 }
        };
        let sin_theta = kk.sqrt();
        let coin = crate::random::random_unit_fx();
        let refl = Dielectric::reflectance(cos_theta, ratio);
        let must_reflect = ratio.mul(sin_theta).raw > FX_SCALE || refl.raw > coin.raw;
        let direction = if must_reflect {
            unit_dir.reflect(&rec.n)
        } else {
            unit_dir.refract(&rec.n, ratio)
        };
        let out = Ray::new(&rec.p, &direction);
        proof {
            assert(0 <= coin@ < FX_SCALE as int && out == dielectric_scatter(
                self.refraction_idx@,
                *ray,
                *rec,
                coin@,
            ));
        }
        Some(out)
    }
}

impl Material {
    /// Whether the material configuration is usable.
    pub fn is_wf(&self) -> (b: bool)
        ensures
            b == material_wf(*self),
    {
        match self {
            Material::Dielectric(d) => d.refraction_idx.raw > 0,
            _ => true,
        }
    }

    /// Scatter an incoming ray: the one capability all materials share.
    pub fn scatter(&self, ray: &Ray, rec: &HitRecord, attenuation: &mut Colour) -> (r: Option<
        Ray,
    >)
        requires
            v3_len_sq(ray.dir) > 0,
            material_wf(*self),
        ensures
            *self matches Material::Lambertian(l) ==> *final(attenuation) == l.albedo && (
            r matches Some(sr) && sr.orig == rec.p && exists|q: Vec3|
                #![auto]
                0 < v3_len_sq(q) < FX_SCALE as int && sr.dir == lambertian_dir(
                    rec.n,
                    v3_unit(q),
                )),
            *self matches Material::Metal(m) ==> *final(attenuation) == m.albedo
                && exists|p: Vec3|
                #![auto]
                0 < v3_len_sq(p) < FX_SCALE as int && v3_wf(p) && r == metal_scatter(
                    *ray,
                    *rec,
                    m.fuzz@,
                    p,
                ),
            *self matches Material::Dielectric(d) ==> *final(attenuation) == white() && (
            r matches Some(sr) && exists|coin: int|
                #![auto]
                0 <= coin < FX_SCALE as int && sr == dielectric_scatter(
                    d.refraction_idx@,
                    *ray,
                    *rec,
                    coin,
                )),
    {
        match self {
            Material::Lambertian(l) => l.scatter(ray, rec, attenuation),
            Material::Metal(m) => m.scatter(ray, rec, attenuation),
            Material::Dielectric(d) => d.scatter(ray, rec, attenuation),
        }
    }
}

} // verus!

//! The one primitive: a sphere, intersected in closed form.

use vstd::prelude::*;

verus! {

use crate::fixed::Fx;
use crate::fixed::fx_add;
use crate::fixed::fx_sub;
use crate::fixed::fx_neg;
use crate::fixed::fx_mul;
use crate::fixed::fx_div;
use crate::fixed::fx_sqrt;
use crate::hittable::HitRecord;
use crate::hittable::oriented_normal;
use crate::material::Material;
use crate::ray::Ray;
use crate::ray::ray_at;
use crate::vec3::Point;
use crate::vec3::fxr;
use crate::vec3::v3_dot;
use crate::vec3::v3_div_fx;
use crate::vec3::v3_len_sq;
use crate::vec3::v3_sub;

/// A sphere with its material.  A nonpositive radius is a configuration
/// error; intersection treats such a sphere as never hit.
#[derive(Clone, Copy, Debug, PartialEq, Eq, Structural)]
pub struct Sphere {
    pub centre: Point,
    pub r: Fx,
    pub mat: Material,
}

/// The accepted intersection parameter, if any: the nearer root of the
/// quadratic when it lies in `[t_min, t_max]`, else the farther root when it
/// does, else nothing.
pub open spec fn sphere_hit_t(s: Sphere, ray: Ray, t_min: int, t_max: int) -> Option<int> {
    let oc = v3_sub(ray.orig, s.centre);
    let a = v3_len_sq(ray.dir);
    let half_b = v3_dot(oc, ray.dir);
    let c = fx_sub(v3_len_sq(oc), fx_mul(s.r@, s.r@));
    let delta_sq = fx_sub(fx_mul(half_b, half_b), fx_mul(a, c));
    if s.r@ == 0 || a == 0 || delta_sq < 0 {
        None
    } else {
        let delta = fx_sqrt(delta_sq);
        let root1 = fx_div(fx_sub(fx_neg(half_b), delta), a);
        if t_min <= root1 && root1 <= t_max {
            Some(root1)
        } else {
            let root2 = fx_div(fx_add(fx_neg(half_b), delta), a);
            if t_min <= root2 && root2 <= t_max {
                Some(root2)
            } else {
                None
            }
        }
    }
}

/// The record an accepted intersection at parameter `root` produces.
pub open spec fn sphere_record(s: Sphere, ray: Ray, root: int) -> HitRecord
    recommends
        s.r@ != 0,
{
    let p = ray_at(ray, root);
    let outward = v3_div_fx(v3_sub(p, s.centre), s.r@);
    HitRecord {
        t: fxr(root),
        p,
        mat: s.mat,
        n: oriented_normal(ray, outward),
        front_face: v3_dot(ray.dir, outward) <= 0,
    }
}

/// The full intersection outcome of one sphere.
pub open spec fn sphere_hit(s: Sphere, ray: Ray, t_min: int, t_max: int) -> Option<HitRecord> {
    match sphere_hit_t(s, ray, t_min, t_max) {
        Some(root) => Some(sphere_record(s, ray, root)),
        None => None,
    }
}

/// Shrinking the upper bound of the search interval keeps the same accepted
/// parameter while it still fits, and rejects the sphere otherwise.
pub proof fn lemma_sphere_hit_narrow(s: Sphere, ray: Ray, t_min: int, t_max1: int, t_max2: int)
    requires
        t_max2 <= t_max1,
    ensures
        sphere_hit_t(s, ray, t_min, t_max2) == (match sphere_hit_t(s, ray, t_min, t_max1) {
            Some(t) => if t <= t_max2 {
                Some(t)
            } else {
                None::<int>
            },
            None => None::<int>,
        }),
{
    let oc = v3_sub(ray.orig, s.centre);
    let a = v3_len_sq(ray.dir);
    let half_b = v3_dot(oc, ray.dir);
    let c = fx_sub(v3_len_sq(oc), fx_mul(s.r@, s.r@));
    let delta_sq = fx_sub(fx_mul(half_b, half_b), fx_mul(a, c));
    if !(s.r@ == 0 || a == 0 || delta_sq < 0) {
        crate::vec3::lemma_len_sq_nonneg(ray.dir);
        let delta = fx_sqrt(delta_sq);
        crate::fixed::lemma_fx_sqrt_nonneg(delta_sq);
        let num1 = fx_sub(fx_neg(half_b), delta);
        let num2 = fx_add(fx_neg(half_b), delta);
        crate::fixed::lemma_sat_mono(fx_neg(half_b) - delta, fx_neg(half_b) + delta);
        crate::fixed::lemma_fx_div_mono(num1, num2, a);
    }
}

impl Sphere {
    pub fn new(centre: Point, r: Fx, mat: Material) -> (s: Sphere)
        requires
            r@ > 0,
        ensures
            s.centre == centre,
            s.r == r,
            s.mat == mat,
    {
        Sphere { centre, r, mat }
    }

    /// Closed-form ray intersection: solve the quadratic, prefer the nearer
    /// root inside `[t_min, t_max]`, fall back to the farther one.
    pub fn hit(&self, ray: &Ray, t_min: Fx, t_max: Fx) -> (res: Option<HitRecord>)
        ensures
            res == sphere_hit(*self, *ray, t_min@, t_max@),
    {
        if self.r.raw == 0 {
            return None;
        }
        let oc = ray.origin().sub(self.centre);
        let a = ray.dir().len_squared();
        if a.raw == 0 {
            return None;
        }
        let half_b = oc.dot(&ray.dir());
        let c = oc.len_squared().sub(self.r.mul(self.r));
        let delta_sq = half_b.mul(half_b).sub(a.mul(c));
        if delta_sq.raw < 0 {
            return None;
        }
        let delta = delta_sq.sqrt();
        let mut root = half_b.neg().sub(delta).div(a);
        if root.raw < t_min.raw || root.raw > t_max.raw {
            root = half_b.neg().add(delta).div(a);
            if root.raw < t_min.raw || root.raw > t_max.raw {
                return None;
            }
        }
        let mut record = HitRecord::new(&self.mat);
        record.t = root;
        record.p = ray.at(root);
        let outward_n = record.p.sub(self.centre).div_fx(self.r);
        record.set_face_normal(ray, outward_n);
        Some(record)
    }
}

} // verus!

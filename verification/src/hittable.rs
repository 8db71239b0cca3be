//! Hit records and the scene: an ordered list of spheres resolved to the
//! nearest intersection.

use vstd::prelude::*;

verus! {

use crate::fixed::Fx;
use crate::material::Material;
use crate::ray::Ray;
use crate::sphere::Sphere;
use crate::sphere::sphere_hit;
use crate::sphere::sphere_hit_t;
use crate::vec3::Point;
use crate::vec3::Vec3;
use crate::vec3::v3_dot;
use crate::vec3::v3_neg;
use crate::vec3::v3_wf;
use crate::vec3::v3_zero;
use crate::vec3::lemma_dot_neg_right;

/// The result of a successful intersection: where, how far along the ray,
/// the oriented surface normal, and the material hit.
#[derive(Clone, Copy, Debug, PartialEq, Eq, Structural)]
pub struct HitRecord {
    pub t: Fx,
    pub p: Point,
    pub mat: Material,
    pub n: Vec3,
    pub front_face: bool,
}

/// The normal oriented against the incoming ray: the geometric outward
/// normal itself when it already opposes the ray (grazing incidence
/// included), else its negation.
pub open spec fn oriented_normal(ray: Ray, outward_n: Vec3) -> Vec3 {
    if v3_dot(ray.dir, outward_n) <= 0 {
        outward_n
    } else {
        v3_neg(outward_n)
    }
}

/// The oriented normal never points with the ray.
pub proof fn lemma_oriented_normal_opposes(ray: Ray, outward_n: Vec3)
    requires
        v3_wf(outward_n),
    ensures
        v3_dot(ray.dir, oriented_normal(ray, outward_n)) <= 0,
{
    if v3_dot(ray.dir, outward_n) > 0 {
        lemma_dot_neg_right(ray.dir, outward_n);
    }
}

/// The oriented normal keeps the geometric outward normal precisely when
/// that normal already opposed the ray, grazing incidence included.
pub proof fn lemma_front_face_iff(ray: Ray, outward_n: Vec3)
    ensures
        oriented_normal(ray, outward_n) == outward_n <==> v3_dot(ray.dir, outward_n) <= 0,
{
    if v3_dot(ray.dir, outward_n) > 0 && oriented_normal(ray, outward_n) == outward_n {
        assert(v3_neg(outward_n) == outward_n);
        assert(outward_n.x@ == 0 && outward_n.y@ == 0 && outward_n.z@ == 0);
        crate::fixed::lemma_mul_zero(ray.dir.x@);
        crate::fixed::lemma_mul_zero(ray.dir.y@);
        crate::fixed::lemma_mul_zero(ray.dir.z@);
        assert(v3_dot(ray.dir, outward_n) == 0);
    }
}

impl HitRecord {
    /// A blank record carrying the material, to be filled by an intersection
    /// test.
    pub fn new(mat: &Material) -> (r: HitRecord)
        ensures
            r.t@ == 0,
            r.p == v3_zero(),
            r.n == v3_zero(),
            r.mat == *mat,
            r.front_face == true,
    {
        HitRecord {
            t: Fx { raw: 0 },
            p: Vec3 { x: Fx { raw: 0 }, y: Fx { raw: 0 }, z: Fx { raw: 0 } },
            n: Vec3 { x: Fx { raw: 0 }, y: Fx { raw: 0 }, z: Fx { raw: 0 } },
            mat: *mat,
            front_face: true,
        }
    }

    /// Derive the oriented normal and the facing flag together, from the
    /// geometric outward normal.  The flag is set exactly when the outward
    /// normal already opposes the ray, a grazing hit counting as front-facing.
    pub fn set_face_normal(&mut self, ray: &Ray, outward_n: Vec3)
        ensures
            final(self).front_face == (v3_dot(ray.dir, outward_n) <= 0),
            final(self).n == oriented_normal(*ray, outward_n),
            final(self).t == old(self).t,
            final(self).p == old(self).p,
            final(self).mat == old(self).mat,
    {
        self.front_face = ray.dir().dot(&outward_n).raw <= 0;
        self.n = if self.front_face {
            outward_n
        } else {
            outward_n.neg()
        };
    }
}

/// The scene: an ordered collection of spheres; insertion order does not
/// change which hit wins, only how equal distances tie-break.
pub struct HittableList {
    pub objects: Vec<Sphere>,
}

/// The scan state after some prefix: scanning on from `i` with the current
/// upper bound `closest` and incumbent `best` yields this result.
pub open spec fn list_hit_from(
    objs: Seq<Sphere>,
    i: int,
    ray: Ray,
    t_min: int,
    closest: int,
    best: Option<HitRecord>,
) -> Option<HitRecord>
    decreases objs.len() - i,
{
    if i < 0 || i >= objs.len() {
        best
    } else {
        match sphere_hit(objs[i], ray, t_min, closest) {
            Some(rec) => if best is None || rec.t@ < closest {
                list_hit_from(objs, i + 1, ray, t_min, rec.t@, Some(rec))
            } else {
                list_hit_from(objs, i + 1, ray, t_min, closest, best)
            },
            None => list_hit_from(objs, i + 1, ray, t_min, closest, best),
        }
    }
}

/// The nearest accepted hit over the whole list, earliest-inserted winning
/// equal distances.
pub open spec fn list_hit(objs: Seq<Sphere>, ray: Ray, t_min: int, t_max: int) -> Option<
    HitRecord,
> {
    list_hit_from(objs, 0, ray, t_min, t_max, None)
}

/// The closer of two hit outcomes; the first wins an equal distance.
pub open spec fn closer_hit(a: Option<HitRecord>, b: Option<HitRecord>) -> Option<HitRecord> {
    match (a, b) {
        (Option::None, _) => b,
        (_, Option::None) => a,
        (Option::Some(x), Option::Some(y)) => if y.t@ < x.t@ {
            b
        } else {
            a
        },
    }
}

/// The nearest full-interval hit over the suffix from `i`, earliest-listed
/// winning equal distances.
pub open spec fn best_hit_from(
    objs: Seq<Sphere>,
    i: int,
    ray: Ray,
    t_min: int,
    t_max: int,
) -> Option<HitRecord>
    decreases objs.len() - i,
{
    if i < 0 || i >= objs.len() {
        None
    } else {
        closer_hit(
            sphere_hit(objs[i], ray, t_min, t_max),
            best_hit_from(objs, i + 1, ray, t_min, t_max),
        )
    }
}

/// The nearest full-interval hit over the whole list.
pub open spec fn best_hit(objs: Seq<Sphere>, ray: Ray, t_min: int, t_max: int) -> Option<
    HitRecord,
> {
    best_hit_from(objs, 0, ray, t_min, t_max)
}

/// The narrowing scan from any consistent intermediate state finds the
/// better of its incumbent and the nearest hit over the remaining suffix.
proof fn lemma_scan_state(
    objs: Seq<Sphere>,
    i: int,
    ray: Ray,
    t_min: int,
    t_max: int,
    closest: int,
    best: Option<HitRecord>,
)
    requires
        0 <= i <= objs.len(),
        best is None ==> closest == t_max,
        best matches Some(b) ==> closest == b.t@ && closest <= t_max,
    ensures
        list_hit_from(objs, i, ray, t_min, closest, best) == closer_hit(
            best,
            best_hit_from(objs, i, ray, t_min, t_max),
        ),
    decreases objs.len() - i,
{
    if i < objs.len() {
        crate::sphere::lemma_sphere_hit_narrow(objs[i], ray, t_min, t_max, closest);
        match sphere_hit_t(objs[i], ray, t_min, t_max) {
            Option::Some(ft) => {
                assert(crate::fixed::fx_wf(ft));
                let frec = crate::sphere::sphere_record(objs[i], ray, ft);
                assert(frec.t@ == ft);
                if ft <= closest {
                    if best is None || ft < closest {
                        lemma_scan_state(objs, i + 1, ray, t_min, t_max, ft, Some(frec));
                    } else {
                        lemma_scan_state(objs, i + 1, ray, t_min, t_max, closest, best);
                    }
                } else {
                    lemma_scan_state(objs, i + 1, ray, t_min, t_max, closest, best);
                }
            },
            Option::None => {
                lemma_scan_state(objs, i + 1, ray, t_min, t_max, closest, best);
            },
        }
    }
}

/// The narrowing scan finds exactly the nearest hit over the list (the
/// earliest-listed one on equal distances), whatever the insertion order
/// put where.
pub proof fn lemma_list_hit_finds_closest(objs: Seq<Sphere>, ray: Ray, t_min: int, t_max: int)
    ensures
        list_hit(objs, ray, t_min, t_max) == best_hit(objs, ray, t_min, t_max),
{
    lemma_scan_state(objs, 0, ray, t_min, t_max, t_max, None);
}

/// A record the suffix scan returns carries the material of some sphere in
/// that suffix.
proof fn lemma_best_hit_mat(
    objs: Seq<Sphere>,
    i: int,
    ray: Ray,
    t_min: int,
    t_max: int,
    rec: HitRecord,
)
    requires
        0 <= i <= objs.len(),
        best_hit_from(objs, i, ray, t_min, t_max) == Some(rec),
    ensures
        exists|k: int| #![auto] i <= k < objs.len() && rec.mat == objs[k].mat,
    decreases objs.len() - i,
{
    match sphere_hit(objs[i], ray, t_min, t_max) {
        Option::Some(r0) => {
            match best_hit_from(objs, i + 1, ray, t_min, t_max) {
                Option::Some(r1) => {
                    if r1.t@ < r0.t@ {
                        lemma_best_hit_mat(objs, i + 1, ray, t_min, t_max, rec);
                    } else {
                        assert(rec == r0 && rec.mat == objs[i].mat);
                    }
                },
                Option::None => {
                    assert(rec == r0 && rec.mat == objs[i].mat);
                },
            }
        },
        Option::None => {
            lemma_best_hit_mat(objs, i + 1, ray, t_min, t_max, rec);
        },
    }
}

/// A record the scan returns carries the material of some listed sphere.
pub proof fn lemma_list_hit_mat_from_scene(
    objs: Seq<Sphere>,
    ray: Ray,
    t_min: int,
    t_max: int,
    rec: HitRecord,
)
    requires
        list_hit(objs, ray, t_min, t_max) == Some(rec),
    ensures
        exists|k: int| #![auto] 0 <= k < objs.len() && rec.mat == objs[k].mat,
{
    lemma_list_hit_finds_closest(objs, ray, t_min, t_max);
    lemma_best_hit_mat(objs, 0, ray, t_min, t_max, rec);
}

impl HittableList {
    pub fn new() -> (r: HittableList)
        ensures
            r.objects@.len() == 0,
    {
        HittableList { objects: Vec::new() }
    }

    pub fn clear(&mut self)
        ensures
            final(self).objects@.len() == 0,
    {
        self.objects.clear();
    }

    pub fn add(&mut self, obj: Sphere)
        ensures
            final(self).objects@ == old(self).objects@.push(obj),
    {
        self.objects.push(obj);
    }

    /// The nearest hit in `[t_min, t_max]`: a linear scan that narrows the
    /// search interval to the best distance found so far.
    pub fn hit(&self, ray: &Ray, t_min: Fx, t_max: Fx) -> (r: Option<HitRecord>)
        ensures
            r == list_hit(self.objects@, *ray, t_min@, t_max@),
    {
        let mut best: Option<HitRecord> = None;
        let mut closest: Fx = t_max;
        let mut i: usize = 0;
        while i < self.objects.len()
            invariant
                i <= self.objects@.len(),
                list_hit_from(self.objects@, i as int, *ray, t_min@, closest@, best) == list_hit(
                    self.objects@,
                    *ray,
                    t_min@,
                    t_max@,
                ),
            decreases self.objects@.len() - i,
        {
            match self.objects[i].hit(ray, t_min, closest) {
                Some(rec) => {
                    if best.is_none() || rec.t.raw < closest.raw {
                        closest = rec.t;
                        best = Some(rec);
                    }
                },
                None => {},
            }
            i = i + 1;
        }
        best
    }
}

} // verus!

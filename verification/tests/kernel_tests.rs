//! Intersection, scattering, camera and integrator tests, over exact
//! fixed-point values (one unit = 65536 raw).

use raytracer::camera::Camera;
use raytracer::fixed::Fx;
use raytracer::hittable::HitRecord;
use raytracer::hittable::HittableList;
use raytracer::material::Dielectric;
use raytracer::material::Lambertian;
use raytracer::material::Material;
use raytracer::material::Metal;
use raytracer::ray::Ray;
use raytracer::render::get_colour;
use raytracer::render::hit_sphere;
use raytracer::render::render_image;
use raytracer::render::render_pixel;
use raytracer::sphere::Sphere;
use raytracer::vec3::clamp;
use raytracer::vec3::Vec3;

const S: i64 = 65536;

fn v(x: i64, y: i64, z: i64) -> Vec3 {
    Vec3::from_ints(x, y, z)
}

fn grey() -> Material {
    Material::Lambertian(Lambertian::new(&Vec3::new(
        Fx::from_raw(32768),
        Fx::from_raw(32768),
        Fx::from_raw(32768),
    )))
}

#[test]
fn sphere_two_roots_near_wins() {
    // aimed at the centre from outside: roots 2 and 4; the near one is taken
    let s = Sphere::new(v(0, 0, -3), Fx::from_int(1), grey());
    let ray = Ray::new(&v(0, 0, 0), &v(0, 0, -1));
    let rec = s.hit(&ray, Fx::from_raw(66), Fx::from_int(100)).unwrap();
    assert_eq!(rec.t.raw, 2 * S);
    assert_eq!((rec.p.x.raw, rec.p.y.raw, rec.p.z.raw), (0, 0, -2 * S));
    assert!(rec.front_face);
    assert_eq!((rec.n.x.raw, rec.n.y.raw, rec.n.z.raw), (0, 0, S));
}

#[test]
fn sphere_inside_takes_far_root() {
    let s = Sphere::new(v(0, 0, -3), Fx::from_int(1), grey());
    let ray = Ray::new(&v(0, 0, -3), &v(0, 0, -1));
    let rec = s.hit(&ray, Fx::from_raw(66), Fx::from_int(100)).unwrap();
    assert_eq!(rec.t.raw, S);
    assert!(!rec.front_face);
    assert_eq!((rec.n.x.raw, rec.n.y.raw, rec.n.z.raw), (0, 0, S));
}

#[test]
fn sphere_miss() {
    let s = Sphere::new(v(0, 0, -3), Fx::from_int(1), grey());
    let ray = Ray::new(&v(0, 0, 0), &v(0, 1, 0));
    assert!(s.hit(&ray, Fx::from_raw(66), Fx::from_int(100)).is_none());
}

#[test]
fn scene_closest_hit_order_independent() {
    // two overlapping spheres along one ray: t = 2 and t = 3
    let m1 = Material::Lambertian(Lambertian::new(&v(1, 0, 0)));
    let m2 = Material::Lambertian(Lambertian::new(&v(0, 1, 0)));
    let s1 = Sphere::new(v(0, 0, -3), Fx::from_int(1), m1);
    let s2 = Sphere::new(v(0, 0, -5), Fx::from_int(2), m2);
    let ray = Ray::new(&v(0, 0, 0), &v(0, 0, -1));

    let mut world = HittableList::new();
    world.add(s1);
    world.add(s2);
    let rec = world.hit(&ray, Fx::from_raw(66), Fx::from_int(100)).unwrap();
    assert_eq!(rec.t.raw, 2 * S);
    assert_eq!(rec.mat, m1);

    let mut world = HittableList::new();
    world.add(s2);
    world.add(s1);
    let rec = world.hit(&ray, Fx::from_raw(66), Fx::from_int(100)).unwrap();
    assert_eq!(rec.t.raw, 2 * S);
    assert_eq!(rec.mat, m1);
}

#[test]
fn scene_equal_distance_keeps_earlier_hit() {
    // both spheres are first met at t = 2; the earlier-inserted one wins
    let m1 = Material::Lambertian(Lambertian::new(&v(1, 0, 0)));
    let m2 = Material::Lambertian(Lambertian::new(&v(0, 1, 0)));
    let s1 = Sphere::new(v(0, 0, -3), Fx::from_int(1), m1);
    let s2 = Sphere::new(v(0, 0, -5), Fx::from_int(3), m2);
    let ray = Ray::new(&v(0, 0, 0), &v(0, 0, -1));

    let mut world = HittableList::new();
    world.add(s1);
    world.add(s2);
    let rec = world.hit(&ray, Fx::from_raw(66), Fx::from_int(100)).unwrap();
    assert_eq!(rec.t.raw, 2 * S);
    assert_eq!(rec.mat, m1);

    let mut world = HittableList::new();
    world.add(s2);
    world.add(s1);
    let rec = world.hit(&ray, Fx::from_raw(66), Fx::from_int(100)).unwrap();
    assert_eq!(rec.t.raw, 2 * S);
    assert_eq!(rec.mat, m2);
}

#[test]
fn hit_interval_bounds_are_inclusive() {
    let s = Sphere::new(v(0, 0, -3), Fx::from_int(1), grey());
    let ray = Ray::new(&v(0, 0, 0), &v(0, 0, -1));

    let at_max = s.hit(&ray, Fx::from_raw(66), Fx::from_int(2)).unwrap();
    assert_eq!(at_max.t.raw, 2 * S);

    let at_min = s.hit(&ray, Fx::from_int(2), Fx::from_int(100)).unwrap();
    assert_eq!(at_min.t.raw, 2 * S);

    assert!(s.hit(&ray, Fx::from_raw(66), Fx::from_raw(2 * S - 1)).is_none());
}

#[test]
fn face_normal_opposes_ray() {
    let ray = Ray::new(&v(0, 0, 0), &v(1, 0, 0));
    let mut rec = HitRecord::new(&grey());

    rec.set_face_normal(&ray, v(-1, 0, 0));
    assert!(rec.front_face);
    assert_eq!((rec.n.x.raw, rec.n.y.raw, rec.n.z.raw), (-S, 0, 0));
    assert!(ray.dir().dot(&rec.n).raw <= 0);

    rec.set_face_normal(&ray, v(1, 0, 0));
    assert!(!rec.front_face);
    assert_eq!((rec.n.x.raw, rec.n.y.raw, rec.n.z.raw), (-S, 0, 0));
    assert!(ray.dir().dot(&rec.n).raw <= 0);

    // exactly grazing: the outward normal already satisfies the inequality,
    // so it is kept and the hit counts as front-facing
    rec.set_face_normal(&ray, v(0, 1, 0));
    assert!(rec.front_face);
    assert_eq!((rec.n.x.raw, rec.n.y.raw, rec.n.z.raw), (0, S, 0));
    assert!(ray.dir().dot(&rec.n).raw <= 0);
}

#[test]
fn dielectric_round_trip_normal_incidence() {
    // refraction ratio 1/1.5 entering, 1.5 exiting; at exact normal
    // incidence the direction passes through unchanged both times
    let entering_ratio = Fx::from_int(1).div(Fx::from_raw(98304));
    let exiting_ratio = Fx::from_raw(98304);
    let dir = v(0, 0, -1);

    let entry_normal = v(0, 0, 1);
    let inside = dir.unit_vector().refract(&entry_normal, entering_ratio);
    assert_eq!((inside.x.raw, inside.y.raw, inside.z.raw), (0, 0, -S));

    let exit_normal = v(0, 0, 1);
    let outside = inside.unit_vector().refract(&exit_normal, exiting_ratio);
    assert_eq!((outside.x.raw, outside.y.raw, outside.z.raw), (0, 0, -S));
}

#[test]
fn dielectric_total_internal_reflection() {
    // exiting glass at a grazing angle: ratio * sin exceeds one, so the ray
    // reflects no matter what the reflectance draw says
    let glass = Dielectric::new(Fx::from_raw(98304));
    let ray = Ray::new(&v(0, 1, 0), &v(4, -3, 0));
    let mut rec = HitRecord::new(&Material::Dielectric(glass));
    rec.front_face = false;
    rec.n = v(0, 1, 0);
    rec.p = v(0, 0, 0);

    let mut att = Vec3::default();
    let scattered = glass.scatter(&ray, &rec, &mut att).unwrap();
    let expected = ray.dir().unit_vector().reflect(&rec.n);
    assert_eq!(scattered.dir().x.raw, expected.x.raw);
    assert_eq!(scattered.dir().y.raw, expected.y.raw);
    assert_eq!(scattered.dir().z.raw, expected.z.raw);
    assert_eq!((att.x.raw, att.y.raw, att.z.raw), (S, S, S));
}

#[test]
fn recursion_budget_exhausted_is_black() {
    let mut world = HittableList::new();
    world.add(Sphere::new(v(0, 0, -1), Fx::from_raw(32768), grey()));
    let ray = Ray::new(&v(0, 0, 0), &v(0, 0, -1));
    let c = get_colour(ray, &world, 0);
    assert_eq!((c.x.raw, c.y.raw, c.z.raw), (0, 0, 0));
}

#[test]
fn colour_bytes_clamped_for_huge_sums() {
    let huge = Vec3::new(
        Fx::from_raw(4611686018427387903),
        Fx::from_raw(4611686018427387903),
        Fx::from_raw(-4611686018427387903),
    );
    let bytes = huge.as_colour_bytes(1);
    assert_eq!(bytes, vec![255, 255, 0]);
}

#[test]
fn colour_bytes_gamma_and_scale() {
    let c = Vec3::new(Fx::from_raw(0), Fx::from_int(1), Fx::from_raw(16384));
    assert_eq!(c.as_colour_bytes(1), vec![0, 255, 128]);
}

#[test]
fn one_bounce_on_diffuse_sphere_is_black() {
    // depth 1: the one bounce scatters, and the recursion budget is then
    // spent, so the pixel is black whatever direction the scatter drew
    let mut world = HittableList::new();
    let albedo = Vec3::new(Fx::from_raw(32768), Fx::from_raw(32768), Fx::from_raw(32768));
    world.add(Sphere::new(
        v(0, 0, -1),
        Fx::from_raw(32768),
        Material::Lambertian(Lambertian::new(&albedo)),
    ));
    let ray = Ray::new(&v(0, 0, 0), &v(0, 0, -1));
    let c = get_colour(ray, &world, 1);
    assert_eq!((c.x.raw, c.y.raw, c.z.raw), (0, 0, 0));
}

#[test]
fn empty_scene_shows_background_gradient() {
    let world = HittableList::new();

    // straight up: the zenith colour, exactly
    let up = get_colour(Ray::new(&v(0, 0, 0), &v(0, 1, 0)), &world, 5);
    assert_eq!((up.x.raw, up.y.raw, up.z.raw), (32768, 45875, S));

    // straight down: the horizon colour, exactly
    let down = get_colour(Ray::new(&v(0, 0, 0), &v(0, -1, 0)), &world, 5);
    assert_eq!((down.x.raw, down.y.raw, down.z.raw), (S, S, S));

    // the zenith colour is bluer than the horizon colour
    assert!(up.x.raw < down.x.raw && up.y.raw < down.y.raw);
}

#[test]
fn background_blend_clamped_for_sub_resolution_directions() {
    let world = HittableList::new();

    // a sub-resolution direction normalizes past unit length; the clamped
    // blend pins the background at the nearer endpoint colour
    let tiny_down = Vec3::new(Fx::from_raw(0), Fx::from_raw(-362), Fx::from_raw(0));
    let down = get_colour(Ray::new(&v(0, 0, 0), &tiny_down), &world, 5);
    assert_eq!((down.x.raw, down.y.raw, down.z.raw), (S, S, S));

    let tiny_up = Vec3::new(Fx::from_raw(0), Fx::from_raw(362), Fx::from_raw(0));
    let up = get_colour(Ray::new(&v(0, 0, 0), &tiny_up), &world, 5);
    assert_eq!((up.x.raw, up.y.raw, up.z.raw), (32768, 45875, S));
}

#[test]
fn sub_resolution_vectors_quantize_to_zero_length() {
    // below one quantum of squared length, a nonzero vector measures zero
    let tiny = Vec3::new(Fx::from_raw(100), Fx::from_raw(0), Fx::from_raw(0));
    assert_eq!(tiny.len_squared().raw, 0);
    assert_eq!(tiny.len().raw, 0);
    assert!(tiny.near_zero());

    // the first raw magnitude whose square survives truncation
    let edge = Vec3::new(Fx::from_raw(256), Fx::from_raw(0), Fx::from_raw(0));
    assert_eq!(edge.len_squared().raw, 1);
    assert_eq!(edge.len().raw, 256);
    assert!(!edge.near_zero());
}

#[test]
fn unit_vector_near_unit_length_above_resolution() {
    // a 3-4-5 vector: exact length, normalization within nine quanta of one
    let r = v(3, 4, 0);
    assert_eq!(r.len().raw, 5 * S);
    let u = r.unit_vector();
    assert_eq!((u.x.raw, u.y.raw, u.z.raw), (39321, 52428, 0));
    let usq = u.len_squared().raw;
    assert_eq!(usq, 65533);
    assert!(S - 9 <= usq && usq <= S + 9);
}

#[test]
fn metal_zero_fuzz_is_exact_mirror() {
    let albedo = v(1, 0, 0);
    let metal = Metal::new(&albedo, Fx::from_raw(0));
    let mut world = HittableList::new();
    world.add(Sphere::new(v(0, -4, 0), Fx::from_int(3), Material::Metal(metal)));

    let ray = Ray::new(&v(0, 0, 0), &v(0, -1, 0));
    let rec = world.hit(&ray, Fx::from_raw(66), Fx::from_int(100)).unwrap();
    assert_eq!(rec.t.raw, S);
    assert_eq!((rec.n.x.raw, rec.n.y.raw, rec.n.z.raw), (0, S, 0));

    let mut att = Vec3::default();
    let scattered = metal.scatter(&ray, &rec, &mut att).unwrap();
    assert_eq!((scattered.dir().x.raw, scattered.dir().y.raw, scattered.dir().z.raw), (0, S, 0));
    assert_eq!((scattered.origin().x.raw, scattered.origin().y.raw, scattered.origin().z.raw), (0, -S, 0));
    assert_eq!((att.x.raw, att.y.raw, att.z.raw), (S, 0, 0));
}

#[test]
fn metal_fuzz_clamped_at_one() {
    let m = Metal::new(&v(1, 1, 1), Fx::from_int(7));
    assert_eq!(m.fuzz.raw, S);
    let m = Metal::new(&v(1, 1, 1), Fx::from_raw(100));
    assert_eq!(m.fuzz.raw, 100);
}

#[test]
fn camera_centre_ray_points_forward() {
    let from = v(0, 0, 0);
    let to = v(0, 0, -1);
    let vup = v(0, 1, 0);
    let cam = Camera::new(
        &from,
        &to,
        &vup,
        Fx::from_int(1),
        Fx::from_int(1),
        Fx::from_raw(0),
        Fx::from_int(1),
    );
    let ray = cam.get_ray(Fx::from_raw(32768), Fx::from_raw(32768));
    assert_eq!((ray.origin().x.raw, ray.origin().y.raw, ray.origin().z.raw), (0, 0, 0));
    assert_eq!((ray.dir().x.raw, ray.dir().y.raw, ray.dir().z.raw), (0, 0, -S));
}

#[test]
fn hit_sphere_near_root_or_minus_one() {
    let ray = Ray::new(&v(0, 0, 0), &v(0, 0, -1));
    assert_eq!(hit_sphere(&v(0, 0, -3), Fx::from_int(1), &ray).raw, 2 * S);

    let miss = Ray::new(&v(0, 0, 0), &v(0, 1, 0));
    assert_eq!(hit_sphere(&v(0, 0, -3), Fx::from_int(1), &miss).raw, -S);
}

#[test]
fn clamp_bounds() {
    assert_eq!(clamp(Fx::from_raw(-5)).raw, 0);
    assert_eq!(clamp(Fx::from_int(2)).raw, 65470);
    assert_eq!(clamp(Fx::from_raw(100)).raw, 100);
}

#[test]
fn lagrange_identity_on_integer_vectors() {
    let a = v(2, 3, 4);
    let b = v(5, 6, 7);
    let cross_sq = a.cross(&b).len_squared();
    let dot = a.dot(&b);
    let lhs = cross_sq.add(dot.mul(dot));
    let rhs = a.len_squared().mul(b.len_squared());
    assert_eq!(lhs.raw, rhs.raw);
    assert_eq!(lhs.raw, 3190 * S);
}

#[test]
fn reflect_preserves_length_for_unit_normal() {
    let vv = v(1, 2, 2);
    let n = v(0, 1, 0);
    let r = vv.reflect(&n);
    assert_eq!((r.x.raw, r.y.raw, r.z.raw), (S, -2 * S, 2 * S));
    assert_eq!(r.len().raw, vv.len().raw);
}

#[test]
fn random_draws_stay_in_bounds() {
    for _ in 0..50 {
        let p = Vec3::random();
        assert!(0 <= p.x.raw && p.x.raw < S);
        assert!(0 <= p.y.raw && p.y.raw < S);
        assert!(0 <= p.z.raw && p.z.raw < S);

        let q = Vec3::random_bounded(Fx::from_int(-1), Fx::from_int(1));
        assert!(-S <= q.x.raw && q.x.raw < S);

        let b = Vec3::random_in_unit_sphere();
        let lsq = b.len_squared().raw;
        assert!(0 < lsq && lsq < S);

        let n = v(0, 1, 0);
        let h = Vec3::random_in_hemisphere(&n);
        assert!(n.dot(&h).raw >= 0);
    }
}

#[test]
fn random_draws_vary() {
    let mut distinct = false;
    let first = raytracer::random::random_unit_fx().raw;
    for _ in 0..64 {
        if raytracer::random::random_unit_fx().raw != first {
            distinct = true;
        }
    }
    assert!(distinct);
}

#[test]
fn lambertian_always_scatters_with_albedo() {
    let albedo = v(1, 0, 0);
    let lamb = Lambertian::new(&albedo);
    let ray = Ray::new(&v(0, 0, 0), &v(0, 0, -1));
    let mut rec = HitRecord::new(&Material::Lambertian(lamb));
    rec.n = v(0, 0, 1);
    rec.p = v(0, 0, -1);
    let mut att = Vec3::default();
    let out = lamb.scatter(&ray, &rec, &mut att);
    assert!(out.is_some());
    let out = out.unwrap();
    assert_eq!((out.origin().x.raw, out.origin().y.raw, out.origin().z.raw), (0, 0, -S));
    assert_eq!((att.x.raw, att.y.raw, att.z.raw), (S, 0, 0));
}

#[test]
fn render_image_has_row_major_extent() {
    let world = HittableList::new();
    let cam = Camera::new(
        &v(0, 0, 0),
        &v(0, 0, -1),
        &v(0, 1, 0),
        Fx::from_int(1),
        Fx::from_int(1),
        Fx::from_raw(0),
        Fx::from_int(1),
    );
    let img = render_image(&world, &cam, 4, 3, 2, 5);
    assert_eq!(img.len(), 36);

    let px = render_pixel(&world, &cam, 0, 0, 4, 3, 2, 5);
    assert_eq!(px.len(), 3);
}

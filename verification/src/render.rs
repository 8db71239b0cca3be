//! The integrator: the recursive colour estimator and the per-pixel
//! Monte Carlo sampling loop.

use vstd::prelude::*;

verus! {

use crate::camera::Camera;
use crate::camera::camera_ray;
use crate::constants::T_MIN_RAW;
use crate::constants::T_MAX_RAW;
use crate::constants::black;
use crate::constants::white;
use crate::fixed::Fx;
use crate::fixed::FX_SCALE;
use crate::fixed::fx_add;
use crate::fixed::fx_sub;
use crate::fixed::fx_neg;
use crate::fixed::fx_mul;
use crate::fixed::fx_div;
use crate::fixed::fx_sqrt;
use crate::hittable::HittableList;
use crate::hittable::list_hit;
use crate::ray::Ray;
use crate::ray::ray_background;
use crate::material::Material;
use crate::material::material_wf;
use crate::material::lambertian_dir;
use crate::material::metal_scatter;
use crate::material::dielectric_scatter;
use crate::sphere::Sphere;
use crate::vec3::Colour;
use crate::vec3::Point;
use crate::vec3::Vec3;
use crate::vec3::colour_channel;
use crate::vec3::v3_add;
use crate::vec3::v3_cmul;
use crate::vec3::v3_dot;
use crate::vec3::v3_len_sq;
use crate::vec3::v3_sub;
use crate::vec3::v3_sum;
use crate::vec3::v3_unit;
use crate::vec3::v3_wf;

/// The colours the estimator can return for a ray at a given recursion
/// budget, the random draws quantified away: black when the budget is spent,
/// when the direction is degenerate or the hit material misconfigured; the
/// background gradient on a miss; and on a hit, for some draw of the hit
/// material's scattering, the attenuation times a possible colour of the
/// scattered ray one budget step down (black where a fuzzed metal
/// reflection is absorbed).
pub open spec fn colour_possible(ray: Ray, objs: Seq<Sphere>, depth: int, c: Colour) -> bool
    decreases depth,
{
    if depth <= 0 {
        c == black()
    } else if v3_len_sq(ray.dir) == 0 {
        c == black()
    } else {
        match list_hit(objs, ray, T_MIN_RAW as int, T_MAX_RAW as int) {
            Option::None => c == ray_background(ray),
            Option::Some(rec) => if !material_wf(rec.mat) {
                c == black()
            } else {
                match rec.mat {
                    Material::Lambertian(l) => exists|q: Vec3, c2: Colour|
                        #![auto]
                        0 < v3_len_sq(q) < FX_SCALE as int && colour_possible(
                            Ray { dir: lambertian_dir(rec.n, v3_unit(q)), orig: rec.p },
                            objs,
                            depth - 1,
                            c2,
                        ) && c == v3_cmul(l.albedo, c2),
                    Material::Metal(m) => exists|p: Vec3|
                        #![auto]
                        0 < v3_len_sq(p) < FX_SCALE as int && v3_wf(p) && (match metal_scatter(
                            ray,
                            rec,
                            m.fuzz@,
                            p,
                        ) {
                            Option::None => c == black(),
                            Option::Some(sr) => exists|c2: Colour|
                                #![auto]
                                colour_possible(sr, objs, depth - 1, c2) && c == v3_cmul(
                                    m.albedo,
                                    c2,
                                ),
                        }),
                    Material::Dielectric(d) => exists|coin: int, c2: Colour|
                        #![auto]
                        0 <= coin < FX_SCALE as int && colour_possible(
                            dielectric_scatter(d.refraction_idx@, ray, rec, coin),
                            objs,
                            depth - 1,
                            c2,
                        ) && c == v3_cmul(crate::constants::white(), c2),
                }
            },
        }
    }
}

/// The colour a primary ray contributes, with a bounded recursion budget:
/// black once the budget is spent, the background gradient on a miss, and
/// the scattered colour attenuated by the material on a hit (black when the
/// material absorbs the ray).  A degenerate (zero-length-squared) direction
/// or a misconfigured material contributes black.  The result is always a
/// possible outcome of the scattering draws, as `colour_possible` states.
pub fn get_colour(ray: Ray, world: &HittableList, recursion_depth: i32) -> (c: Colour)
    ensures
        colour_possible(ray, world.objects@, recursion_depth as int, c),
        recursion_depth <= 0 ==> c == black(),
        recursion_depth > 0 && v3_len_sq(ray.dir) == 0 ==> c == black(),
        recursion_depth > 0 && v3_len_sq(ray.dir) > 0 && list_hit(
            world.objects@,
            ray,
            T_MIN_RAW as int,
            T_MAX_RAW as int,
        ) is None ==> c == ray_background(ray),
        recursion_depth > 0 && (list_hit(
            world.objects@,
            ray,
            T_MIN_RAW as int,
            T_MAX_RAW as int,
        ) matches Some(rec) && !material_wf(rec.mat)) ==> c == black(),
    decreases recursion_depth,
{
    if recursion_depth <= 0 {
        return black();
    }
    if ray.dir().len_squared().raw == 0 {
        return black();
    }

    match world.hit(&ray, Fx { raw: T_MIN_RAW }, Fx { raw: T_MAX_RAW }) {
        Some(rec) => {
            if !rec.mat.is_wf() {
                return black();
            }
            let mut attenuation = white();
            match rec.mat.scatter(&ray, &rec, &mut attenuation) {
                Some(scattered_ray) => {
                    let c2 = get_colour(scattered_ray, world, recursion_depth - 1);
                    let out = attenuation.mul(c2);
                    proof {
                        lemma_scatter_outcome_possible(
                            ray,
                            world.objects@,
                            recursion_depth as int,
                            rec,
                            attenuation,
                            Some(scattered_ray),
                            c2,
                            out,
                        );
                    }
                    out
                },
                None => {
                    proof {
                        lemma_scatter_outcome_possible(
                            ray,
                            world.objects@,
                            recursion_depth as int,
                            rec,
                            attenuation,
                            None,
                            black(),
                            black(),
                        );
                    }
                    black()
                },
            }
        },
        None => ray.colour(),
    }
}

/// What one scatter outcome contributes is a possible colour of the
/// incoming ray: the glue between the material contracts and
/// `colour_possible`.
proof fn lemma_scatter_outcome_possible(
    ray: Ray,
    objs: Seq<Sphere>,
    depth: int,
    rec: crate::hittable::HitRecord,
    attenuation: Colour,
    scattered: Option<Ray>,
    c2: Colour,
    out: Colour,
)
    requires
        depth > 0,
        v3_len_sq(ray.dir) > 0,
        list_hit(objs, ray, T_MIN_RAW as int, T_MAX_RAW as int) == Some(rec),
        material_wf(rec.mat),
        rec.mat matches Material::Lambertian(l) ==> attenuation == l.albedo && (
        scattered matches Some(sr) && sr.orig == rec.p && exists|q: Vec3|
            #![auto]
            0 < v3_len_sq(q) < FX_SCALE as int && sr.dir == lambertian_dir(rec.n, v3_unit(q))),
        rec.mat matches Material::Metal(m) ==> attenuation == m.albedo && exists|p: Vec3|
            #![auto]
            0 < v3_len_sq(p) < FX_SCALE as int && v3_wf(p) && scattered == metal_scatter(
                ray,
                rec,
                m.fuzz@,
                p,
            ),
        rec.mat matches Material::Dielectric(d) ==> attenuation == crate::constants::white() && (
        scattered matches Some(sr) && exists|coin: int|
            #![auto]
            0 <= coin < FX_SCALE as int && sr == dielectric_scatter(
                d.refraction_idx@,
                ray,
                rec,
                coin,
            )),
        scattered matches Some(sr) ==> colour_possible(sr, objs, depth - 1, c2) && out == v3_cmul(
            attenuation,
            c2,
        ),
        scattered is None ==> out == black(),
    ensures
        colour_possible(ray, objs, depth, out),
{
    match rec.mat {
        Material::Lambertian(l) => {
            match scattered {
                Option::Some(sr) => {
                    let q = choose|q: Vec3|
                        0 < v3_len_sq(q) < FX_SCALE as int && sr.dir == lambertian_dir(
                            rec.n,
                            v3_unit(q),
                        );
                    assert(sr == (Ray { dir: lambertian_dir(rec.n, v3_unit(q)), orig: rec.p }));
                    assert(0 < v3_len_sq(q) < FX_SCALE as int && colour_possible(
                        Ray { dir: lambertian_dir(rec.n, v3_unit(q)), orig: rec.p },
                        objs,
                        depth - 1,
                        c2,
                    ) && out == v3_cmul(l.albedo, c2));
                },
                Option::None => {
                    assert(false);
                },
            }
        },
        Material::Metal(m) => {
            let p = choose|p: Vec3|
                0 < v3_len_sq(p) < FX_SCALE as int && v3_wf(p) && scattered == metal_scatter(
                    ray,
                    rec,
                    m.fuzz@,
                    p,
                );
            match scattered {
                Option::Some(sr) => {
                    assert(0 < v3_len_sq(p) < FX_SCALE as int && v3_wf(p) && (match metal_scatter(
                        ray,
                        rec,
                        m.fuzz@,
                        p,
                    ) {
                        Option::None => out == black(),
                        Option::Some(sr2) => exists|cc: Colour|
                            #![auto]
                            colour_possible(sr2, objs, depth - 1, cc) && out == v3_cmul(
                                m.albedo,
                                cc,
                            ),
                    }));
                },
                Option::None => {
                    assert(0 < v3_len_sq(p) < FX_SCALE as int && v3_wf(p) && (match metal_scatter(
                        ray,
                        rec,
                        m.fuzz@,
                        p,
                    ) {
                        Option::None => out == black(),
                        Option::Some(sr2) => exists|cc: Colour|
                            #![auto]
                            colour_possible(sr2, objs, depth - 1, cc) && out == v3_cmul(
                                m.albedo,
                                cc,
                            ),
                    }));
                },
            }
        },
        Material::Dielectric(d) => {
            match scattered {
                Option::Some(sr) => {
                    let coin = choose|coin: int|
                        0 <= coin < FX_SCALE as int && sr == dielectric_scatter(
                            d.refraction_idx@,
                            ray,
                            rec,
                            coin,
                        );
                    assert(0 <= coin < FX_SCALE as int && colour_possible(
                        dielectric_scatter(d.refraction_idx@, ray, rec, coin),
                        objs,
                        depth - 1,
                        c2,
                    ) && out == v3_cmul(crate::constants::white(), c2));
                },
                Option::None => {
                    assert(false);
                },
            }
        },
    }
}

/// The nearer intersection parameter of a ray with a sphere, minus one when
/// the ray misses it (or is degenerate).
pub open spec fn hit_sphere_spec(centre: Point, radius: int, ray: Ray) -> int {
    let oc = v3_sub(ray.orig, centre);
    let a = v3_len_sq(ray.dir);
    let half_b = v3_dot(ray.dir, oc);
    let c = fx_sub(v3_dot(oc, oc), fx_mul(radius, radius));
    let delta = fx_sub(fx_mul(half_b, half_b), fx_mul(a, c));
    if delta < 0 || a == 0 {
        -(FX_SCALE as int)
    } else {
        fx_div(fx_sub(fx_neg(half_b), fx_sqrt(delta)), a)
    }
}

/// Solve the sphere quadratic for the nearer root, without an interval.
pub fn hit_sphere(centre: &Point, radius: Fx, ray: &Ray) -> (t: Fx)
    ensures
        t@ == hit_sphere_spec(*centre, radius@, *ray),
{
    let oc = ray.origin().sub(*centre);
    let d = ray.dir();

    let a = d.len_squared();
    let half_b = d.dot(&oc);
    let c = oc.dot(&oc).sub(radius.mul(radius));
    let delta = half_b.mul(half_b).sub(a.mul(c));

    if delta.raw < 0 || a.raw == 0 {
        return Fx { raw: -FX_SCALE };
    }

    half_b.neg().sub(delta.sqrt()).div(a)
}

/// One image-plane coordinate with its sub-pixel jitter applied:
/// `(index + jitter) / (extent - 1)` in fixed point.
pub open spec fn jitter_coord(index: int, jitter: int, extent: int) -> int
    recommends
        extent > 1,
{
    fx_div(
        fx_add(crate::fixed::fx_sat(index * FX_SCALE as int), jitter),
        crate::fixed::fx_sat((extent - 1) * FX_SCALE as int),
    )
}

/// The colours one sample of pixel `(i, j)` can contribute: a possible
/// outcome of the camera ray through the jittered image-plane point, for
/// some jitter draws in `[0, 1)`.
pub open spec fn pixel_sample_possible(
    objs: Seq<Sphere>,
    cam: Camera,
    i: int,
    j: int,
    width: int,
    height: int,
    depth: int,
    c: Colour,
) -> bool {
    exists|du: int, dv: int|
        #![auto]
        0 <= du < FX_SCALE as int && 0 <= dv < FX_SCALE as int && colour_possible(
            camera_ray(cam, jitter_coord(i, du, width), jitter_coord(j, dv, height)),
            objs,
            depth,
            c,
        )
}

/// The byte triples pixel `(i, j)` can display: the quantized channels of
/// the sum of `samples` per-sample colours, each one possible for this
/// pixel.
pub open spec fn pixel_bytes_possible(
    objs: Seq<Sphere>,
    cam: Camera,
    i: int,
    j: int,
    width: int,
    height: int,
    samples: int,
    depth: int,
    px: Seq<u8>,
) -> bool {
    exists|cs: Seq<Colour>|
        #![auto]
        cs.len() == samples && (forall|k: int|
            0 <= k < cs.len() ==> pixel_sample_possible(
                objs,
                cam,
                i,
                j,
                width,
                height,
                depth,
                cs[k],
            )) && px.len() == 3 && px[0] == colour_channel(v3_sum(cs).x@, samples) && px[1]
            == colour_channel(v3_sum(cs).y@, samples) && px[2] == colour_channel(
            v3_sum(cs).z@,
            samples,
        )
}

/// One pixel: sum `samples` jittered primary rays through the camera and
/// quantize the average.  Three display bytes come back, and they are the
/// quantization of a sum of per-sample possible outcomes.
pub fn render_pixel(
    world: &HittableList,
    cam: &Camera,
    i: u32,
    j: u32,
    width: u32,
    height: u32,
    samples: u32,
    depth: i32,
) -> (px: Vec<u8>)
    requires
        width > 1,
        height > 1,
        samples >= 1,
    ensures
        px@.len() == 3,
        pixel_bytes_possible(
            world.objects@,
            *cam,
            i as int,
            j as int,
            width as int,
            height as int,
            samples as int,
            depth as int,
            px@,
        ),
{
    let mut acc = black();
    let ghost mut cs: Seq<Colour> = Seq::<Colour>::empty();
    let w_denom = Fx::from_int((width - 1) as i64);
    let h_denom = Fx::from_int((height - 1) as i64);
    proof {
        assert(w_denom@ > 0);
        assert(h_denom@ > 0);
    }
    let mut s: u32 = 0;
    while s < samples
        invariant
            s <= samples,
            cs.len() == s as int,
            acc == v3_sum(cs),
            forall|k: int|
                0 <= k < cs.len() ==> pixel_sample_possible(
                    world.objects@,
                    *cam,
                    i as int,
                    j as int,
                    width as int,
                    height as int,
                    depth as int,
                    cs[k],
                ),
            w_denom@ == crate::fixed::fx_sat((width as int - 1) * (FX_SCALE as int)),
            h_denom@ == crate::fixed::fx_sat((height as int - 1) * (FX_SCALE as int)),
            w_denom@ > 0,
            h_denom@ > 0,
            width > 1,
            height > 1,
        decreases samples - s,
    {
        let du = crate::random::random_unit_fx();
        let dv = crate::random::random_unit_fx();
        let u = Fx::from_int(i as i64).add(du).div(w_denom);
        let v = Fx::from_int(j as i64).add(dv).div(h_denom);
        let ray = cam.get_ray(u, v);
        let c = get_colour(ray, world, depth);
        proof {
            assert(u@ == jitter_coord(i as int, du@, width as int));
            assert(v@ == jitter_coord(j as int, dv@, height as int));
            assert(0 <= du@ < FX_SCALE as int && 0 <= dv@ < FX_SCALE as int && colour_possible(
                camera_ray(
                    *cam,
                    jitter_coord(i as int, du@, width as int),
                    jitter_coord(j as int, dv@, height as int),
                ),
                world.objects@,
                depth as int,
                c,
            ));
            let ghost prev = cs;
            cs = cs.push(c);
            assert(cs.drop_last() =~= prev);
            assert(v3_sum(cs) == v3_add(v3_sum(prev), c));
        }
        acc = acc.add(c);
        s = s + 1;
    }
    let px = acc.as_colour_bytes(samples as i64);
    proof {
        assert(cs.len() == samples as int && px@.len() == 3 && px@[0] == colour_channel(
            v3_sum(cs).x@,
            samples as int,
        ) && px@[1] == colour_channel(v3_sum(cs).y@, samples as int) && px@[2] == colour_channel(
            v3_sum(cs).z@,
            samples as int,
        ));
    }
    px
}

/// The three display bytes of pixel `(row, col)` of a row-major image.
pub open spec fn pixel_triple(img: Seq<u8>, width: int, row: int, col: int) -> Seq<u8> {
    img.subrange(3 * (width * row + col), 3 * (width * row + col) + 3)
}

/// Pixel `(row, col)` of the image (row zero at the top of the picture)
/// holds a possible rendering of the image-plane point it covers.
pub open spec fn image_pixel_possible(
    objs: Seq<Sphere>,
    cam: Camera,
    img: Seq<u8>,
    width: int,
    height: int,
    samples: int,
    depth: int,
    row: int,
    col: int,
) -> bool {
    pixel_bytes_possible(
        objs,
        cam,
        col,
        height - 1 - row,
        width,
        height,
        samples,
        depth,
        pixel_triple(img, width, row, col),
    )
}

/// Pixels emitted earlier keep their triples as the image grows.
proof fn lemma_pixel_offset_bound(width: int, row: int, r2: int, c2: int)
    requires
        0 <= r2 < row,
        0 <= c2 < width,
    ensures
        0 <= 3 * (width * r2 + c2),
        3 * (width * r2 + c2) + 3 <= 3 * (width * row),
{
    assert(0 <= 3 * (width * r2 + c2) && 3 * (width * r2 + c2) + 3 <= 3 * (width * row))
        by (nonlinear_arith)
        requires
            0 <= r2 < row,
            0 <= c2 < width,
    ;
}

/// The whole image: row-major display bytes, top row first.  Every pixel of
/// the result is a possible rendering of its own image-plane point.
#[verifier::rlimit(100)]
pub fn render_image(
    world: &HittableList,
    cam: &Camera,
    width: u32,
    height: u32,
    samples: u32,
    depth: i32,
) -> (img: Vec<u8>)
    requires
        width > 1,
        height > 1,
        samples >= 1,
    ensures
        img@.len() == 3 * (width as int) * (height as int),
        forall|r: int, c: int|
            0 <= r < height as int && 0 <= c < width as int ==> image_pixel_possible(
                world.objects@,
                *cam,
                img@,
                width as int,
                height as int,
                samples as int,
                depth as int,
                r,
                c,
            ),
{
    let mut img: Vec<u8> = Vec::new();
    let mut row: u32 = 0;
    while row < height
        invariant
            row <= height,
            img@.len() == 3 * (width as int) * (row as int),
            forall|r2: int, c2: int|
                0 <= r2 < row as int && 0 <= c2 < width as int ==> image_pixel_possible(
                    world.objects@,
                    *cam,
                    img@,
                    width as int,
                    height as int,
                    samples as int,
                    depth as int,
                    r2,
                    c2,
                ),
            width > 1,
            height > 1,
            samples >= 1,
        decreases height - row,
    {
        let j = height - 1 - row;
        let mut i: u32 = 0;
        while i < width
            invariant
                i <= width,
                img@.len() == 3 * (width as int) * (row as int) + 3 * (i as int),
                forall|r2: int, c2: int|
                    0 <= r2 < row as int && 0 <= c2 < width as int ==> image_pixel_possible(
                        world.objects@,
                        *cam,
                        img@,
                        width as int,
                        height as int,
                        samples as int,
                        depth as int,
                        r2,
                        c2,
                    ),
                forall|c2: int|
                    0 <= c2 < i as int ==> image_pixel_possible(
                        world.objects@,
                        *cam,
                        img@,
                        width as int,
                        height as int,
                        samples as int,
                        depth as int,
                        row as int,
                        c2,
                    ),
                j == height - 1 - row,
                row < height,
                width > 1,
                height > 1,
                samples >= 1,
            decreases width - i,
        {
            let px = render_pixel(world, cam, i, j, width, height, samples, depth);
            let ghost pre = img@;
            img.push(px[0]);
            img.push(px[1]);
            img.push(px[2]);
            proof {
                assert(img@ =~= pre + px@);
                assert(3 * ((width as int) * (row as int) + i as int) == 3 * (width as int) * (
                row as int) + 3 * (i as int)) by (nonlinear_arith);
                assert(pixel_triple(img@, width as int, row as int, i as int) =~= px@);
                assert(image_pixel_possible(
                    world.objects@,
                    *cam,
                    img@,
                    width as int,
                    height as int,
                    samples as int,
                    depth as int,
                    row as int,
                    i as int,
                ));
                assert forall|r2: int, c2: int|
                    0 <= r2 < row as int && 0 <= c2 < width as int implies image_pixel_possible(
                    world.objects@,
                    *cam,
                    img@,
                    width as int,
                    height as int,
                    samples as int,
                    depth as int,
                    r2,
                    c2,
                ) by {
                    assert(image_pixel_possible(
                        world.objects@,
                        *cam,
                        pre,
                        width as int,
                        height as int,
                        samples as int,
                        depth as int,
                        r2,
                        c2,
                    ));
                    lemma_pixel_offset_bound(width as int, row as int, r2, c2);
                    assert(pixel_triple(img@, width as int, r2, c2) =~= pixel_triple(
                        pre,
                        width as int,
                        r2,
                        c2,
                    ));
                }
                assert forall|c2: int|
                    0 <= c2 < i as int implies image_pixel_possible(
                    world.objects@,
                    *cam,
                    img@,
                    width as int,
                    height as int,
                    samples as int,
                    depth as int,
                    row as int,
                    c2,
                ) by {
                    assert(image_pixel_possible(
                        world.objects@,
                        *cam,
                        pre,
                        width as int,
                        height as int,
                        samples as int,
                        depth as int,
                        row as int,
                        c2,
                    ));
                    assert(0 <= 3 * ((width as int) * (row as int) + c2) && 3 * ((width as int) * (
                    row as int) + c2) + 3 <= pre.len()) by (nonlinear_arith)
                        requires
                            0 <= c2 < i as int,
                            pre.len() == 3 * (width as int) * (row as int) + 3 * (i as int),
                    ;
                    assert(pixel_triple(img@, width as int, row as int, c2) =~= pixel_triple(
                        pre,
                        width as int,
                        row as int,
                        c2,
                    ));
                }
            }
            i = i + 1;
        }
        proof {
            assert(3 * (width as int) * (row as int + 1) == 3 * (width as int) * (row as int) + 3
                * (width as int)) by (nonlinear_arith);
        }
        row = row + 1;
    }
    img
}

} // verus!

//! The camera: maps normalized image-plane coordinates to primary rays.

use vstd::prelude::*;

verus! {

use crate::fixed::Fx;
use crate::fixed::FX_SCALE;
use crate::fixed::fx_mul;
use crate::fixed::fx_div;
use crate::ray::Ray;
use crate::vec3::Point;
use crate::vec3::Vec3;
use crate::vec3::fxr;
use crate::vec3::v3_add;
use crate::vec3::v3_cross;
use crate::vec3::v3_div_fx;
use crate::vec3::v3_len;
use crate::vec3::v3_len_sq;
use crate::vec3::v3_scale;
use crate::vec3::v3_sub;
use crate::vec3::v3_unit;
use crate::vec3::lemma_len_positive;

/// An immutable camera: eye position, viewport frame, and its orthonormal
/// basis.  One camera serves one render.
#[derive(Clone, Copy, Debug, PartialEq, Eq, Structural)]
pub struct Camera {
    pub origin: Point,
    pub low_left_corner: Point,
    pub hor: Vec3,
    pub ver: Vec3,
    pub u: Vec3,
    pub v: Vec3,
    pub w: Vec3,
    pub lens_radius: Fx,
}

/// The camera a given configuration derives: orthonormal basis from eye,
/// look-at and up; viewport spans scaled by the focus distance.
pub open spec fn camera_new_spec(
    from: Point,
    to: Point,
    vup: Vec3,
    tan_half_vfov: int,
    aspect_ratio: int,
    aperture: int,
    focus_dist: int,
) -> Camera
    recommends
        v3_len(v3_sub(from, to)) != 0,
        v3_len(v3_cross(vup, v3_unit(v3_sub(from, to)))) != 0,
{
    let viewport_h = fx_mul(2 * FX_SCALE as int, tan_half_vfov);
    let viewport_w = fx_mul(aspect_ratio, viewport_h);
    let w = v3_unit(v3_sub(from, to));
    let u = v3_unit(v3_cross(vup, w));
    let v = v3_cross(w, u);
    let hor = v3_scale(u, fx_mul(focus_dist, viewport_w));
    let ver = v3_scale(v, fx_mul(focus_dist, viewport_h));
    let low_left_corner = v3_sub(
        v3_sub(v3_sub(from, v3_div_fx(hor, 2 * FX_SCALE as int)), v3_div_fx(ver, 2 * FX_SCALE as int)),
        v3_scale(w, focus_dist),
    );
    Camera {
        origin: from,
        low_left_corner,
        hor,
        ver,
        u,
        v,
        w,
        lens_radius: fxr(fx_div(aperture, 2 * FX_SCALE as int)),
    }
}

/// The primary ray for image-plane coordinates `(s, t)` in `[0, 1]^2`: from
/// the eye toward the matching point of the viewport.
pub open spec fn camera_ray(c: Camera, s: int, t: int) -> Ray {
    Ray {
        orig: c.origin,
        dir: v3_sub(
            v3_add(v3_add(c.low_left_corner, v3_scale(c.hor, s)), v3_scale(c.ver, t)),
            c.origin,
        ),
    }
}

impl Camera {
    /// Build a camera from eye, look-at, up vector, the tangent of half the
    /// vertical field of view, aspect ratio, aperture and focus distance.
    /// The eye must differ from the look-at point, and the up vector must
    /// not be parallel to the view direction.
    pub fn new(
        from: &Point,
        to: &Point,
        vup: &Vec3,
        tan_half_vfov: Fx,
        aspect_ratio: Fx,
        aperture: Fx,
        focus_dist: Fx,
    ) -> (c: Camera)
        requires
            v3_len_sq(v3_sub(*from, *to)) > 0,
            v3_len_sq(v3_cross(*vup, v3_unit(v3_sub(*from, *to)))) > 0,
        ensures
            c == camera_new_spec(
                *from,
                *to,
                *vup,
                tan_half_vfov@,
                aspect_ratio@,
                aperture@,
                focus_dist@,
            ),
    {
        let two = Fx { raw: 2 * FX_SCALE };
        let viewport_h = two.mul(tan_half_vfov);
        let viewport_w = aspect_ratio.mul(viewport_h);

        proof {
            lemma_len_positive(v3_sub(*from, *to));
        }
        let w = from.sub(*to).unit_vector();
        proof {
            lemma_len_positive(v3_cross(*vup, w));
        }
        let u = vup.cross(&w).unit_vector();
        let v = w.cross(&u);

        let hor = u.mul_fx(focus_dist.mul(viewport_w));
        let ver = v.mul_fx(focus_dist.mul(viewport_h));
        let origin = *from;

        Camera {
            origin,
            hor,
            ver,
            low_left_corner: origin.sub(hor.div_fx(two)).sub(ver.div_fx(two)).sub(
                w.mul_fx(focus_dist),
            ),
            u,
            v,
            w,
            lens_radius: aperture.div(two),
        }
    }

    /// The primary ray for image-plane coordinates `(s, t)`.
    pub fn get_ray(&self, s: Fx, t: Fx) -> (r: Ray)
        ensures
            r == camera_ray(*self, s@, t@),
    {
        Ray::new(
            &self.origin,
            &self.low_left_corner.add(self.hor.mul_fx(s)).add(self.ver.mul_fx(t)).sub(self.origin),
        )
    }
}

} // verus!

//! Rays: an origin and an (arbitrary-length) direction.

use vstd::prelude::*;

verus! {

use crate::fixed::Fx;
use crate::fixed::FX_SCALE;
use crate::fixed::fx_add;
use crate::fixed::fx_sub;
use crate::fixed::fx_mul;
use crate::vec3::Colour;
use crate::vec3::Point;
use crate::vec3::Vec3;
use crate::vec3::v3_add;
use crate::vec3::v3_scale;
use crate::vec3::v3_unit;
use crate::vec3::v3_len;
use crate::vec3::v3_len_sq;
use crate::vec3::lemma_len_positive;
use crate::constants::white;
use crate::constants::blue;

#[derive(Clone, Copy, Debug, PartialEq, Eq, Structural)]
pub struct Ray {
    pub dir: Vec3,
    pub orig: Point,
}

/// The point the ray reaches at parameter `t`.
pub open spec fn ray_at(r: Ray, t: int) -> Point {
    v3_add(r.orig, v3_scale(r.dir, t))
}

/// The background blend parameter: `0.5 * (unit_y + 1)`, clamped into
/// `[0, 1]`.  Fixed-point normalization of a direction near the resolution
/// floor can push the unit component past one in magnitude; the clamp keeps
/// the gradient between its two endpoint colours regardless.
pub open spec fn background_blend(r: Ray) -> int
    recommends
        v3_len(r.dir) != 0,
{
    let t0 = fx_mul(32768, fx_add(v3_unit(r.dir).y@, FX_SCALE as int));
    if t0 < 0 {
        0
    } else if t0 > FX_SCALE as int {
        FX_SCALE as int
    } else {
        t0
    }
}

/// The background gradient: a blend from white at the horizon to blue at the
/// zenith, by the normalized vertical direction component.
pub open spec fn ray_background(r: Ray) -> Colour
    recommends
        v3_len(r.dir) != 0,
{
    let t = background_blend(r);
    v3_add(v3_scale(white(), fx_sub(FX_SCALE as int, t)), v3_scale(blue(), t))
}

impl Ray {
    pub fn new(orig: &Point, dir: &Vec3) -> (r: Ray)
        ensures
            r.orig == *orig,
            r.dir == *dir,
    {
        Ray { dir: *dir, orig: *orig }
    }

    pub fn dir(&self) -> (r: Vec3)
        ensures
            r == self.dir,
    {
        self.dir
    }

    pub fn origin(&self) -> (r: Point)
        ensures
            r == self.orig,
    {
        self.orig
    }

    /// The point the ray reaches at parameter `t`.
    pub fn at(&self, t: Fx) -> (r: Point)
        ensures
            r == ray_at(*self, t@),
    {
        self.orig.add(self.dir.mul_fx(t))
    }

    /// The background colour this ray sees when it hits nothing.
    pub fn colour(&self) -> (c: Colour)
        requires
            v3_len_sq(self.dir) > 0,
        ensures
            c == ray_background(*self),
    {
        proof {
            lemma_len_positive(self.dir);
        }
        let unit_dir = self.dir.unit_vector();
        let t0 = Fx { raw: 32768 }.mul(unit_dir.y.add(Fx { raw: FX_SCALE }));
        let t = if t0.raw < 0 {
            Fx { raw: 0 }
        } else if t0.raw > FX_SCALE {
            Fx { raw: FX_SCALE }
        } else {
            t0
        };
        white().mul_fx(Fx { raw: FX_SCALE }.sub(t)).add(blue().mul_fx(t))
    }
}

} // verus!

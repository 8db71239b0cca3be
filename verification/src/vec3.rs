//! Three-component vectors over fixed-point scalars.
//!
//! One representation serves three roles: displacement, point and colour.
//! Every operation is specified exactly by a spec function of the same
//! shape, fixed-point rounding and saturation included.

use vstd::prelude::*;

verus! {

use crate::fixed::Fx;
use crate::fixed::FX_SCALE;
use crate::fixed::fx_add;
use crate::fixed::fx_sub;
use crate::fixed::fx_neg;
use crate::fixed::fx_mul;
use crate::fixed::fx_div;
use crate::fixed::fx_sqrt;
use crate::fixed::fx_wf;
use crate::fixed::lemma_isqrt_unique;
use crate::fixed::lemma_isqrt_mono;
use crate::fixed::lemma_tdiv_bound;

/// A colour: channels red, green, blue in `x`, `y`, `z`, nominally in `[0, 1]`.
pub type Colour = Vec3;

/// A point in space.
pub type Point = Vec3;

/// Components below this raw magnitude square to zero; such vectors count as
/// degenerate scatter directions.
pub const MIN_DIM_RAW: i64 = 256;

/// Channel ceiling for byte output: just below one, so `256 * channel < 256`.
pub const MAX_CLAMP_RAW: i64 = 65470;

#[derive(Clone, Copy, Debug, PartialEq, Eq, Structural)]
pub struct Vec3 {
    pub x: Fx,
    pub y: Fx,
    pub z: Fx,
}

/// The scalar of a raw value, in spec position.
pub open spec fn fxr(v: int) -> Fx {
    Fx { raw: v as i64 }
}

/// The vector of three raw values, in spec position.
pub open spec fn v3(x: int, y: int, z: int) -> Vec3 {
    Vec3 { x: fxr(x), y: fxr(y), z: fxr(z) }
}

/// All three components are representable raw values.
pub open spec fn v3_wf(v: Vec3) -> bool {
    fx_wf(v.x@) && fx_wf(v.y@) && fx_wf(v.z@)
}

pub open spec fn v3_zero() -> Vec3 {
    v3(0, 0, 0)
}

pub open spec fn v3_add(a: Vec3, b: Vec3) -> Vec3 {
    v3(fx_add(a.x@, b.x@), fx_add(a.y@, b.y@), fx_add(a.z@, b.z@))
}

pub open spec fn v3_sub(a: Vec3, b: Vec3) -> Vec3 {
    v3(fx_sub(a.x@, b.x@), fx_sub(a.y@, b.y@), fx_sub(a.z@, b.z@))
}

pub open spec fn v3_neg(a: Vec3) -> Vec3 {
    v3(fx_neg(a.x@), fx_neg(a.y@), fx_neg(a.z@))
}

/// Componentwise product (colour attenuation).
pub open spec fn v3_cmul(a: Vec3, b: Vec3) -> Vec3 {
    v3(fx_mul(a.x@, b.x@), fx_mul(a.y@, b.y@), fx_mul(a.z@, b.z@))
}

/// Scalar product.
pub open spec fn v3_scale(a: Vec3, f: int) -> Vec3 {
    v3(fx_mul(a.x@, f), fx_mul(a.y@, f), fx_mul(a.z@, f))
}

/// Scalar quotient.
pub open spec fn v3_div_fx(a: Vec3, f: int) -> Vec3
    recommends
        f != 0,
{
    v3(fx_div(a.x@, f), fx_div(a.y@, f), fx_div(a.z@, f))
}

pub open spec fn v3_dot(a: Vec3, b: Vec3) -> int {
    fx_add(fx_add(fx_mul(a.x@, b.x@), fx_mul(a.y@, b.y@)), fx_mul(a.z@, b.z@))
}

pub open spec fn v3_cross(a: Vec3, b: Vec3) -> Vec3 {
    v3(
        fx_sub(fx_mul(a.y@, b.z@), fx_mul(a.z@, b.y@)),
        fx_sub(fx_mul(a.z@, b.x@), fx_mul(a.x@, b.z@)),
        fx_sub(fx_mul(a.x@, b.y@), fx_mul(a.y@, b.x@)),
    )
}

pub open spec fn v3_len_sq(a: Vec3) -> int {
    v3_dot(a, a)
}

pub open spec fn v3_len(a: Vec3) -> int {
    fx_sqrt(v3_len_sq(a))
}

pub open spec fn v3_unit(a: Vec3) -> Vec3
    recommends
        v3_len(a) != 0,
{
    v3_div_fx(a, v3_len(a))
}

pub open spec fn v3_near_zero(a: Vec3) -> bool {
    -(MIN_DIM_RAW as int) < a.x@ < MIN_DIM_RAW as int
        && -(MIN_DIM_RAW as int) < a.y@ < MIN_DIM_RAW as int
        && -(MIN_DIM_RAW as int) < a.z@ < MIN_DIM_RAW as int
}

/// Reflection of `v` about the normal `n`: `v - 2 (v . n) n`.
pub open spec fn v3_reflect(v: Vec3, n: Vec3) -> Vec3 {
    v3_sub(v, v3_scale(n, fx_mul(2 * FX_SCALE as int, v3_dot(v, n))))
}

/// The incidence cosine used by refraction: `min(-(v . n), 1)`.
pub open spec fn refract_cos(v: Vec3, n: Vec3) -> int {
    let d = fx_neg(v3_dot(v, n));
    if d > FX_SCALE as int {
        FX_SCALE as int
    } else {
        d
    }
}

/// Refraction of the unit vector `v` at the normal `n` with index ratio
/// `ratio` (Snell's law); a radicand pushed below zero by rounding counts
/// as zero.
pub open spec fn v3_refract(v: Vec3, n: Vec3, ratio: int) -> Vec3 {
    let cos = refract_cos(v, n);
    let perp = v3_scale(v3_add(v, v3_scale(n, cos)), ratio);
    let k = fx_sub(FX_SCALE as int, v3_len_sq(perp));
    let kk = if k >= 0 {
        k
    } else {
        0
    };
    let par = v3_scale(n, fx_neg(fx_sqrt(kk)));
    v3_add(par, perp)
}

/// Left fold of addition over a sequence of vectors.
pub open spec fn v3_sum(s: Seq<Vec3>) -> Vec3
    decreases s.len(),
{
    if s.len() == 0 {
        v3_zero()
    } else {
        v3_add(v3_sum(s.drop_last()), s.last())
    }
}

/// The squared length of any vector is nonnegative and representable.
pub proof fn lemma_len_sq_nonneg(a: Vec3)
    ensures
        0 <= v3_len_sq(a),
        fx_wf(v3_len_sq(a)),
{
    lemma_sq_term_nonneg(a.x@);
    lemma_sq_term_nonneg(a.y@);
    lemma_sq_term_nonneg(a.z@);
}

/// A squared scalar term is nonnegative and representable.
proof fn lemma_sq_term_nonneg(x: int)
    ensures
        0 <= fx_mul(x, x),
        fx_wf(fx_mul(x, x)),
{
    assert(x * x >= 0) by (nonlinear_arith);
    lemma_tdiv_bound(x * x, FX_SCALE as int);
}

/// One squared term vanishes exactly on the sub-resolution band.
proof fn lemma_sq_zero_iff(x: int)
    ensures
        (fx_mul(x, x) == 0) <==> (-(MIN_DIM_RAW as int) < x < MIN_DIM_RAW as int),
{
    lemma_sq_term_nonneg(x);
    if -(MIN_DIM_RAW as int) < x < MIN_DIM_RAW as int {
        assert(0 <= x * x < 65536) by (nonlinear_arith)
            requires
                -256 < x < 256,
        ;
        vstd::arithmetic::div_mod::lemma_basic_div(x * x, 65536);
    } else {
        assert(x * x >= 65536) by (nonlinear_arith)
            requires
                x <= -256 || x >= 256,
        ;
        vstd::arithmetic::div_mod::lemma_div_non_zero(x * x, 65536);
    }
}

/// At fixed-point resolution, "zero length" is a quantization class, not the
/// single zero vector: the length is zero exactly when the squared length
/// is, which happens exactly when every component lies in the near-zero
/// band whose square truncates away.  A nonzero vector such as raw
/// `(100, 0, 0)` therefore has length zero.
pub proof fn lemma_len_zero_iff(a: Vec3)
    ensures
        (v3_len(a) == 0) <==> (v3_len_sq(a) == 0),
        (v3_len_sq(a) == 0) <==> v3_near_zero(a),
{
    lemma_sq_zero_iff(a.x@);
    lemma_sq_zero_iff(a.y@);
    lemma_sq_zero_iff(a.z@);
    lemma_sq_term_nonneg(a.x@);
    lemma_sq_term_nonneg(a.y@);
    lemma_sq_term_nonneg(a.z@);
    lemma_len_sq_nonneg(a);
    if v3_len_sq(a) == 0 {
        assert(crate::fixed::isqrt(0) == 0);
    } else {
        lemma_len_positive(a);
    }
}

/// A nonzero squared length gives a nonzero (indeed substantial) length.
pub proof fn lemma_len_positive(a: Vec3)
    requires
        v3_len_sq(a) > 0,
    ensures
        v3_len(a) >= 256,
{
    lemma_isqrt_mono(FX_SCALE as nat, (v3_len_sq(a) * FX_SCALE as int) as nat);
    assert((256 as nat) * (256 as nat) <= 65536 && 65536 < (257 as nat) * (257 as nat))
        by (nonlinear_arith);
    lemma_isqrt_unique(65536, 256);
}

impl Default for Vec3 {
    /// The zero vector.
    fn default() -> (r: Vec3)
        ensures
            r == v3_zero(),
    {
        Vec3 { x: Fx { raw: 0 }, y: Fx { raw: 0 }, z: Fx { raw: 0 } }
    }
}

impl Vec3 {
    pub fn new(x: Fx, y: Fx, z: Fx) -> (r: Vec3)
        ensures
            r == (Vec3 { x, y, z }),
    {
        Vec3 { x, y, z }
    }

    /// The vector of three integer components.
    pub fn from_ints(x: i64, y: i64, z: i64) -> (r: Vec3)
        ensures
            r == v3(
                crate::fixed::fx_sat(x * FX_SCALE as int),
                crate::fixed::fx_sat(y * FX_SCALE as int),
                crate::fixed::fx_sat(z * FX_SCALE as int),
            ),
    {
        Vec3 { x: Fx::from_int(x), y: Fx::from_int(y), z: Fx::from_int(z) }
    }

    pub fn add(self, o: Vec3) -> (r: Vec3)
        ensures
            r == v3_add(self, o),
            v3_wf(r),
    {
        Vec3 { x: self.x.add(o.x), y: self.y.add(o.y), z: self.z.add(o.z) }
    }

    pub fn sub(self, o: Vec3) -> (r: Vec3)
        ensures
            r == v3_sub(self, o),
            v3_wf(r),
    {
        Vec3 { x: self.x.sub(o.x), y: self.y.sub(o.y), z: self.z.sub(o.z) }
    }

    pub fn neg(self) -> (r: Vec3)
        ensures
            r == v3_neg(self),
            v3_wf(r),
    {
        Vec3 { x: self.x.neg(), y: self.y.neg(), z: self.z.neg() }
    }

    /// Componentwise product.
    pub fn mul(self, o: Vec3) -> (r: Vec3)
        ensures
            r == v3_cmul(self, o),
            v3_wf(r),
    {
        Vec3 { x: self.x.mul(o.x), y: self.y.mul(o.y), z: self.z.mul(o.z) }
    }

    /// Scalar product.
    pub fn mul_fx(self, f: Fx) -> (r: Vec3)
        ensures
            r == v3_scale(self, f@),
            v3_wf(r),
    {
        Vec3 { x: self.x.mul(f), y: self.y.mul(f), z: self.z.mul(f) }
    }

    /// Scalar quotient.
    pub fn div_fx(self, f: Fx) -> (r: Vec3)
        requires
            f@ != 0,
        ensures
            r == v3_div_fx(self, f@),
            v3_wf(r),
    {
        Vec3 { x: self.x.div(f), y: self.y.div(f), z: self.z.div(f) }
    }

    pub fn add_assign(&mut self, o: Vec3)
        ensures
            *final(self) == v3_add(*old(self), o),
    {
        *self = self.add(o);
    }

    pub fn mul_assign(&mut self, f: Fx)
        ensures
            *final(self) == v3_scale(*old(self), f@),
    {
        *self = self.mul_fx(f);
    }

    pub fn div_assign(&mut self, f: Fx)
        requires
            f@ != 0,
        ensures
            *final(self) == v3_div_fx(*old(self), f@),
    {
        *self = self.div_fx(f);
    }

    pub fn dot(&self, rhs: &Vec3) -> (r: Fx)
        ensures
            r@ == v3_dot(*self, *rhs),
    {
        self.x.mul(rhs.x).add(self.y.mul(rhs.y)).add(self.z.mul(rhs.z))
    }

    pub fn cross(&self, rhs: &Vec3) -> (r: Vec3)
        ensures
            r == v3_cross(*self, *rhs),
            v3_wf(r),
    {
        Vec3 {
            x: self.y.mul(rhs.z).sub(self.z.mul(rhs.y)),
            y: self.z.mul(rhs.x).sub(self.x.mul(rhs.z)),
            z: self.x.mul(rhs.y).sub(self.y.mul(rhs.x)),
        }
    }

    pub fn len_squared(&self) -> (r: Fx)
        ensures
            r@ == v3_len_sq(*self),
            r@ >= 0,
    {
        proof {
            lemma_len_sq_nonneg(*self);
        }
        self.dot(self)
    }

    pub fn len(&self) -> (r: Fx)
        ensures
            r@ == v3_len(*self),
            r@ >= 0,
    {
        self.len_squared().sqrt()
    }

    pub fn near_zero(&self) -> (r: bool)
        ensures
            r == v3_near_zero(*self),
    {
        (-MIN_DIM_RAW < self.x.raw && self.x.raw < MIN_DIM_RAW)
            && (-MIN_DIM_RAW < self.y.raw && self.y.raw < MIN_DIM_RAW)
            && (-MIN_DIM_RAW < self.z.raw && self.z.raw < MIN_DIM_RAW)
    }

    /// Normalize: divide by the length; the caller keeps zero-length vectors
    /// away.  For a vector of at least unit length the result is within nine
    /// quanta of unit squared length; below that, quantization distorts it.
    pub fn unit_vector(&self) -> (r: Vec3)
        requires
            v3_len(*self) != 0,
        ensures
            r == v3_unit(*self),
            v3_wf(r),
    {
        let l = self.len();
        self.div_fx(l)
    }

    /// Reflection about the normal `n`: `v - 2 (v . n) n`.
    pub fn reflect(&self, normal: &Vec3) -> (r: Vec3)
        ensures
            r == v3_reflect(*self, *normal),
            v3_wf(r),
    {
        let d = self.dot(normal);
        let two = Fx { raw: 2 * FX_SCALE };
        self.sub(normal.mul_fx(two.mul(d)))
    }

    /// Refraction at the normal `n` by Snell's law, for an incident unit
    /// vector; the caller rules out total internal reflection first.
    pub fn refract(&self, normal: &Vec3, refraction_ratio: Fx) -> (r: Vec3)
        ensures
            r == v3_refract(*self, *normal, refraction_ratio@),
            v3_wf(r),
    {
        let d = self.dot(normal).neg();
        let cos_theta = if d.raw > FX_SCALE {
            Fx { raw: FX_SCALE }
        } else {
            d
        };
        let r_out_perp = self.add(normal.mul_fx(cos_theta)).mul_fx(refraction_ratio);
        let k = Fx { raw: FX_SCALE }.sub(r_out_perp.len_squared());
        let kk = if k.raw >= 0 {
            k
        } else {
            Fx { raw: 0 }
        };
        let r_out_par = normal.mul_fx(kk.sqrt().neg());
        r_out_par.add(r_out_perp)
    }

    /// The sum of a list of vectors.
    pub fn sum(vs: &Vec<Vec3>) -> (r: Vec3)
        ensures
            r == v3_sum(vs@),
    {
        let mut acc = Vec3 { x: Fx { raw: 0 }, y: Fx { raw: 0 }, z: Fx { raw: 0 } };
        let mut i: usize = 0;
        proof {
            assert(vs@.subrange(0, 0) =~= Seq::<Vec3>::empty());
        }
        while i < vs.len()
            invariant
                i <= vs.len(),
                acc == v3_sum(vs@.subrange(0, i as int)),
            decreases vs.len() - i,
        {
            acc = acc.add(vs[i]);
            proof {
                assert(vs@.subrange(0, i + 1).drop_last() =~= vs@.subrange(0, i as int));
                assert(vs@.subrange(0, i + 1).last() == vs@[i as int]);
            }
            i = i + 1;
        }
        proof {
            assert(vs@.subrange(0, vs@.len() as int) =~= vs@);
        }
        acc
    }
}

impl Vec3 {
    /// A vector with uniform components in `[0, 1)`.
    pub fn random() -> (r: Vec3)
        ensures
            0 <= r.x@ < FX_SCALE as int,
            0 <= r.y@ < FX_SCALE as int,
            0 <= r.z@ < FX_SCALE as int,
            v3_wf(r),
    {
        Vec3 {
            x: crate::random::random_unit_fx(),
            y: crate::random::random_unit_fx(),
            z: crate::random::random_unit_fx(),
        }
    }

    /// A vector with uniform components in `[min, max)`.
    pub fn random_bounded(min: Fx, max: Fx) -> (r: Vec3)
        requires
            min@ < max@,
        ensures
            min@ <= r.x@ < max@,
            min@ <= r.y@ < max@,
            min@ <= r.z@ < max@,
    {
        Vec3 {
            x: crate::random::random_fx_in(min, max),
            y: crate::random::random_fx_in(min, max),
            z: crate::random::random_fx_in(min, max),
        }
    }

    /// A point strictly inside the unit ball (and away from the centre), by
    /// rejection sampling; after a bounded number of rejected draws a fixed
    /// interior point stands in.
    pub fn random_in_unit_sphere() -> (r: Vec3)
        ensures
            0 < v3_len_sq(r) < FX_SCALE as int,
            v3_wf(r),
    {
        let mut tries: usize = 0;
        while tries < 64
            decreases 64 - tries,
        {
            let p = Vec3::random_bounded(Fx { raw: -FX_SCALE }, Fx { raw: FX_SCALE });
            let lsq = p.len_squared();
            if 0 < lsq.raw && lsq.raw < FX_SCALE {
                proof {
                    lemma_wf_from_bounded(p);
                }
                return p;
            }
            tries = tries + 1;
        }
        Vec3 { x: Fx { raw: 16384 }, y: Fx { raw: 0 }, z: Fx { raw: 0 } }
    }

    /// A point inside the unit ball, on the same side as the normal `n`.
    pub fn random_in_hemisphere(n: &Vec3) -> (r: Vec3)
        ensures
            v3_dot(*n, r) >= 0,
            0 < v3_len_sq(r) < FX_SCALE as int,
            v3_wf(r),
    {
        let in_sphere = Vec3::random_in_unit_sphere();
        if n.dot(&in_sphere).raw < 0 {
            proof {
                lemma_dot_neg_right(*n, in_sphere);
                lemma_len_sq_neg(in_sphere);
            }
            in_sphere.neg()
        } else {
            in_sphere
        }
    }

    /// The normalization of a random point in the unit ball.
    pub fn random_unit_vec() -> (r: Vec3)
        ensures
            exists|p: Vec3| 0 < v3_len_sq(p) < FX_SCALE as int && r == v3_unit(p),
            v3_wf(r),
    {
        let p = Vec3::random_in_unit_sphere();
        proof {
            lemma_len_positive(p);
        }
        let u = p.unit_vector();
        proof {
            assert(0 < v3_len_sq(p) < FX_SCALE as int && u == v3_unit(p));
        }
        u
    }
}

/// A vector whose components lie strictly inside `(-1, 1)` is representable.
proof fn lemma_wf_from_bounded(p: Vec3)
    requires
        -(FX_SCALE as int) <= p.x@ < FX_SCALE as int,
        -(FX_SCALE as int) <= p.y@ < FX_SCALE as int,
        -(FX_SCALE as int) <= p.z@ < FX_SCALE as int,
    ensures
        v3_wf(p),
{
}

/// Negating the right factor negates a dot product, for a representable right
/// factor.
pub proof fn lemma_dot_neg_right(a: Vec3, b: Vec3)
    requires
        v3_wf(b),
    ensures
        v3_dot(a, v3_neg(b)) == -v3_dot(a, b),
{
    crate::fixed::lemma_mul_neg_right(a.x@, b.x@);
    crate::fixed::lemma_mul_neg_right(a.y@, b.y@);
    crate::fixed::lemma_mul_neg_right(a.z@, b.z@);
    let mx = fx_mul(a.x@, b.x@);
    let my = fx_mul(a.y@, b.y@);
    let mz = fx_mul(a.z@, b.z@);
    crate::fixed::lemma_sat_neg(mx + my);
    crate::fixed::lemma_sat_neg(fx_add(mx, my) + mz);
    assert(fx_add(-mx, -my) == -fx_add(mx, my));
    assert(fx_add(-fx_add(mx, my), -mz) == -fx_add(fx_add(mx, my), mz));
}

/// Negation keeps the squared length, for a representable vector.
pub proof fn lemma_len_sq_neg(v: Vec3)
    requires
        v3_wf(v),
    ensures
        v3_len_sq(v3_neg(v)) == v3_len_sq(v),
{
    assert((-v.x@) * (-v.x@) == v.x@ * v.x@) by (nonlinear_arith);
    assert((-v.y@) * (-v.y@) == v.y@ * v.y@) by (nonlinear_arith);
    assert((-v.z@) * (-v.z@) == v.z@ * v.z@) by (nonlinear_arith);
}

/// Clamp a channel into the displayable range `[0, MAX_CLAMP_RAW]`.
pub open spec fn fx_clamp(x: int) -> int {
    if x < 0 {
        0
    } else if x > MAX_CLAMP_RAW as int {
        MAX_CLAMP_RAW as int
    } else {
        x
    }
}

/// Clamp a channel into the displayable range.
pub fn clamp(x: Fx) -> (r: Fx)
    ensures
        r@ == fx_clamp(x@),
{
    if x.raw < 0 {
        Fx { raw: 0 }
    } else if x.raw > MAX_CLAMP_RAW {
        Fx { raw: MAX_CLAMP_RAW }
    } else {
        x
    }
}

/// One display channel from an accumulated sample sum: average, gamma-correct
/// by square root, clamp to `[0, MAX_CLAMP_RAW]`, and take the byte
/// `floor(256 * channel)`.  A negative accumulated channel counts as zero.
pub open spec fn colour_channel(acc: int, samples: int) -> int
    recommends
        samples >= 1,
{
    let avg = fx_div(acc, crate::fixed::fx_sat(samples * FX_SCALE as int));
    let root = if avg >= 0 {
        fx_sqrt(avg)
    } else {
        0
    };
    fx_clamp(root) / 256
}

/// Every channel byte lies in the display range, whatever the accumulated
/// sum.
pub proof fn lemma_colour_channel_in_range(acc: int, samples: int)
    requires
        samples >= 1,
    ensures
        0 <= colour_channel(acc, samples) <= 255,
{
    let avg = fx_div(acc, crate::fixed::fx_sat(samples * FX_SCALE as int));
    let root = if avg >= 0 {
        fx_sqrt(avg)
    } else {
        0
    };
    let c = fx_clamp(root);
    assert(0 <= c <= MAX_CLAMP_RAW as int);
    assert(0 <= c / 256 <= 255) by (nonlinear_arith)
        requires
            0 <= c <= 65470,
    ;
}

/// One quantized channel.
fn colour_byte(acc: Fx, samples: i64) -> (b: u8)
    requires
        samples >= 1,
    ensures
        b as int == colour_channel(acc@, samples as int),
{
    let n = Fx::from_int(samples);
    proof {
        assert(n@ > 0);
    }
    let avg = acc.div(n);
    let root = if avg.raw >= 0 {
        avg.sqrt()
    } else {
        Fx { raw: 0 }
    };
    let c = clamp(root);
    proof {
        lemma_colour_channel_in_range(acc@, samples as int);
    }
    ((c.raw as u64) / 256) as u8
}

/// The decimal digits of a channel byte.
pub open spec fn digit_char(d: int) -> char {
    if d == 0 {
        '0'
    } else if d == 1 {
        '1'
    } else if d == 2 {
        '2'
    } else if d == 3 {
        '3'
    } else if d == 4 {
        '4'
    } else if d == 5 {
        '5'
    } else if d == 6 {
        '6'
    } else if d == 7 {
        '7'
    } else if d == 8 {
        '8'
    } else {
        '9'
    }
}

/// The decimal rendering of a value below a thousand, without leading zeros.
pub open spec fn dec_chars(n: int) -> Seq<char>
    recommends
        0 <= n < 1000,
{
    if n >= 100 {
        seq![digit_char(n / 100), digit_char((n / 10) % 10), digit_char(n % 10)]
    } else if n >= 10 {
        seq![digit_char(n / 10), digit_char(n % 10)]
    } else {
        seq![digit_char(n)]
    }
}

/// One image line: three channel bytes in decimal, space-separated, newline
/// terminated.
pub open spec fn colour_line(r: int, g: int, b: int) -> Seq<char> {
    dec_chars(r) + seq![' '] + dec_chars(g) + seq![' '] + dec_chars(b) + seq!['\n']
}

/// Relies on std's `format!`: an unsigned integer renders as its decimal
/// digits, without sign or leading zeros.
#[verifier::external_body]
fn format_colour_line(r: u8, g: u8, b: u8) -> (s: String)
    ensures
        s@ == colour_line(r as int, g as int, b as int),
{
    format!("{} {} {}\n", r, g, b)
}

impl Vec3 {
    /// The quantized display bytes of this accumulated colour, for a given
    /// sample count.
    pub fn as_colour_bytes(&self, samples: i64) -> (v: Vec<u8>)
        requires
            samples >= 1,
        ensures
            v@.len() == 3,
            v@[0] == colour_channel(self.x@, samples as int),
            v@[1] == colour_channel(self.y@, samples as int),
            v@[2] == colour_channel(self.z@, samples as int),
    {
        let ir = colour_byte(self.x, samples);
        let ig = colour_byte(self.y, samples);
        let ib = colour_byte(self.z, samples);
        let mut v: Vec<u8> = Vec::new();
        v.push(ir);
        v.push(ig);
        v.push(ib);
        v
    }

    /// The quantized display line of this accumulated colour, for a given
    /// sample count.
    pub fn as_colour_string(&self, samples: i64) -> (s: String)
        requires
            samples >= 1,
        ensures
            s@ == colour_line(
                colour_channel(self.x@, samples as int),
                colour_channel(self.y@, samples as int),
                colour_channel(self.z@, samples as int),
            ),
    {
        let ir = colour_byte(self.x, samples);
        let ig = colour_byte(self.y, samples);
        let ib = colour_byte(self.z, samples);
        format_colour_line(ir, ig, ib)
    }
}

} // verus!

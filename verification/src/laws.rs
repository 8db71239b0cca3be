//! The algebraic and geometric laws the renderer guarantees, as proved
//! statements.

use vstd::prelude::*;

verus! {

use crate::fixed::FX_SCALE;
use crate::fixed::fx_add;
use crate::fixed::fx_mul;
use crate::fixed::fx_sqrt;
use crate::fixed::fx_tdiv;
use crate::fixed::fx_div;
use crate::fixed::fx_wf;
use crate::fixed::lemma_isqrt_unique;
use crate::fixed::lemma_mul_comm;
use crate::fixed::lemma_mul_neg_left;
use crate::fixed::lemma_mul_neg_right;
use crate::fixed::lemma_mul_one;
use crate::fixed::lemma_mul_zero;
use crate::fixed::lemma_sat_neg;
use crate::hittable::HitRecord;
use crate::hittable::closer_hit;
use crate::hittable::best_hit_from;
use crate::hittable::list_hit;
use crate::hittable::lemma_list_hit_finds_closest;
use crate::material::Material;
use crate::material::metal_dir;
use crate::material::metal_scatter;
use crate::ray::Ray;
use crate::sphere::Sphere;
use crate::sphere::sphere_hit;
use crate::vec3::Colour;
use crate::vec3::Vec3;
use crate::vec3::v3_add;
use crate::vec3::v3_dot;
use crate::vec3::v3_len_sq;
use crate::vec3::v3_neg;
use crate::vec3::v3_reflect;
use crate::vec3::v3_refract;
use crate::vec3::v3_scale;
use crate::vec3::v3_unit;
use crate::vec3::v3_wf;

/// Squares of products regroup: `a^2 b^2 == (ab)^2`.
proof fn lemma_sq_mul(a: int, b: int)
    ensures
        (a * a) * (b * b) == (a * b) * (a * b),
{
    assert((a * a) * (b * b) == (a * b) * (a * b)) by (nonlinear_arith);
}

/// The dot product is commutative, rounding included.
pub proof fn lemma_dot_commutative(a: Vec3, b: Vec3)
    ensures
        v3_dot(a, b) == v3_dot(b, a),
{
    lemma_mul_comm(a.x@, b.x@);
    lemma_mul_comm(a.y@, b.y@);
    lemma_mul_comm(a.z@, b.z@);
}

/// On whole-number vectors of moderate size the executable dot product is
/// exact: no truncation and no saturation occur, so the integer-model laws
/// below describe it directly.
pub proof fn lemma_dot_exact_on_integers(
    a: Vec3,
    b: Vec3,
    m1: int,
    m2: int,
    m3: int,
    n1: int,
    n2: int,
    n3: int,
)
    requires
        a.x@ == m1 * (FX_SCALE as int),
        a.y@ == m2 * (FX_SCALE as int),
        a.z@ == m3 * (FX_SCALE as int),
        b.x@ == n1 * (FX_SCALE as int),
        b.y@ == n2 * (FX_SCALE as int),
        b.z@ == n3 * (FX_SCALE as int),
        -4194304 <= m1 <= 4194304,
        -4194304 <= m2 <= 4194304,
        -4194304 <= m3 <= 4194304,
        -4194304 <= n1 <= 4194304,
        -4194304 <= n2 <= 4194304,
        -4194304 <= n3 <= 4194304,
    ensures
        v3_dot(a, b) == (m1 * n1 + m2 * n2 + m3 * n3) * (FX_SCALE as int),
{
    lemma_dot_term_exact(a.x@, b.x@, m1, n1);
    lemma_dot_term_exact(a.y@, b.y@, m2, n2);
    lemma_dot_term_exact(a.z@, b.z@, m3, n3);
    let k1 = m1 * n1;
    let k2 = m2 * n2;
    let k3 = m3 * n3;
    assert(-17592186044416 <= k1 <= 17592186044416) by (nonlinear_arith)
        requires
            -4194304 <= m1 <= 4194304,
            -4194304 <= n1 <= 4194304,
            k1 == m1 * n1,
    ;
    assert(-17592186044416 <= k2 <= 17592186044416) by (nonlinear_arith)
        requires
            -4194304 <= m2 <= 4194304,
            -4194304 <= n2 <= 4194304,
            k2 == m2 * n2,
    ;
    assert(-17592186044416 <= k3 <= 17592186044416) by (nonlinear_arith)
        requires
            -4194304 <= m3 <= 4194304,
            -4194304 <= n3 <= 4194304,
            k3 == m3 * n3,
    ;
    assert((k1 + k2) * (FX_SCALE as int) == k1 * (FX_SCALE as int) + k2 * (FX_SCALE as int))
        by (nonlinear_arith);
    assert((k1 + k2 + k3) * (FX_SCALE as int) == (k1 + k2) * (FX_SCALE as int) + k3 * (
    FX_SCALE as int)) by (nonlinear_arith);
    assert(fx_wf(k1 * (FX_SCALE as int)) && fx_wf((k1 + k2) * (FX_SCALE as int)) && fx_wf((k1 + k2
        + k3) * (FX_SCALE as int))) by (nonlinear_arith)
        requires
            -17592186044416 <= k1 <= 17592186044416,
            -17592186044416 <= k2 <= 17592186044416,
            -17592186044416 <= k3 <= 17592186044416,
    ;
}

/// On whole-number vectors of moderate size the executable cross product is
/// exact too.
pub proof fn lemma_cross_exact_on_integers(
    a: Vec3,
    b: Vec3,
    m1: int,
    m2: int,
    m3: int,
    n1: int,
    n2: int,
    n3: int,
)
    requires
        a.x@ == m1 * (FX_SCALE as int),
        a.y@ == m2 * (FX_SCALE as int),
        a.z@ == m3 * (FX_SCALE as int),
        b.x@ == n1 * (FX_SCALE as int),
        b.y@ == n2 * (FX_SCALE as int),
        b.z@ == n3 * (FX_SCALE as int),
        -4194304 <= m1 <= 4194304,
        -4194304 <= m2 <= 4194304,
        -4194304 <= m3 <= 4194304,
        -4194304 <= n1 <= 4194304,
        -4194304 <= n2 <= 4194304,
        -4194304 <= n3 <= 4194304,
    ensures
        crate::vec3::v3_cross(a, b) == crate::vec3::v3(
            (m2 * n3 - m3 * n2) * (FX_SCALE as int),
            (m3 * n1 - m1 * n3) * (FX_SCALE as int),
            (m1 * n2 - m2 * n1) * (FX_SCALE as int),
        ),
{
    lemma_dot_term_exact(a.y@, b.z@, m2, n3);
    lemma_dot_term_exact(a.z@, b.y@, m3, n2);
    lemma_dot_term_exact(a.z@, b.x@, m3, n1);
    lemma_dot_term_exact(a.x@, b.z@, m1, n3);
    lemma_dot_term_exact(a.x@, b.y@, m1, n2);
    lemma_dot_term_exact(a.y@, b.x@, m2, n1);
    lemma_cross_component(m2, n3, m3, n2);
    lemma_cross_component(m3, n1, m1, n3);
    lemma_cross_component(m1, n2, m2, n1);
}

/// One exact component of the cross product: the difference of two exact
/// terms neither truncates nor saturates.
proof fn lemma_cross_component(ma: int, na: int, mb: int, nb: int)
    requires
        -4194304 <= ma <= 4194304,
        -4194304 <= na <= 4194304,
        -4194304 <= mb <= 4194304,
        -4194304 <= nb <= 4194304,
    ensures
        crate::fixed::fx_sub((ma * na) * (FX_SCALE as int), (mb * nb) * (FX_SCALE as int)) == (ma
            * na - mb * nb) * (FX_SCALE as int),
{
    assert((ma * na) * (FX_SCALE as int) - (mb * nb) * (FX_SCALE as int) == (ma * na - mb * nb) * (
    FX_SCALE as int)) by (nonlinear_arith);
    assert(fx_wf((ma * na - mb * nb) * (FX_SCALE as int))) by (nonlinear_arith)
        requires
            -4194304 <= ma <= 4194304,
            -4194304 <= na <= 4194304,
            -4194304 <= mb <= 4194304,
            -4194304 <= nb <= 4194304,
    ;
}

/// One exact term of the dot product: multiplying whole numbers loses
/// nothing to rescaling.
proof fn lemma_dot_term_exact(x: int, y: int, m: int, n: int)
    requires
        x == m * (FX_SCALE as int),
        y == n * (FX_SCALE as int),
        -4194304 <= m <= 4194304,
        -4194304 <= n <= 4194304,
    ensures
        fx_mul(x, y) == (m * n) * (FX_SCALE as int),
{
    assert(x * y == ((m * n) * (FX_SCALE as int)) * (FX_SCALE as int)) by (nonlinear_arith)
        requires
            x == m * (FX_SCALE as int),
            y == n * (FX_SCALE as int),
    ;
    crate::fixed::lemma_tdiv_multiple((m * n) * (FX_SCALE as int));
    assert(fx_wf((m * n) * (FX_SCALE as int))) by (nonlinear_arith)
        requires
            -4194304 <= m <= 4194304,
            -4194304 <= n <= 4194304,
    ;
}

/// Lagrange's identity over the exact integer components: the squared cross
/// product plus the squared dot product equals the product of the squared
/// lengths.  The executable cross and dot compute these terms rescaled with
/// truncation; the identity is stated of the exact products, which
/// `lemma_dot_exact_on_integers` shows the executable operations reproduce
/// on whole-number vectors.
pub proof fn lemma_cross_dot_lagrange(x1: int, y1: int, z1: int, x2: int, y2: int, z2: int)
    ensures
        (y1 * z2 - z1 * y2) * (y1 * z2 - z1 * y2) + (z1 * x2 - x1 * z2) * (z1 * x2 - x1 * z2) + (
        x1 * y2 - y1 * x2) * (x1 * y2 - y1 * x2) + (x1 * x2 + y1 * y2 + z1 * z2) * (x1 * x2 + y1
            * y2 + z1 * z2) == (x1 * x1 + y1 * y1 + z1 * z1) * (x2 * x2 + y2 * y2 + z2 * z2),
{
    let p = x1 * x2;
    let q = y1 * y2;
    let r = z1 * z2;
    let u1 = y1 * z2;
    let u2 = z1 * y2;
    let v1 = z1 * x2;
    let v2 = x1 * z2;
    let w1 = x1 * y2;
    let w2 = y1 * x2;
    assert(u1 * u2 == q * r) by (nonlinear_arith)
        requires
            u1 == y1 * z2,
            u2 == z1 * y2,
            q == y1 * y2,
            r == z1 * z2,
    ;
    assert(v1 * v2 == p * r) by (nonlinear_arith)
        requires
            v1 == z1 * x2,
            v2 == x1 * z2,
            p == x1 * x2,
            r == z1 * z2,
    ;
    assert(w1 * w2 == p * q) by (nonlinear_arith)
        requires
            w1 == x1 * y2,
            w2 == y1 * x2,
            p == x1 * x2,
            q == y1 * y2,
    ;
    let sb = x2 * x2 + y2 * y2 + z2 * z2;
    let a1 = x1 * x1;
    let a2 = y1 * y1;
    let a3 = z1 * z1;
    assert((a1 + a2 + a3) * sb == a1 * sb + a2 * sb + a3 * sb) by (nonlinear_arith);
    assert(a1 * sb == a1 * (x2 * x2) + a1 * (y2 * y2) + a1 * (z2 * z2)) by (nonlinear_arith)
        requires
            sb == x2 * x2 + y2 * y2 + z2 * z2,
    ;
    assert(a2 * sb == a2 * (x2 * x2) + a2 * (y2 * y2) + a2 * (z2 * z2)) by (nonlinear_arith)
        requires
            sb == x2 * x2 + y2 * y2 + z2 * z2,
    ;
    assert(a3 * sb == a3 * (x2 * x2) + a3 * (y2 * y2) + a3 * (z2 * z2)) by (nonlinear_arith)
        requires
            sb == x2 * x2 + y2 * y2 + z2 * z2,
    ;
    lemma_sq_mul(x1, x2);
    lemma_sq_mul(x1, y2);
    lemma_sq_mul(x1, z2);
    lemma_sq_mul(y1, x2);
    lemma_sq_mul(y1, y2);
    lemma_sq_mul(y1, z2);
    lemma_sq_mul(z1, x2);
    lemma_sq_mul(z1, y2);
    lemma_sq_mul(z1, z2);
    assert((a1 + a2 + a3) * sb == p * p + w1 * w1 + v2 * v2 + w2 * w2 + q * q + u1 * u1 + v1 * v1
        + u2 * u2 + r * r);
    assert((u1 - u2) * (u1 - u2) == u1 * u1 - 2 * (u1 * u2) + u2 * u2) by (nonlinear_arith);
    assert((v1 - v2) * (v1 - v2) == v1 * v1 - 2 * (v1 * v2) + v2 * v2) by (nonlinear_arith);
    assert((w1 - w2) * (w1 - w2) == w1 * w1 - 2 * (w1 * w2) + w2 * w2) by (nonlinear_arith);
    assert((p + q + r) * (p + q + r) == p * p + q * q + r * r + 2 * (p * q) + 2 * (p * r) + 2 * (q
        * r)) by (nonlinear_arith);
}

/// The cross product is antisymmetric, rounding and saturation included.
pub proof fn lemma_cross_antisymmetric(a: Vec3, b: Vec3)
    ensures
        crate::vec3::v3_cross(b, a) == v3_neg(crate::vec3::v3_cross(a, b)),
{
    lemma_mul_comm(b.y@, a.z@);
    lemma_mul_comm(b.z@, a.y@);
    lemma_mul_comm(b.z@, a.x@);
    lemma_mul_comm(b.x@, a.z@);
    lemma_mul_comm(b.x@, a.y@);
    lemma_mul_comm(b.y@, a.x@);
    lemma_sat_neg(fx_mul(a.y@, b.z@) - fx_mul(a.z@, b.y@));
    lemma_sat_neg(fx_mul(a.z@, b.x@) - fx_mul(a.x@, b.z@));
    lemma_sat_neg(fx_mul(a.x@, b.y@) - fx_mul(a.y@, b.x@));
}

/// The cross product is orthogonal to its first factor, over the exact
/// integer components.
pub proof fn lemma_cross_orthogonal(x1: int, y1: int, z1: int, x2: int, y2: int, z2: int)
    ensures
        (y1 * z2 - z1 * y2) * x1 + (z1 * x2 - x1 * z2) * y1 + (x1 * y2 - y1 * x2) * z1 == 0,
{
    assert((y1 * z2 - z1 * y2) * x1 + (z1 * x2 - x1 * z2) * y1 + (x1 * y2 - y1 * x2) * z1 == 0)
        by (nonlinear_arith);
}

/// Reflection preserves the squared length, over the exact integer
/// components, whenever the normal has unit squared length there.
pub proof fn lemma_reflect_preserves_length(
    vx: int,
    vy: int,
    vz: int,
    nx: int,
    ny: int,
    nz: int,
)
    requires
        nx * nx + ny * ny + nz * nz == 1,
    ensures
        (vx - 2 * (vx * nx + vy * ny + vz * nz) * nx) * (vx - 2 * (vx * nx + vy * ny + vz * nz)
            * nx) + (vy - 2 * (vx * nx + vy * ny + vz * nz) * ny) * (vy - 2 * (vx * nx + vy * ny
            + vz * nz) * ny) + (vz - 2 * (vx * nx + vy * ny + vz * nz) * nz) * (vz - 2 * (vx * nx
            + vy * ny + vz * nz) * nz) == vx * vx + vy * vy + vz * vz,
{
    let d = vx * nx + vy * ny + vz * nz;
    assert((vx - 2 * d * nx) * (vx - 2 * d * nx) + (vy - 2 * d * ny) * (vy - 2 * d * ny) + (vz - 2
        * d * nz) * (vz - 2 * d * nz) == vx * vx + vy * vy + vz * vz) by (nonlinear_arith)
        requires
            nx * nx + ny * ny + nz * nz == 1,
            d == vx * nx + vy * ny + vz * nz,
    ;
}

/// Normalization yields squared length exactly one for an axis-aligned
/// vector with a positive whole-number component; elsewhere truncation can
/// leave the squared length one rounding step short.
pub proof fn lemma_unit_axis_length(v: Vec3)
    requires
        v.y@ == 0,
        v.z@ == 0,
        0 < v.x@ < 549755813888,
        v.x@ % (FX_SCALE as int) == 0,
    ensures
        v3_len_sq(v3_unit(v)) == FX_SCALE as int,
{
    let c = v.x@;
    let m = c / (FX_SCALE as int);
    assert(c == m * (FX_SCALE as int));
    lemma_mul_zero(0);
    // squared length of v: exactly m * c, with no truncation loss
    assert(c * c == (m * m * (FX_SCALE as int)) * (FX_SCALE as int)) by (nonlinear_arith)
        requires
            c == m * (FX_SCALE as int),
    ;
    assert(c * c >= 0) by (nonlinear_arith);
    vstd::arithmetic::div_mod::lemma_div_by_multiple(m * m * (FX_SCALE as int), FX_SCALE as int);
    assert(fx_tdiv(c * c, FX_SCALE as int) == m * m * (FX_SCALE as int));
    assert(0 < m < 8388608) by (nonlinear_arith)
        requires
            c == m * (FX_SCALE as int),
            0 < c < 549755813888,
    ;
    assert(m * m * (FX_SCALE as int) < 4611686018427387904) by (nonlinear_arith)
        requires
            0 < m < 8388608,
    ;
    assert(v3_len_sq(v) == m * m * (FX_SCALE as int));
    // its square root: exactly c
    assert(m * m * (FX_SCALE as int) * (FX_SCALE as int) == c * c) by (nonlinear_arith)
        requires
            c == m * (FX_SCALE as int),
    ;
    assert(c * c < (c + 1) * (c + 1)) by (nonlinear_arith)
        requires
            c > 0,
    ;
    lemma_isqrt_unique((c * c) as nat, c as nat);
    assert(crate::vec3::v3_len(v) == c);
    // the unit vector: exactly (1, 0, 0)
    vstd::arithmetic::div_mod::lemma_div_by_multiple(FX_SCALE as int, c);
    assert((FX_SCALE as int) * c == c * (FX_SCALE as int)) by (nonlinear_arith);
    assert(fx_div(c, c) == FX_SCALE as int);
    assert(fx_div(0, c) == 0);
    // and its squared length: exactly one
    lemma_mul_one(FX_SCALE as int);
}

/// A truncated square with its floor bracket, unsaturated for a component
/// of moderate size.
proof fn lemma_sq_term_exact(x: int)
    requires
        -274877906944 <= x <= 274877906944,
    ensures
        0 <= fx_mul(x, x) <= 1152921504606846976,
        fx_mul(x, x) * (FX_SCALE as int) <= x * x,
        x * x < fx_mul(x, x) * (FX_SCALE as int) + FX_SCALE as int,
{
    let s = FX_SCALE as int;
    assert(0 <= x * x <= 75557863725914323419136) by (nonlinear_arith)
        requires
            -274877906944 <= x <= 274877906944,
    ;
    vstd::arithmetic::div_mod::lemma_div_is_ordered(x * x, 75557863725914323419136, s);
    crate::fixed::lemma_tdiv_bound(x * x, s);
    crate::fixed::lemma_tdiv_mul_bracket(x * x, s);
}

/// One normalized component: unsaturated, of moderate size, and with its
/// square bounded through the division by the length.
proof fn lemma_unit_comp_exact(x: int, d: int)
    requires
        -274877906944 <= x <= 274877906944,
        d >= FX_SCALE as int,
    ensures
        -274877906944 <= fx_div(x, d) <= 274877906944,
        (fx_div(x, d) * fx_div(x, d)) * (d * d) <= (x * x) * ((FX_SCALE as int) * (
        FX_SCALE as int)),
        (fx_div(x, d) * fx_div(x, d)) * (d * d) >= (x * x) * ((FX_SCALE as int) * (
        FX_SCALE as int)) - 2 * d * ((FX_SCALE as int) * (if x >= 0 {
            x
        } else {
            -x
        })),
{
    let s = FX_SCALE as int;
    let w = x * s;
    let q = crate::fixed::fx_tdiv(w, d);
    crate::fixed::lemma_tdiv_bound(w, d);
    if w >= 0 {
        crate::fixed::lemma_tdiv_mul_bracket(w, d);
        assert(0 <= q <= 274877906944) by (nonlinear_arith)
            requires
                0 <= q,
                q * d <= w,
                w == x * s,
                x <= 274877906944,
                d >= s,
                s == 65536,
        ;
    } else {
        crate::fixed::lemma_tdiv_mul_bracket(-w, d);
        assert(crate::fixed::fx_tdiv(-w, d) == -q);
        assert(-274877906944 <= q <= 0) by (nonlinear_arith)
            requires
                q <= 0,
                (-q) * d <= -w,
                w == x * s,
                -274877906944 <= x,
                d >= s,
                s == 65536,
        ;
    }
    assert(fx_div(x, d) == q);
    crate::fixed::lemma_tdiv_sq_le(w, d);
    crate::fixed::lemma_tdiv_sq_ge(w, d);
    assert((x * s) * (x * s) == (x * x) * (s * s)) by (nonlinear_arith);
    assert((if w >= 0 {
        w
    } else {
        -w
    }) == s * (if x >= 0 {
        x
    } else {
        -x
    })) by (nonlinear_arith)
        requires
            w == x * s,
            s == 65536,
    ;
}

/// Normalization is unit length up to nine raw quanta (9/65536, about
/// 0.014%) either way, for any vector of at least unit length whose
/// components are moderate.  The minimum-magnitude premise is essential:
/// below one unit the truncated square root is too coarse, and a
/// sub-resolution input such as raw (0, 362, 0) normalizes to squared
/// length near two.
#[verifier::rlimit(100)]
pub proof fn lemma_unit_length_bounds(v: Vec3)
    requires
        v3_len_sq(v) >= FX_SCALE as int,
        -274877906944 <= v.x@ <= 274877906944,
        -274877906944 <= v.y@ <= 274877906944,
        -274877906944 <= v.z@ <= 274877906944,
    ensures
        FX_SCALE as int - 9 <= v3_len_sq(v3_unit(v)) <= FX_SCALE as int + 9,
{
    let s = FX_SCALE as int;
    let l = v3_len_sq(v);
    let sv = v.x@ * v.x@ + v.y@ * v.y@ + v.z@ * v.z@;

    // the squared length is an exact, unsaturated sum of truncated squares
    lemma_sq_term_exact(v.x@);
    lemma_sq_term_exact(v.y@);
    lemma_sq_term_exact(v.z@);
    let qx = fx_mul(v.x@, v.x@);
    let qy = fx_mul(v.y@, v.y@);
    let qz = fx_mul(v.z@, v.z@);
    assert(l == qx + qy + qz);
    assert(l * s <= sv && sv < l * s + 3 * s) by (nonlinear_arith)
        requires
            l == qx + qy + qz,
            qx * s <= v.x@ * v.x@ < qx * s + s,
            qy * s <= v.y@ * v.y@ < qy * s + s,
            qz * s <= v.z@ * v.z@ < qz * s + s,
            sv == v.x@ * v.x@ + v.y@ * v.y@ + v.z@ * v.z@,
    ;

    // the length brackets the square root of the scaled squared length
    let d = crate::vec3::v3_len(v);
    assert(l * s >= 0) by (nonlinear_arith)
        requires
            l >= s,
            s == 65536,
    ;
    crate::fixed::lemma_isqrt_bounds((l * s) as nat);
    assert(d * d <= l * s);
    assert(l * s < (d + 1) * (d + 1));

    // a vector of at least unit length has length at least one
    assert((s * s) as nat <= (l * s) as nat) by (nonlinear_arith)
        requires
            l >= s,
            s == 65536,
    ;
    crate::fixed::lemma_isqrt_mono((s * s) as nat, (l * s) as nat);
    assert((65536 as nat) * (65536 as nat) <= 4294967296 && 4294967296 < (65537 as nat) * (
    65537 as nat)) by (nonlinear_arith);
    lemma_isqrt_unique(4294967296, 65536);
    assert(d >= s);

    // the normalized components, unsaturated, with their squares bounded
    lemma_unit_comp_exact(v.x@, d);
    lemma_unit_comp_exact(v.y@, d);
    lemma_unit_comp_exact(v.z@, d);
    let ux = fx_div(v.x@, d);
    let uy = fx_div(v.y@, d);
    let uz = fx_div(v.z@, d);
    let u = v3_unit(v);
    assert(u.x@ == ux && u.y@ == uy && u.z@ == uz);
    let su = ux * ux + uy * uy + uz * uz;
    assert(su * (d * d) <= sv * (s * s)) by (nonlinear_arith)
        requires
            (ux * ux) * (d * d) <= (v.x@ * v.x@) * (s * s),
            (uy * uy) * (d * d) <= (v.y@ * v.y@) * (s * s),
            (uz * uz) * (d * d) <= (v.z@ * v.z@) * (s * s),
            su == ux * ux + uy * uy + uz * uz,
            sv == v.x@ * v.x@ + v.y@ * v.y@ + v.z@ * v.z@,
    ;

    // the squared length of the result, again an exact sum
    lemma_sq_term_exact(ux);
    lemma_sq_term_exact(uy);
    lemma_sq_term_exact(uz);
    let bigu = v3_len_sq(u);
    assert(bigu == fx_mul(ux, ux) + fx_mul(uy, uy) + fx_mul(uz, uz));
    assert(bigu * s <= su) by (nonlinear_arith)
        requires
            bigu == fx_mul(ux, ux) + fx_mul(uy, uy) + fx_mul(uz, uz),
            fx_mul(ux, ux) * s <= ux * ux,
            fx_mul(uy, uy) * s <= uy * uy,
            fx_mul(uz, uz) * s <= uz * uz,
            su == ux * ux + uy * uy + uz * uz,
    ;

    // the key inequality, from the square-root bracket
    assert((s + 9) * (d * d) >= (s * s) * (l + 3)) by (nonlinear_arith)
        requires
            d >= 65536,
            s == 65536,
            l * s < (d + 1) * (d + 1),
    ;

    // assemble and cancel the positive factor
    assert(bigu * (s * (d * d)) <= su * (d * d)) by (nonlinear_arith)
        requires
            bigu * s <= su,
            d * d >= 0,
    ;
    assert(sv * (s * s) < (l * s + 3 * s) * (s * s)) by (nonlinear_arith)
        requires
            sv < l * s + 3 * s,
            s == 65536,
    ;
    assert((l * s + 3 * s) * (s * s) == s * ((s * s) * (l + 3))) by (nonlinear_arith);
    assert(s * ((s * s) * (l + 3)) <= s * ((s + 9) * (d * d))) by (nonlinear_arith)
        requires
            (s + 9) * (d * d) >= (s * s) * (l + 3),
            s > 0,
    ;
    assert(s * ((s + 9) * (d * d)) == (s + 9) * (s * (d * d))) by (nonlinear_arith);
    assert(s * (d * d) > 0) by (nonlinear_arith)
        requires
            d >= 65536,
            s == 65536,
    ;
    assert(bigu <= s + 9) by (nonlinear_arith)
        requires
            bigu * (s * (d * d)) <= (s + 9) * (s * (d * d)),
            s * (d * d) > 0,
    ;

    // the other side: the components are at most one divisor above the
    // length, so the division loses at most a bounded cross term
    let ax = if v.x@ >= 0 {
        v.x@
    } else {
        -v.x@
    };
    let ay = if v.y@ >= 0 {
        v.y@
    } else {
        -v.y@
    };
    let az = if v.z@ >= 0 {
        v.z@
    } else {
        -v.z@
    };
    assert(ax * ax == v.x@ * v.x@ && ay * ay == v.y@ * v.y@ && az * az == v.z@ * v.z@)
        by (nonlinear_arith)
        requires
            ax == (if v.x@ >= 0 {
                v.x@
            } else {
                -v.x@
            }),
            ay == (if v.y@ >= 0 {
                v.y@
            } else {
                -v.y@
            }),
            az == (if v.z@ >= 0 {
                v.z@
            } else {
                -v.z@
            }),
    ;
    assert(v.x@ * v.x@ >= 0 && v.y@ * v.y@ >= 0 && v.z@ * v.z@ >= 0) by (nonlinear_arith);
    assert(d * d > 0) by (nonlinear_arith)
        requires
            d >= 65536,
    ;
    assert(ax <= d + 256 && ay <= d + 256 && az <= d + 256) by (nonlinear_arith)
        requires
            ax * ax <= sv,
            ay * ay <= sv,
            az * az <= sv,
            sv < l * s + 3 * s,
            l * s < (d + 1) * (d + 1),
            d >= 65536,
            s == 65536,
            ax >= 0,
            ay >= 0,
            az >= 0,
    ;
    assert(su * (d * d) >= (s * s) * sv - 2 * d * (s * (ax + ay + az))) by (nonlinear_arith)
        requires
            (ux * ux) * (d * d) >= (v.x@ * v.x@) * (s * s) - 2 * d * (s * ax),
            (uy * uy) * (d * d) >= (v.y@ * v.y@) * (s * s) - 2 * d * (s * ay),
            (uz * uz) * (d * d) >= (v.z@ * v.z@) * (s * s) - 2 * d * (s * az),
            su == ux * ux + uy * uy + uz * uz,
            sv == v.x@ * v.x@ + v.y@ * v.y@ + v.z@ * v.z@,
    ;
    assert(su * (d * d) >= ((s * s - 6 * s - 1536) * (d * d))) by (nonlinear_arith)
        requires
            su * (d * d) >= (s * s) * sv - 2 * d * (s * (ax + ay + az)),
            sv >= l * s,
            l * s >= d * d,
            ax + ay + az <= 3 * d + 768,
            d >= s,
            s == 65536,
    ;
    assert(su >= s * s - 6 * s - 1536) by (nonlinear_arith)
        requires
            su * (d * d) >= (s * s - 6 * s - 1536) * (d * d),
            d * d > 0,
    ;
    assert(bigu * s >= su - 3 * s) by (nonlinear_arith)
        requires
            bigu == fx_mul(ux, ux) + fx_mul(uy, uy) + fx_mul(uz, uz),
            ux * ux < fx_mul(ux, ux) * s + s,
            uy * uy < fx_mul(uy, uy) * s + s,
            uz * uz < fx_mul(uz, uz) * s + s,
            su == ux * ux + uy * uy + uz * uz,
    ;
    assert(bigu >= s - 9) by (nonlinear_arith)
        requires
            bigu * s >= s * s - 6 * s - 1536 - 3 * s,
            s == 65536,
    ;
}
/// incident unit vector is the reversed unit normal, the refracted direction
/// equals the incident direction, whatever the index ratio.
pub proof fn lemma_refract_normal_incidence(n: Vec3, ratio: int)
    requires
        v3_wf(n),
        v3_dot(n, n) == FX_SCALE as int,
    ensures
        v3_refract(v3_neg(n), n, ratio) == v3_neg(n),
{
    let v = v3_neg(n);
    lemma_mul_neg_left(n.x@, n.x@);
    lemma_mul_neg_left(n.y@, n.y@);
    lemma_mul_neg_left(n.z@, n.z@);
    let mx = fx_mul(n.x@, n.x@);
    let my = fx_mul(n.y@, n.y@);
    let mz = fx_mul(n.z@, n.z@);
    lemma_sat_neg(mx + my);
    lemma_sat_neg(fx_add(mx, my) + mz);
    assert(v3_dot(v, n) == -(FX_SCALE as int));
    assert(crate::vec3::refract_cos(v, n) == FX_SCALE as int);
    // cos * n adds back the unit normal exactly, cancelling v
    lemma_mul_one(n.x@);
    lemma_mul_one(n.y@);
    lemma_mul_one(n.z@);
    assert(v3_add(v, v3_scale(n, FX_SCALE as int)) == crate::vec3::v3_zero());
    lemma_mul_zero(ratio);
    let perp = v3_scale(v3_add(v, v3_scale(n, FX_SCALE as int)), ratio);
    assert(perp == crate::vec3::v3_zero());
    lemma_mul_zero(0);
    assert(v3_len_sq(perp) == 0);
    // the parallel part: minus the unit normal, which is v
    assert((65536 as nat) * (65536 as nat) == 4294967296) by (nonlinear_arith);
    assert(4294967296 < (65537 as nat) * (65537 as nat)) by (nonlinear_arith);
    lemma_isqrt_unique(4294967296, 65536);
    assert(fx_sqrt(FX_SCALE as int) == FX_SCALE as int);
    lemma_mul_neg_right(n.x@, FX_SCALE as int);
    lemma_mul_neg_right(n.y@, FX_SCALE as int);
    lemma_mul_neg_right(n.z@, FX_SCALE as int);
    assert(v3_scale(n, -(FX_SCALE as int)) == v);
    assert(v3_refract(v, n, ratio) == v);
}

/// A dielectric pass-through round trip: refracting at exact normal
/// incidence on entry and again on exit (against the same oriented unit
/// normal, as on a diametric sphere chord) leaves the direction unchanged,
/// whatever the two index ratios.
pub proof fn lemma_dielectric_round_trip(n: Vec3, ratio_in: int, ratio_out: int)
    requires
        v3_wf(n),
        v3_dot(n, n) == FX_SCALE as int,
    ensures
        v3_refract(v3_refract(v3_neg(n), n, ratio_in), n, ratio_out) == v3_neg(n),
{
    lemma_refract_normal_incidence(n, ratio_in);
    lemma_refract_normal_incidence(n, ratio_out);
}

/// A metal with zero fuzz obeys the exact mirror law: the scattered
/// direction is the reflection of the normalized incoming direction, for
/// every unit-ball draw.
pub proof fn lemma_metal_mirror(ray: Ray, rec: HitRecord, p: Vec3)
    ensures
        metal_dir(ray, rec.n, 0, p) == v3_reflect(v3_unit(ray.dir), rec.n),
        metal_scatter(ray, rec, 0, p) == (if v3_dot(
            v3_reflect(v3_unit(ray.dir), rec.n),
            rec.n,
        ) < 0 {
            None::<Ray>
        } else {
            Some(Ray { dir: v3_reflect(v3_unit(ray.dir), rec.n), orig: rec.p })
        }),
{
    lemma_mul_zero(p.x@);
    lemma_mul_zero(p.y@);
    lemma_mul_zero(p.z@);
    let refl = v3_reflect(v3_unit(ray.dir), rec.n);
    assert(fx_wf(refl.x@) && fx_wf(refl.y@) && fx_wf(refl.z@));
    assert(v3_add(refl, v3_scale(p, 0)) == refl);
}

/// Attenuating black gives black, whatever the attenuation.
pub proof fn lemma_cmul_black(a: Vec3)
    ensures
        crate::vec3::v3_cmul(a, crate::constants::black()) == crate::constants::black(),
{
    lemma_mul_zero(a.x@);
    lemma_mul_zero(a.y@);
    lemma_mul_zero(a.z@);
}

/// Attenuation combines multiplicatively and never leaves the unit box:
/// channels in `[0, 1]` attenuated by channels in `[0, 1]` stay in `[0, 1]`.
pub proof fn lemma_cmul_unit_interval(a: Vec3, b: Vec3)
    requires
        0 <= a.x@ <= FX_SCALE as int,
        0 <= a.y@ <= FX_SCALE as int,
        0 <= a.z@ <= FX_SCALE as int,
        0 <= b.x@ <= FX_SCALE as int,
        0 <= b.y@ <= FX_SCALE as int,
        0 <= b.z@ <= FX_SCALE as int,
    ensures
        0 <= crate::vec3::v3_cmul(a, b).x@ <= FX_SCALE as int,
        0 <= crate::vec3::v3_cmul(a, b).y@ <= FX_SCALE as int,
        0 <= crate::vec3::v3_cmul(a, b).z@ <= FX_SCALE as int,
{
    lemma_mul_channel_unit(a.x@, b.x@);
    lemma_mul_channel_unit(a.y@, b.y@);
    lemma_mul_channel_unit(a.z@, b.z@);
}

/// One channel of a unit-interval product stays in the unit interval.
proof fn lemma_mul_channel_unit(x: int, y: int)
    requires
        0 <= x <= FX_SCALE as int,
        0 <= y <= FX_SCALE as int,
    ensures
        0 <= fx_mul(x, y) <= FX_SCALE as int,
{
    assert(0 <= x * y <= (FX_SCALE as int) * (FX_SCALE as int)) by (nonlinear_arith)
        requires
            0 <= x <= FX_SCALE as int,
            0 <= y <= FX_SCALE as int,
    ;
    crate::fixed::lemma_tdiv_bound(x * y, FX_SCALE as int);
    crate::fixed::lemma_tdiv_mono(x * y, (FX_SCALE as int) * (FX_SCALE as int), FX_SCALE as int);
    crate::fixed::lemma_tdiv_multiple(FX_SCALE as int);
}

/// One blended background term stays under the blend parameter.
proof fn lemma_blend_term(b: int, t: int)
    requires
        0 <= b <= FX_SCALE as int,
        0 <= t <= FX_SCALE as int,
    ensures
        0 <= fx_mul(b, t) <= t,
{
    assert(0 <= b * t <= (FX_SCALE as int) * t) by (nonlinear_arith)
        requires
            0 <= b <= FX_SCALE as int,
            0 <= t,
    ;
    crate::fixed::lemma_tdiv_bound(b * t, FX_SCALE as int);
    crate::fixed::lemma_tdiv_mono(b * t, (FX_SCALE as int) * t, FX_SCALE as int);
    assert((FX_SCALE as int) * t == t * (FX_SCALE as int)) by (nonlinear_arith);
    crate::fixed::lemma_tdiv_multiple(t);
}

/// The background gradient never leaves the unit box: the clamped blend
/// interpolates channelwise between white and the zenith colour.
pub proof fn lemma_background_in_unit_box(r: Ray)
    ensures
        0 <= crate::ray::ray_background(r).x@ <= FX_SCALE as int,
        0 <= crate::ray::ray_background(r).y@ <= FX_SCALE as int,
        0 <= crate::ray::ray_background(r).z@ <= FX_SCALE as int,
{
    let t = crate::ray::background_blend(r);
    assert(0 <= t <= FX_SCALE as int);
    lemma_mul_one(crate::fixed::fx_sub(FX_SCALE as int, t));
    lemma_blend_term(32768, t);
    lemma_blend_term(45875, t);
    lemma_blend_term(FX_SCALE as int, t);
}

/// Every sphere of the scene carries unit-interval albedo channels.
pub open spec fn scene_albedo_wf(objs: Seq<Sphere>) -> bool {
    forall|k: int|
        0 <= k < objs.len() ==> #[trigger] crate::material::material_albedo_wf(objs[k].mat)
}

/// With every albedo in the unit box, every possible colour of the
/// estimator stays in the unit box: the terminal colours (black, or the
/// clamped background gradient) start there, and each bounce multiplies by
/// unit-interval attenuation channels.
#[verifier::rlimit(100)]
pub proof fn lemma_colour_in_unit_box(ray: Ray, objs: Seq<Sphere>, depth: int, c: Colour)
    requires
        crate::render::colour_possible(ray, objs, depth, c),
        scene_albedo_wf(objs),
    ensures
        0 <= c.x@ <= FX_SCALE as int,
        0 <= c.y@ <= FX_SCALE as int,
        0 <= c.z@ <= FX_SCALE as int,
    decreases depth,
{
    if depth > 0 && v3_len_sq(ray.dir) != 0 {
        match list_hit(
            objs,
            ray,
            crate::constants::T_MIN_RAW as int,
            crate::constants::T_MAX_RAW as int,
        ) {
            Option::None => {
                lemma_background_in_unit_box(ray);
            },
            Option::Some(rec) => {
                if crate::material::material_wf(rec.mat) {
                    crate::hittable::lemma_list_hit_mat_from_scene(
                        objs,
                        ray,
                        crate::constants::T_MIN_RAW as int,
                        crate::constants::T_MAX_RAW as int,
                        rec,
                    );
                    let k = choose|k: int| 0 <= k < objs.len() && rec.mat == objs[k].mat;
                    assert(crate::material::material_albedo_wf(objs[k].mat));
                    match rec.mat {
                        Material::Lambertian(l) => {
                            let (q, c2) = choose|q: Vec3, c2: Colour|
                                0 < v3_len_sq(q) < FX_SCALE as int
                                    && crate::render::colour_possible(
                                    Ray {
                                        dir: crate::material::lambertian_dir(rec.n, v3_unit(q)),
                                        orig: rec.p,
                                    },
                                    objs,
                                    depth - 1,
                                    c2,
                                ) && c == crate::vec3::v3_cmul(l.albedo, c2);
                            lemma_colour_in_unit_box(
                                Ray {
                                    dir: crate::material::lambertian_dir(rec.n, v3_unit(q)),
                                    orig: rec.p,
                                },
                                objs,
                                depth - 1,
                                c2,
                            );
                            lemma_cmul_unit_interval(l.albedo, c2);
                        },
                        Material::Metal(m) => {
                            let p = choose|p: Vec3|
                                0 < v3_len_sq(p) < FX_SCALE as int && v3_wf(p) && (
                                match metal_scatter(ray, rec, m.fuzz@, p) {
                                    Option::None => c == crate::constants::black(),
                                    Option::Some(sr) => exists|cc: Colour|
                                        #![auto]
                                        crate::render::colour_possible(sr, objs, depth - 1, cc)
                                            && c == crate::vec3::v3_cmul(m.albedo, cc),
                                });
                            match metal_scatter(ray, rec, m.fuzz@, p) {
                                Option::None => {
                                },
                                Option::Some(sr) => {
                                    let cc = choose|cc: Colour|
                                        crate::render::colour_possible(sr, objs, depth - 1, cc)
                                            && c == crate::vec3::v3_cmul(m.albedo, cc);
                                    lemma_colour_in_unit_box(sr, objs, depth - 1, cc);
                                    lemma_cmul_unit_interval(m.albedo, cc);
                                },
                            }
                        },
                        Material::Dielectric(d) => {
                            let (coin, c2) = choose|coin: int, c2: Colour|
                                0 <= coin < FX_SCALE as int && crate::render::colour_possible(
                                    crate::material::dielectric_scatter(
                                        d.refraction_idx@,
                                        ray,
                                        rec,
                                        coin,
                                    ),
                                    objs,
                                    depth - 1,
                                    c2,
                                ) && c == crate::vec3::v3_cmul(crate::constants::white(), c2);
                            lemma_colour_in_unit_box(
                                crate::material::dielectric_scatter(
                                    d.refraction_idx@,
                                    ray,
                                    rec,
                                    coin,
                                ),
                                objs,
                                depth - 1,
                                c2,
                            );
                            lemma_cmul_unit_interval(crate::constants::white(), c2);
                        },
                    }
                }
            },
        }
    }
}

/// At a recursion budget of one, any hit contributes black: the one bounce
/// scatters (or is absorbed), and the exhausted budget returns black, which
/// any attenuation keeps black.
#[verifier::rlimit(100)]
pub proof fn lemma_depth_one_hit_is_black(ray: Ray, objs: Seq<Sphere>, c: Colour)
    requires
        crate::render::colour_possible(ray, objs, 1, c),
        v3_len_sq(ray.dir) > 0,
        list_hit(
            objs,
            ray,
            crate::constants::T_MIN_RAW as int,
            crate::constants::T_MAX_RAW as int,
        ) is Some,
    ensures
        c == crate::constants::black(),
{
    reveal_with_fuel(crate::render::colour_possible, 2);
    let rec = choose|rec: HitRecord|
        list_hit(
            objs,
            ray,
            crate::constants::T_MIN_RAW as int,
            crate::constants::T_MAX_RAW as int,
        ) == Some(rec);
    if crate::material::material_wf(rec.mat) {
        match rec.mat {
            Material::Lambertian(l) => {
                assert(exists|q: Vec3, c2: Colour|
                    #![auto]
                    0 < v3_len_sq(q) < FX_SCALE as int && crate::render::colour_possible(
                        Ray { dir: crate::material::lambertian_dir(rec.n, v3_unit(q)), orig: rec.p },
                        objs,
                        1 - 1,
                        c2,
                    ) && c == crate::vec3::v3_cmul(l.albedo, c2));
                let (q, c2) = choose|q: Vec3, c2: Colour|
                    0 < v3_len_sq(q) < FX_SCALE as int && crate::render::colour_possible(
                        Ray { dir: crate::material::lambertian_dir(rec.n, v3_unit(q)), orig: rec.p },
                        objs,
                        1 - 1,
                        c2,
                    ) && c == crate::vec3::v3_cmul(l.albedo, c2);
                assert(crate::render::colour_possible(
                    Ray { dir: crate::material::lambertian_dir(rec.n, v3_unit(q)), orig: rec.p },
                    objs,
                    0,
                    c2,
                ));
                assert(c2 == crate::constants::black());
                lemma_cmul_black(l.albedo);
            },
            Material::Metal(m) => {
                let p = choose|p: Vec3|
                    0 < v3_len_sq(p) < FX_SCALE as int && v3_wf(p) && (match metal_scatter(
                        ray,
                        rec,
                        m.fuzz@,
                        p,
                    ) {
                        Option::None => c == crate::constants::black(),
                        Option::Some(sr) => exists|cc: Colour|
                            #![auto]
                            crate::render::colour_possible(sr, objs, 1 - 1, cc) && c
                                == crate::vec3::v3_cmul(m.albedo, cc),
                    });
                match metal_scatter(ray, rec, m.fuzz@, p) {
                    Option::None => {
                    },
                    Option::Some(sr) => {
                        let cc = choose|cc: Colour|
                            crate::render::colour_possible(sr, objs, 1 - 1, cc) && c
                                == crate::vec3::v3_cmul(m.albedo, cc);
                        assert(crate::render::colour_possible(sr, objs, 0, cc));
                        assert(cc == crate::constants::black());
                        lemma_cmul_black(m.albedo);
                    },
                }
            },
            Material::Dielectric(d) => {
                let (coin, c2) = choose|coin: int, c2: Colour|
                    0 <= coin < FX_SCALE as int && crate::render::colour_possible(
                        crate::material::dielectric_scatter(d.refraction_idx@, ray, rec, coin),
                        objs,
                        1 - 1,
                        c2,
                    ) && c == crate::vec3::v3_cmul(crate::constants::white(), c2);
                assert(crate::render::colour_possible(
                    crate::material::dielectric_scatter(d.refraction_idx@, ray, rec, coin),
                    objs,
                    0,
                    c2,
                ));
                assert(c2 == crate::constants::black());
                lemma_cmul_black(crate::constants::white());
            },
        }
    }
}

/// An empty scene is missed by every ray.
pub proof fn lemma_empty_scene_misses(ray: Ray, t_min: int, t_max: int)
    ensures
        list_hit(Seq::<Sphere>::empty(), ray, t_min, t_max) is None,
{
}

/// For two spheres along one ray, the nearer accepted hit wins whichever
/// order they were inserted in; insertion order decides only equal
/// distances.
#[verifier::rlimit(100)]
pub proof fn lemma_two_spheres_closest(s1: Sphere, s2: Sphere, ray: Ray, t_min: int, t_max: int)
    ensures
        list_hit(seq![s1, s2], ray, t_min, t_max) == closer_hit(
            sphere_hit(s1, ray, t_min, t_max),
            sphere_hit(s2, ray, t_min, t_max),
        ),
        list_hit(seq![s2, s1], ray, t_min, t_max) == closer_hit(
            sphere_hit(s2, ray, t_min, t_max),
            sphere_hit(s1, ray, t_min, t_max),
        ),
{
    let a = seq![s1, s2];
    let b = seq![s2, s1];
    lemma_list_hit_finds_closest(a, ray, t_min, t_max);
    lemma_list_hit_finds_closest(b, ray, t_min, t_max);
    assert(best_hit_from(a, 2, ray, t_min, t_max) is None);
    assert(best_hit_from(b, 2, ray, t_min, t_max) is None);
    assert(a[0] == s1 && a[1] == s2 && b[0] == s2 && b[1] == s1);
    assert(best_hit_from(a, 1, ray, t_min, t_max) == closer_hit(
        sphere_hit(s2, ray, t_min, t_max),
        None,
    ));
    assert(best_hit_from(b, 1, ray, t_min, t_max) == closer_hit(
        sphere_hit(s1, ray, t_min, t_max),
        None,
    ));
}

/// The nearer of two accepted hits is returned regardless of insertion
/// order, whenever the two distances differ.
pub proof fn lemma_two_spheres_order_independent(
    s1: Sphere,
    s2: Sphere,
    ray: Ray,
    t_min: int,
    t_max: int,
    r1: HitRecord,
    r2: HitRecord,
)
    requires
        sphere_hit(s1, ray, t_min, t_max) == Some(r1),
        sphere_hit(s2, ray, t_min, t_max) == Some(r2),
        r1.t@ < r2.t@,
    ensures
        list_hit(seq![s1, s2], ray, t_min, t_max) == Some(r1),
        list_hit(seq![s2, s1], ray, t_min, t_max) == Some(r1),
{
    lemma_two_spheres_closest(s1, s2, ray, t_min, t_max);
}

} // verus!

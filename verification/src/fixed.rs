//! Fixed-point scalar arithmetic.
//!
//! Every scalar quantity of the renderer is an `Fx`: an `i64` raw value that
//! stands for the rational number `raw / FX_SCALE`.  All operations saturate
//! at `FX_MAX_RAW` in magnitude, and multiplication, division and square root
//! truncate toward zero, so every operation is total (division and square
//! root aside, which exclude a zero divisor and a negative radicand).  Each
//! executable operation is specified exactly by the spec function of the same
//! name, rounding included.

use vstd::prelude::*;

verus! {

use vstd::arithmetic::div_mod::lemma_div_is_ordered;
use vstd::arithmetic::div_mod::lemma_div_pos_is_pos;
use vstd::arithmetic::div_mod::lemma_div_nonincreasing;
use vstd::arithmetic::div_mod::lemma_remainder_lower;
use vstd::arithmetic::div_mod::lemma_remainder_upper;

/// Scale factor of the fixed-point scalars: raw value `r` stands for `r / FX_SCALE`.
pub const FX_SCALE: i64 = 65536;

/// Largest raw magnitude a scalar may hold; arithmetic saturates here (2^62 - 1).
pub const FX_MAX_RAW: i64 = 4611686018427387903;

/// Clamp a mathematical integer into the representable raw range.
pub open spec fn fx_sat(x: int) -> int {
    if x > FX_MAX_RAW as int {
        FX_MAX_RAW as int
    } else if x < -(FX_MAX_RAW as int) {
        -(FX_MAX_RAW as int)
    } else {
        x
    }
}

/// A raw value the saturating operations can produce.
pub open spec fn fx_wf(x: int) -> bool {
    -(FX_MAX_RAW as int) <= x <= FX_MAX_RAW as int
}

/// Division truncating toward zero, for a positive divisor.
pub open spec fn fx_tdiv(x: int, d: int) -> int
    recommends
        d > 0,
{
    if x >= 0 {
        x / d
    } else {
        -((-x) / d)
    }
}

/// Division truncating toward zero, for any nonzero divisor.
pub open spec fn fx_tdiv_gen(x: int, y: int) -> int
    recommends
        y != 0,
{
    if y > 0 {
        fx_tdiv(x, y)
    } else {
        fx_tdiv(-x, -y)
    }
}

/// Saturating fixed-point addition.
pub open spec fn fx_add(a: int, b: int) -> int {
    fx_sat(a + b)
}

/// Saturating fixed-point subtraction.
pub open spec fn fx_sub(a: int, b: int) -> int {
    fx_sat(a - b)
}

/// Saturating fixed-point negation.
pub open spec fn fx_neg(a: int) -> int {
    fx_sat(-a)
}

/// Saturating fixed-point multiplication: the product rescaled with truncation.
pub open spec fn fx_mul(a: int, b: int) -> int {
    fx_sat(fx_tdiv(a * b, FX_SCALE as int))
}

/// Saturating fixed-point division: the quotient rescaled with truncation.
pub open spec fn fx_div(a: int, b: int) -> int
    recommends
        b != 0,
{
    fx_sat(fx_tdiv_gen(a * (FX_SCALE as int), b))
}

/// The integer square root: the greatest `r` with `r * r <= n`.
pub open spec fn isqrt(n: nat) -> nat
    decreases n,
{
    if n == 0 {
        0
    } else {
        let r = isqrt((n - 1) as nat);
        if (r + 1) * (r + 1) <= n {
            r + 1
        } else {
            r
        }
    }
}

/// Fixed-point square root: exact on squares, truncating otherwise.
pub open spec fn fx_sqrt(a: int) -> int
    recommends
        a >= 0,
{
    isqrt((a * (FX_SCALE as int)) as nat) as int
}

/// `isqrt` is what its name says: the greatest root whose square fits.
pub proof fn lemma_isqrt_bounds(n: nat)
    ensures
        isqrt(n) * isqrt(n) <= n,
        n < (isqrt(n) + 1) * (isqrt(n) + 1),
    decreases n,
{
    if n > 0 {
        lemma_isqrt_bounds((n - 1) as nat);
        let r = isqrt((n - 1) as nat);
        assert(r * r <= n - 1);
        assert(n - 1 < (r + 1) * (r + 1));
        if (r + 1) * (r + 1) <= n {
            assert(isqrt(n) == r + 1);
            assert(isqrt(n) * isqrt(n) <= n);
            assert(n < (isqrt(n) + 1) * (isqrt(n) + 1)) by (nonlinear_arith)
                requires
                    isqrt(n) == r + 1,
                    n <= (r + 1) * (r + 1),
            ;
        } else {
            assert(isqrt(n) == r);
            assert(isqrt(n) * isqrt(n) <= n) by (nonlinear_arith)
                requires
                    isqrt(n) == r,
                    r * r <= n,
            ;
            assert(n < (isqrt(n) + 1) * (isqrt(n) + 1)) by (nonlinear_arith)
                requires
                    isqrt(n) == r,
                    n < (r + 1) * (r + 1),
            ;
        }
    } else {
        assert(n == 0);
        assert(isqrt(0) == 0);
        assert(isqrt(n) * isqrt(n) <= n) by (nonlinear_arith)
            requires
                n == 0,
                isqrt(n) == 0,
        ;
        assert(n < (isqrt(n) + 1) * (isqrt(n) + 1)) by (nonlinear_arith)
            requires
                n == 0,
                isqrt(n) == 0,
        ;
    }
}

pub proof fn lemma_isqrt_unique(n: nat, r: nat)
    requires
        r * r <= n,
        n < (r + 1) * (r + 1),
    ensures
        r == isqrt(n),
{
    lemma_isqrt_bounds(n);
    let s = isqrt(n);
    if r < s {
        assert((r + 1) * (r + 1) <= s * s) by (nonlinear_arith)
            requires
                r + 1 <= s,
        ;
    }
    if s < r {
        assert((s + 1) * (s + 1) <= r * r) by (nonlinear_arith)
            requires
                s + 1 <= r,
        ;
    }
}

/// The integer square root never decreases.
pub proof fn lemma_isqrt_mono(m: nat, n: nat)
    requires
        m <= n,
    ensures
        isqrt(m) <= isqrt(n),
{
    lemma_isqrt_bounds(m);
    lemma_isqrt_bounds(n);
    let a = isqrt(m);
    let b = isqrt(n);
    if b < a {
        assert((b + 1) * (b + 1) <= a * a) by (nonlinear_arith)
            requires
                b + 1 <= a,
        ;
    }
}

/// Truncating division is monotone in the numerator.
pub proof fn lemma_tdiv_mono(x: int, y: int, d: int)
    requires
        x <= y,
        d > 0,
    ensures
        fx_tdiv(x, d) <= fx_tdiv(y, d),
{
    if x >= 0 {
        lemma_div_is_ordered(x, y, d);
    } else if y >= 0 {
        lemma_div_pos_is_pos(y, d);
        lemma_div_pos_is_pos(-x, d);
    } else {
        lemma_div_is_ordered(-y, -x, d);
    }
}

/// Truncating division is odd in the numerator.
pub proof fn lemma_tdiv_neg(x: int, d: int)
    requires
        d > 0,
    ensures
        fx_tdiv(-x, d) == -fx_tdiv(x, d),
{
}

/// Truncating division shrinks magnitudes (for a divisor of at least one).
pub proof fn lemma_tdiv_bound(x: int, d: int)
    requires
        d > 0,
    ensures
        x >= 0 ==> 0 <= fx_tdiv(x, d) <= x,
        x < 0 ==> x <= fx_tdiv(x, d) <= 0,
{
    if x >= 0 {
        lemma_div_pos_is_pos(x, d);
        lemma_div_nonincreasing(x, d);
    } else {
        lemma_div_pos_is_pos(-x, d);
        lemma_div_nonincreasing(-x, d);
    }
}

/// Saturation is odd: the bounds are symmetric.
pub proof fn lemma_sat_neg(x: int)
    ensures
        fx_sat(-x) == -fx_sat(x),
{
}

/// Multiplication is odd in either argument.
pub proof fn lemma_mul_neg_right(a: int, b: int)
    ensures
        fx_mul(a, -b) == -fx_mul(a, b),
{
    assert(a * (-b) == -(a * b)) by (nonlinear_arith);
    lemma_tdiv_neg(a * b, FX_SCALE as int);
    lemma_sat_neg(fx_tdiv(a * b, FX_SCALE as int));
}

/// Multiplication is commutative.
pub proof fn lemma_mul_comm(a: int, b: int)
    ensures
        fx_mul(a, b) == fx_mul(b, a),
{
    assert(a * b == b * a) by (nonlinear_arith);
}

/// Multiplication is odd in the left argument too.
pub proof fn lemma_mul_neg_left(a: int, b: int)
    ensures
        fx_mul(-a, b) == -fx_mul(a, b),
{
    assert((-a) * b == -(a * b)) by (nonlinear_arith);
    lemma_tdiv_neg(a * b, FX_SCALE as int);
    lemma_sat_neg(fx_tdiv(a * b, FX_SCALE as int));
}

/// Saturation never reorders values.
pub proof fn lemma_sat_mono(x: int, y: int)
    requires
        x <= y,
    ensures
        fx_sat(x) <= fx_sat(y),
{
}

/// Division by a positive scalar never reorders values.
pub proof fn lemma_fx_div_mono(a: int, b: int, d: int)
    requires
        a <= b,
        d > 0,
    ensures
        fx_div(a, d) <= fx_div(b, d),
{
    lemma_tdiv_mono(a * (FX_SCALE as int), b * (FX_SCALE as int), d);
    lemma_sat_mono(
        fx_tdiv(a * (FX_SCALE as int), d),
        fx_tdiv(b * (FX_SCALE as int), d),
    );
}

/// The fixed-point square root of a nonnegative scalar is nonnegative.
pub proof fn lemma_fx_sqrt_nonneg(a: int)
    requires
        a >= 0,
    ensures
        fx_sqrt(a) >= 0,
{
}

/// The floor bracket of truncating division, for a nonnegative numerator.
pub proof fn lemma_tdiv_mul_bracket(x: int, d: int)
    requires
        x >= 0,
        d > 0,
    ensures
        fx_tdiv(x, d) * d <= x,
        x < fx_tdiv(x, d) * d + d,
{
    lemma_remainder_lower(x, d);
    lemma_remainder_upper(x, d);
}

/// The quotient of truncating division times the divisor never exceeds the
/// numerator in magnitude; squared, signs drop out.
pub proof fn lemma_tdiv_sq_le(x: int, d: int)
    requires
        d > 0,
    ensures
        (fx_tdiv(x, d) * fx_tdiv(x, d)) * (d * d) <= x * x,
{
    let q = fx_tdiv(x, d);
    lemma_tdiv_bound(x, d);
    if x >= 0 {
        lemma_tdiv_mul_bracket(x, d);
        assert((q * q) * (d * d) <= x * x) by (nonlinear_arith)
            requires
                0 <= q,
                q * d <= x,
                d > 0,
        ;
    } else {
        lemma_tdiv_mul_bracket(-x, d);
        assert(fx_tdiv(-x, d) == -q);
        assert((q * q) * (d * d) <= x * x) by (nonlinear_arith)
            requires
                q <= 0,
                (-q) * d <= -x,
                d > 0,
        ;
    }
}

/// The quotient of truncating division times the divisor falls short of the
/// numerator by less than one divisor; squared, the loss is at most two
/// cross terms.
pub proof fn lemma_tdiv_sq_ge(x: int, d: int)
    requires
        d > 0,
    ensures
        (fx_tdiv(x, d) * fx_tdiv(x, d)) * (d * d) >= x * x - 2 * d * (if x >= 0 {
            x
        } else {
            -x
        }),
{
    lemma_tdiv_bound(x, d);
    if x >= 0 {
        let q = fx_tdiv(x, d);
        lemma_tdiv_mul_bracket(x, d);
        assert((q * q) * (d * d) >= x * x - 2 * d * x) by (nonlinear_arith)
            requires
                0 <= q,
                q * d <= x,
                x < q * d + d,
                d > 0,
        ;
    } else {
        let q = fx_tdiv(-x, d);
        lemma_tdiv_mul_bracket(-x, d);
        assert(fx_tdiv(x, d) == -q);
        assert(((-q) * (-q)) * (d * d) >= x * x - 2 * d * (-x)) by (nonlinear_arith)
            requires
                0 <= q,
                q * d <= -x,
                -x < q * d + d,
                d > 0,
        ;
    }
}

/// Dividing an exact multiple of the scale recovers the factor.
pub proof fn lemma_tdiv_multiple(k: int)
    ensures
        fx_tdiv(k * (FX_SCALE as int), FX_SCALE as int) == k,
{
    if k >= 0 {
        vstd::arithmetic::div_mod::lemma_div_by_multiple(k, FX_SCALE as int);
        assert(k * (FX_SCALE as int) >= 0) by (nonlinear_arith)
            requires
                k >= 0,
        ;
    } else {
        vstd::arithmetic::div_mod::lemma_div_by_multiple(-k, FX_SCALE as int);
        assert(k * (FX_SCALE as int) < 0) by (nonlinear_arith)
            requires
                k < 0,
        ;
        assert(-(k * (FX_SCALE as int)) == (-k) * (FX_SCALE as int)) by (nonlinear_arith);
    }
}

/// Multiplying by zero gives zero.
pub proof fn lemma_mul_zero(a: int)
    ensures
        fx_mul(a, 0) == 0,
        fx_mul(0, a) == 0,
{
    assert(a * 0 == 0) by (nonlinear_arith);
    assert(0 * a == 0) by (nonlinear_arith);
}

/// Multiplying by one leaves a representable value alone.
pub proof fn lemma_mul_one(a: int)
    ensures
        fx_mul(a, FX_SCALE as int) == fx_sat(a),
        fx_mul(FX_SCALE as int, a) == fx_sat(a),
{
    if a >= 0 {
        vstd::arithmetic::div_mod::lemma_div_by_multiple(a, FX_SCALE as int);
        assert(a * (FX_SCALE as int) == (FX_SCALE as int) * a) by (nonlinear_arith);
    } else {
        vstd::arithmetic::div_mod::lemma_div_by_multiple(-a, FX_SCALE as int);
        assert((-a) * (FX_SCALE as int) == -(a * (FX_SCALE as int))) by (nonlinear_arith);
        assert(a * (FX_SCALE as int) == (FX_SCALE as int) * a) by (nonlinear_arith);
    }
}

/// A fixed-point scalar: `raw / FX_SCALE` as a rational quantity.
#[derive(Clone, Copy, Debug, PartialEq, Eq, Structural)]
pub struct Fx {
    pub raw: i64,
}

impl View for Fx {
    type V = int;

    open spec fn view(&self) -> int {
        self.raw as int
    }
}

/// Clamp a wide intermediate result into the representable raw range.
fn sat_i128(x: i128) -> (r: i64)
    ensures
        r as int == fx_sat(x as int),
{
    if x > FX_MAX_RAW as i128 {
        FX_MAX_RAW
    } else if x < -(FX_MAX_RAW as i128) {
        -FX_MAX_RAW
    } else {
        x as i64
    }
}

/// Division truncating toward zero, for a positive divisor.
fn tdiv_i128(x: i128, d: i128) -> (r: i128)
    requires
        d > 0,
        x != i128::MIN,
    ensures
        r as int == fx_tdiv(x as int, d as int),
        x >= 0 ==> 0 <= r <= x,
        x < 0 ==> x <= r <= 0,
{
    proof {
        lemma_tdiv_bound(x as int, d as int);
    }
    if x >= 0 {
        let q: u128 = (x as u128) / (d as u128);
        q as i128
    } else {
        let m: u128 = (-x) as u128;
        let q: u128 = m / (d as u128);
        -(q as i128)
    }
}

/// Division truncating toward zero, for any nonzero divisor.
fn tdiv_gen_i128(x: i128, y: i128) -> (r: i128)
    requires
        y != 0,
        x != i128::MIN,
        y != i128::MIN,
    ensures
        r as int == fx_tdiv_gen(x as int, y as int),
{
    if y > 0 {
        tdiv_i128(x, y)
    } else {
        tdiv_i128(-x, -y)
    }
}

/// The integer square root of a wide value, by bisection.
fn isqrt_u128(n: u128) -> (r: u128)
    ensures
        r * r <= n,
        n < (r + 1) * (r + 1),
        r as nat == isqrt(n as nat),
{
    let mut lo: u128 = 0;
    let mut hi: u128 = 18446744073709551616;
    proof {
        assert((hi as int) * (hi as int) > n as int) by (nonlinear_arith)
            requires
                hi == 18446744073709551616,
                n <= u128::MAX,
        ;
    }
    while hi - lo > 1
        invariant
            lo < hi,
            hi <= 18446744073709551616,
            (lo as int) * (lo as int) <= n as int,
            (hi as int) * (hi as int) > n as int,
        decreases hi - lo,
    {
        let mid: u128 = lo + (hi - lo) / 2;
        proof {
            assert((mid as int) * (mid as int) < 340282366920938463463374607431768211456) by (nonlinear_arith)
                requires
                    mid < 18446744073709551616,
            ;
        }
        if mid * mid <= n {
            lo = mid;
        } else {
            hi = mid;
        }
    }
    proof {
        lemma_isqrt_unique(n as nat, lo as nat);
    }
    lo
}

impl Fx {
    /// The scalar of a raw fixed-point value.
    pub fn from_raw(raw: i64) -> (r: Fx)
        ensures
            r@ == raw as int,
    {
        Fx { raw }
    }

    /// The scalar of an integer, saturating when it is out of range.
    pub fn from_int(i: i64) -> (r: Fx)
        ensures
            r@ == fx_sat(i * (FX_SCALE as int)),
    {
        proof {
            assert(-0x80000000000000000000 <= (i as int) * (FX_SCALE as int)
                <= 0x80000000000000000000) by (nonlinear_arith)
                requires
                    -0x8000000000000000 <= i as int <= 0x7fffffffffffffff,
                    FX_SCALE == 65536,
            ;
        }
        let w: i128 = (i as i128) * (FX_SCALE as i128);
        Fx { raw: sat_i128(w) }
    }

    /// Saturating addition.
    pub fn add(self, o: Fx) -> (r: Fx)
        ensures
            r@ == fx_add(self@, o@),
            fx_wf(r@),
    {
        let s: i128 = self.raw as i128 + o.raw as i128;
        Fx { raw: sat_i128(s) }
    }

    /// Saturating subtraction.
    pub fn sub(self, o: Fx) -> (r: Fx)
        ensures
            r@ == fx_sub(self@, o@),
            fx_wf(r@),
    {
        let s: i128 = self.raw as i128 - o.raw as i128;
        Fx { raw: sat_i128(s) }
    }

    /// Saturating negation.
    pub fn neg(self) -> (r: Fx)
        ensures
            r@ == fx_neg(self@),
            fx_wf(r@),
    {
        let s: i128 = -(self.raw as i128);
        Fx { raw: sat_i128(s) }
    }

    /// Saturating multiplication, truncating toward zero.
    pub fn mul(self, o: Fx) -> (r: Fx)
        ensures
            r@ == fx_mul(self@, o@),
            fx_wf(r@),
    {
        proof {
            assert(-0x40000000000000000000000000000000 <= (self.raw as int) * (o.raw as int)
                <= 0x40000000000000000000000000000000) by (nonlinear_arith)
                requires
                    -0x8000000000000000 <= self.raw as int <= 0x7fffffffffffffff,
                    -0x8000000000000000 <= o.raw as int <= 0x7fffffffffffffff,
            ;
        }
        let p: i128 = (self.raw as i128) * (o.raw as i128);
        let q: i128 = tdiv_i128(p, FX_SCALE as i128);
        Fx { raw: sat_i128(q) }
    }

    /// Saturating division, truncating toward zero.
    pub fn div(self, o: Fx) -> (r: Fx)
        requires
            o@ != 0,
        ensures
            r@ == fx_div(self@, o@),
            fx_wf(r@),
    {
        proof {
            assert(-0x80000000000000000000 <= (self.raw as int) * (FX_SCALE as int)
                <= 0x80000000000000000000) by (nonlinear_arith)
                requires
                    -0x8000000000000000 <= self.raw as int <= 0x7fffffffffffffff,
                    FX_SCALE == 65536,
            ;
        }
        let num: i128 = (self.raw as i128) * (FX_SCALE as i128);
        let q: i128 = tdiv_gen_i128(num, o.raw as i128);
        Fx { raw: sat_i128(q) }
    }

    /// Fixed-point square root of a nonnegative scalar, truncating.
    pub fn sqrt(self) -> (r: Fx)
        requires
            self@ >= 0,
        ensures
            r@ == fx_sqrt(self@),
            r@ >= 0,
            fx_wf(r@),
    {
        let n: u128 = (self.raw as u128) * (FX_SCALE as u128);
        let s: u128 = isqrt_u128(n);
        proof {
            assert(s < 4611686018427387904) by (nonlinear_arith)
                requires
                    (s as int) * (s as int) <= n as int,
                    n as int <= 0x7fffffffffffffff * (FX_SCALE as int),
            ;
        }
        Fx { raw: s as i64 }
    }
}

} // verus!

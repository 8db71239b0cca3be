//! Uniform random scalars, drawn through the `rand` crate.
//!
//! The one trusted item is `rand_i64_in`; everything downstream is verified
//! for every value it can return.

use vstd::prelude::*;

verus! {

use crate::fixed::Fx;
use crate::fixed::FX_SCALE;

/// Relies on `rand::Rng::gen_range` over `rand::thread_rng()`: a draw from a
/// half-open integer range lands inside it, and the call panics only on an
/// empty range.
#[verifier::external_body]
fn rand_i64_in(lo: i64, hi: i64) -> (r: i64)
    requires
        lo < hi,
    ensures
        lo <= r < hi,
{
    rand::Rng::gen_range(&mut rand::thread_rng(), lo..hi)
}

/// A uniform scalar in `[lo, hi)`.
pub fn random_fx_in(lo: Fx, hi: Fx) -> (r: Fx)
    requires
        lo@ < hi@,
    ensures
        lo@ <= r@ < hi@,
{
    Fx { raw: rand_i64_in(lo.raw, hi.raw) }
}

/// A uniform scalar in `[0, 1)`.
pub fn random_unit_fx() -> (r: Fx)
    ensures
        0 <= r@ < FX_SCALE as int,
{
    Fx { raw: rand_i64_in(0, FX_SCALE) }
}

} // verus!

//! Shared colour constants and rendering thresholds.

use vstd::prelude::*;

verus! {

use crate::fixed::FX_SCALE;
use crate::vec3::Colour;
use crate::vec3::Vec3;
use crate::vec3::v3;
use crate::fixed::Fx;

/// Lower bound of the hit interval used by the colour estimator: a small
/// positive offset that suppresses self-intersection ("shadow acne").
pub const T_MIN_RAW: i64 = 66;

/// Upper bound of the hit interval used by the colour estimator: the largest
/// representable scalar stands in for an unbounded ray.
pub const T_MAX_RAW: i64 = 4611686018427387903;

pub open spec fn white_spec() -> Colour {
    v3(FX_SCALE as int, FX_SCALE as int, FX_SCALE as int)
}

pub open spec fn blue_spec() -> Colour {
    v3(32768, 45875, FX_SCALE as int)
}

pub open spec fn black_spec() -> Colour {
    v3(0, 0, 0)
}

/// Full transmission: every channel one.
#[verifier::when_used_as_spec(white_spec)]
pub fn white() -> (c: Colour)
    ensures
        c == white_spec(),
{
    Vec3 { x: Fx { raw: FX_SCALE }, y: Fx { raw: FX_SCALE }, z: Fx { raw: FX_SCALE } }
}

/// The zenith colour of the background gradient.
#[verifier::when_used_as_spec(blue_spec)]
pub fn blue() -> (c: Colour)
    ensures
        c == blue_spec(),
{
    Vec3 { x: Fx { raw: 32768 }, y: Fx { raw: 45875 }, z: Fx { raw: FX_SCALE } }
}

/// No light: every channel zero.
#[verifier::when_used_as_spec(black_spec)]
pub fn black() -> (c: Colour)
    ensures
        c == black_spec(),
{
    Vec3 { x: Fx { raw: 0 }, y: Fx { raw: 0 }, z: Fx { raw: 0 } }
}

} // verus!

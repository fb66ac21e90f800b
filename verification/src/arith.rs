//! Saturating currency arithmetic and the one unbounded-precision
//! primitive the prize calculator needs: `floor(a * b / d)` computed
//! without intermediate overflow.

use vstd::prelude::*;
use num_bigint::BigUint;
use num_traits::ToPrimitive;

verus! {

/// The sum of two amounts, saturating at the largest representable amount.
pub open spec fn spec_sat_add(a: int, b: int) -> int {
    if a + b <= u128::MAX {
        a + b
    } else {
        u128::MAX as int
    }
}

/// The difference of two amounts, saturating at zero.
pub open spec fn spec_sat_sub(a: int, b: int) -> int {
    if a - b >= 0 {
        a - b
    } else {
        0
    }
}

/// `floor(a * b / d)` at unbounded precision, saturating at the largest
/// representable amount only at the final truncation step.
pub open spec fn spec_mul_div(a: int, b: int, d: int) -> int
    recommends
        d > 0,
{
    if a * b / d <= u128::MAX {
        a * b / d
    } else {
        u128::MAX as int
    }
}

/// Saturating addition on currency amounts: pools accumulate with
/// saturation so a pathological deposit can never wrap.
pub fn sat_add_u128(a: u128, b: u128) -> (r: u128)
    ensures
        r == spec_sat_add(a as int, b as int),
{
    if a <= u128::MAX - b {
        a + b
    } else {
        u128::MAX
    }
}

/// Saturating subtraction on currency amounts.
pub fn sat_sub_u128(a: u128, b: u128) -> (r: u128)
    ensures
        r == spec_sat_sub(a as int, b as int),
{
    if a >= b {
        a - b
    } else {
        0
    }
}

/// Relies on `num_bigint::BigUint`: `From<u128>` builds the exact value,
/// `Mul` and `Div` are exact unbounded multiplication and floor division
/// (`Div` panics only on a zero divisor, which the precondition excludes),
/// and `num_traits::ToPrimitive::to_u128` returns the exact value if and
/// only if it fits in a `u128`.
#[verifier::external_body]
pub fn mul_div_u128(a: u128, b: u128, d: u128) -> (r: u128)
    requires
        d > 0,
    ensures
        r == spec_mul_div(a as int, b as int, d as int),
{
    let q = (BigUint::from(a) * BigUint::from(b)) / BigUint::from(d);
    q.to_u128().unwrap_or(u128::MAX)
}

} // verus!

//! Fixed-point fractions of `sp_arithmetic` (`Perbill`, `Permill`), handled as their number of
//! parts.

use vstd::prelude::*;
use sp_arithmetic::{Perbill, Permill};

verus! {

/// Number of parts in one whole `Perbill`.
pub const PERBILL_ONE: u32 = 1_000_000_000;

/// Number of parts in one whole `Permill`.
pub const PERMILL_ONE: u32 = 1_000_000;

/// `x * parts / denom`, rounded to the nearest integer, halves rounded down.
pub open spec fn mul_nearest_pref_down(x: int, parts: int, denom: int) -> int {
    (x * parts) / denom + (if (x * parts) % denom > denom / 2 { 1int } else { 0int })
}

/// Calls `Perbill::from_percent`: `x` percent, capped at 100, as parts per billion.
#[verifier::external_body]
pub(crate) fn perbill_from_percent(x: u32) -> (parts: u32)
    ensures
        parts == (if x > 100 { 100 } else { x }) * 10_000_000,
{
    Perbill::from_percent(x).deconstruct()
}

/// Calls `Perbill::from_rational` on `u32` values: `p / q` rounded down, as parts per billion,
/// and one whole when `q` is zero or `p > q`.
#[verifier::external_body]
pub(crate) fn perbill_from_rational(p: u32, q: u32) -> (parts: u32)
    ensures
        parts == (if q == 0 || p > q { PERBILL_ONE as int } else { (p * PERBILL_ONE) / (q as int) }),
{
    Perbill::from_rational(p, q).deconstruct()
}

/// Calls the `Mul<u32>` of `Perbill` (the fraction `parts` per billion applied to `x`), which
/// rounds to the nearest integer, halves down.
#[verifier::external_body]
pub(crate) fn perbill_mul_u32(parts: u32, x: u32) -> (r: u32)
    requires
        parts <= PERBILL_ONE,
    ensures
        r == mul_nearest_pref_down(x as int, parts as int, PERBILL_ONE as int),
{
    Perbill::from_parts(parts) * x
}

/// Calls the `Mul<u128>` of `Permill` (the fraction `parts` per million applied to `x`), which
/// rounds to the nearest integer, halves down.
#[verifier::external_body]
pub(crate) fn permill_mul_u128(parts: u32, x: u128) -> (r: u128)
    requires
        parts <= PERMILL_ONE,
    ensures
        r == mul_nearest_pref_down(x as int, parts as int, PERMILL_ONE as int),
{
    Permill::from_parts(parts) * x
}

} // verus!

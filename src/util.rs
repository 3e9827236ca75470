//! Saturating arithmetic on the game's integer quantities.
use vstd::prelude::*;

verus! {

/// An integer clamped into the range of `u64`.
pub open spec fn clamp_u64(x: int) -> u64 {
    if x < 0 {
        0
    } else if x > u64::MAX {
        u64::MAX
    } else {
        x as u64
    }
}

/// An integer clamped into the range of `i64`.
pub open spec fn clamp_i64(x: int) -> i64 {
    if x < i64::MIN {
        i64::MIN
    } else if x > i64::MAX {
        i64::MAX
    } else {
        x as i64
    }
}

/// Safely add an `i64` to a `u64`, saturating at both ends of the range.
pub fn apply_delta(value: u64, delta: i64) -> (r: u64)
    ensures
        r == clamp_u64(value + delta),
{
    if delta >= 0 {
        value.saturating_add(delta as u64)
    } else {
        value.saturating_sub((-(delta as i128)) as u64)
    }
}

/// Narrow an `i128` to an `i64`, saturating at both ends of the range.
pub fn narrow_i64(x: i128) -> (r: i64)
    ensures
        r == clamp_i64(x as int),
{
    if x < i64::MIN as i128 {
        i64::MIN
    } else if x > i64::MAX as i128 {
        i64::MAX
    } else {
        x as i64
    }
}

/// Add two `i64`s, saturating at both ends of the range.
pub fn add_i64_saturating(a: i64, b: i64) -> (r: i64)
    ensures
        r == clamp_i64(a + b),
{
    narrow_i64(a as i128 + b as i128)
}

/// Multiply two `i64`s, saturating at both ends of the range.
pub fn mul_i64_saturating(a: i64, b: i64) -> (r: i64)
    ensures
        r == clamp_i64(a * b),
{
    assert(-0x4000_0000_0000_0000_0000_0000_0000_0000 <= (a as int) * (b as int)
        <= 0x4000_0000_0000_0000_0000_0000_0000_0000) by (nonlinear_arith)
        requires
            i64::MIN <= a <= i64::MAX,
            i64::MIN <= b <= i64::MAX,
    ;
    narrow_i64(a as i128 * b as i128)
}

} // verus!

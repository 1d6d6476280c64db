//! Fixed-point numbers: a quantity `x` is stored as the integer `x * UNIT`.
//!
//! Every operation saturates at the bounds of `i64`, so the grammar's
//! arithmetic is total, as the rewriting it serves.
use vstd::prelude::*;

verus! {

/// One whole unit: `1.0` is stored as `UNIT`, `0.25` as `UNIT / 4`.
pub const UNIT: i64 = 1_000_000;

/// `x` held within the range of `i64`.
pub open spec fn clamp(x: int) -> int {
    if x < i64::MIN {
        i64::MIN as int
    } else if x > i64::MAX {
        i64::MAX as int
    } else {
        x
    }
}

/// The fixed-point product of `a` and `b`, rounded down, then held within `i64`.
pub open spec fn scaled_product(a: int, b: int) -> int {
    clamp((a * b) / (UNIT as int))
}

/// Fixed-point product, rounded towards negative infinity, saturating.
pub fn mul_fixed(a: i64, b: i64) -> (r: i64)
    ensures
        r == scaled_product(a as int, b as int),
{
    proof {
        assert((a as int) * (b as int) <= 0x4000_0000_0000_0000_0000_0000_0000_0000int) by (nonlinear_arith)
            requires
                i64::MIN <= a <= i64::MAX,
                i64::MIN <= b <= i64::MAX,
        ;
        assert((a as int) * (b as int) >= -0x4000_0000_0000_0000_0000_0000_0000_0000int) by (nonlinear_arith)
            requires
                i64::MIN <= a <= i64::MAX,
                i64::MIN <= b <= i64::MAX,
        ;
    }
    let p: i128 = (a as i128) * (b as i128);
    let q: i128 = p.checked_div_euclid(UNIT as i128).unwrap();
    if q > i64::MAX as i128 {
        i64::MAX
    } else if q < i64::MIN as i128 {
        i64::MIN
    } else {
        q as i64
    }
}

/// Saturating sum.
pub fn add_fixed(a: i64, b: i64) -> (r: i64)
    ensures
        r == clamp(a + b),
{
    match a.checked_add(b) {
        Some(s) => s,
        None => if b > 0 { i64::MAX } else { i64::MIN },
    }
}

/// Saturating difference.
pub fn sub_fixed(a: i64, b: i64) -> (r: i64)
    ensures
        r == clamp(a - b),
{
    match a.checked_sub(b) {
        Some(s) => s,
        None => if b < 0 { i64::MAX } else { i64::MIN },
    }
}

} // verus!

//! Integer helpers shared by the memory managers and the timers.
use vstd::prelude::*;

verus! {

/// `a.saturating_add(b)` on `u64`, as a mathematical statement.
pub open spec fn sat_add(a: int, b: int) -> u64 {
    if a + b > u64::MAX {
        u64::MAX
    } else if a + b < 0 {
        0
    } else {
        (a + b) as u64
    }
}

/// `a.saturating_sub(b)` on `u64`, as a mathematical statement.
pub open spec fn sat_sub(a: int, b: int) -> u64 {
    sat_add(a, -b)
}

/// `a.saturating_mul(b)` on `u64`, as a mathematical statement.
pub open spec fn sat_mul(a: int, b: int) -> u64 {
    if a * b > u64::MAX {
        u64::MAX
    } else {
        (a * b) as u64
    }
}

/// Multiplies two `u64`, clamping the product at `u64::MAX`.
pub fn saturating_mul_u64(a: u64, b: u64) -> (r: u64)
    ensures
        r == sat_mul(a as int, b as int),
{
    match a.checked_mul(b) {
        Some(p) => p,
        None => u64::MAX,
    }
}

/// `a.div_ceil(b)` on unbounded integers.
pub open spec fn div_ceil(a: int, b: int) -> int {
    (a + b - 1) / b
}

} // verus!

use vstd::prelude::*;

verus! {

/// The number of smallest units that make one coin of any currency.
pub const UNITS_PER_COIN: i64 = 100_000_000;

/// The value that an `i64` balance takes for the exact result `v`: `v` itself
/// where it fits, the nearest limit of `i64` where it does not.
pub open spec fn saturate(v: int) -> i64 {
    if v > i64::MAX {
        i64::MAX
    } else if v < i64::MIN {
        i64::MIN
    } else {
        v as i64
    }
}

/// `a + b`, held at the limits of `i64`.
pub fn add_saturating(a: i64, b: i64) -> (r: i64)
    ensures
        r == saturate(a + b),
{
    match a.checked_add(b) {
        Some(v) => v,
        None => {
            if b > 0 {
                i64::MAX
            } else {
                i64::MIN
            }
        },
    }
}

/// `a - b`, held at the limits of `i64`.
pub fn sub_saturating(a: i64, b: i64) -> (r: i64)
    ensures
        r == saturate(a - b),
{
    match a.checked_sub(b) {
        Some(v) => v,
        None => {
            if b < 0 {
                i64::MAX
            } else {
                i64::MIN
            }
        },
    }
}

} // verus!

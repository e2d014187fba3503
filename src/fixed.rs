use vstd::prelude::*;

verus! {

/// Micro-units per unit: every fixed-point value is its integer divided by this.
pub const ONE: i64 = 1000000;

/// Half a unit, in micro-units.
pub const HALF: i64 = 500000;

/// Floor of `a / d` for a positive `d` (in spec code `/` on `int` is Euclidean,
/// which is the floor for a positive divisor).
pub fn div_floor(a: i128, d: i128) -> (r: i128)
    requires
        d > 0,
    ensures
        r == a / d,
{
    match a.checked_div_euclid(d) {
        Some(q) => q,
        None => {
            proof {
                assert(i128::MIN <= a / d <= i128::MAX) by (nonlinear_arith)
                    requires
                        d > 0,
                        i128::MIN <= a <= i128::MAX,
                ;
            }
            0
        },
    }
}

/// The largest `r` with `r * r <= n`.
pub open spec fn is_isqrt(n: int, r: int) -> bool {
    r >= 0 && r * r <= n && n < (r + 1) * (r + 1)
}

/// Integer square root by bisection.
pub fn isqrt(n: u128) -> (r: u128)
    requires
        n < 0x100000000000000000000000000,
    ensures
        is_isqrt(n as int, r as int),
{
    let mut lo: u128 = 0;
    let mut hi: u128 = 0x10000000000000;
    assert(hi * hi == 0x100000000000000000000000000) by (nonlinear_arith)
        requires
            hi == 0x10000000000000,
    ;
    while hi - lo > 1
        invariant
            lo < hi <= 0x10000000000000,
            lo * lo <= n,
            n < hi * hi,
        decreases hi - lo,
    {
        let mid: u128 = lo + (hi - lo) / 2;
        assert(mid * mid <= 0x10000000000000 * 0x10000000000000) by (nonlinear_arith)
            requires
                mid <= 0x10000000000000,
        ;
        if mid * mid <= n {
            lo = mid;
        } else {
            hi = mid;
        }
    }
    assert(hi == lo + 1);
    lo
}

/// The integer nearest to the fixed-point value `s`, ties going down.
pub open spec fn nearest(s: int) -> int {
    (s + HALF - 1) / (ONE as int)
}

/// `n` and `c` split the fixed-point value `s` into an integer and a
/// remainder in `(-HALF, HALF]`: `s == n * ONE + c`.
pub open spec fn is_rounding(s: int, n: int, c: int) -> bool {
    s == n * ONE + c && -HALF < c <= HALF
}

/// Rounding to the nearest integer leaves a remainder in `(-HALF, HALF]`.
pub proof fn lemma_nearest(s: int)
    ensures
        is_rounding(s, nearest(s), s - nearest(s) * ONE),
{
}

/// Splits a fixed-point value into its nearest integer and the remainder.
pub fn round_nearest(s: i128) -> (r: (i128, i64))
    requires
        -0x1000000000000000000000000000000 < s < 0x1000000000000000000000000000000,
    ensures
        r.0 == nearest(s as int),
        r.1 == s - nearest(s as int) * ONE,
        is_rounding(s as int, r.0 as int, r.1 as int),
{
    let n = div_floor(s + (HALF as i128) - 1, ONE as i128);
    let c = s - n * (ONE as i128);
    (n, c as i64)
}

} // verus!

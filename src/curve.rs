use vstd::prelude::*;
use vstd::arithmetic::div_mod::lemma_div_is_ordered;
use vstd::arithmetic::mul::lemma_mul_inequality;
use crate::fixed::{ONE, div_floor};

verus! {

/// Largest magnitude of a curve parameter, in micro-units (a million units).
/// A curve without a cap has its ramp bounded here.
pub const PARAM_MAX: i64 = 1000000000000;

/// Largest speed the curve is evaluated at, in micro-units per millisecond.
pub const SPEED_MAX: i64 = 4600000000000000000;

/// The ramp's upper bound: the cap, or `PARAM_MAX` without one.
pub open spec fn ceiling(cap: Option<i64>) -> int {
    match cap {
        Some(c) => c as int,
        None => PARAM_MAX as int,
    }
}

/// `1 + accel * (speed - offset)` in fixed point, rounded down.
pub open spec fn ramp(accel: int, offset: int, speed: int) -> int {
    ONE + (accel * (speed - offset)) / (ONE as int)
}

/// `v` held within `[-PARAM_MAX, ceiling(cap)]`.
pub open spec fn clamp(v: int, cap: Option<i64>) -> int {
    if v > ceiling(cap) {
        ceiling(cap)
    } else if v < -PARAM_MAX {
        -PARAM_MAX as int
    } else {
        v
    }
}

/// The sensitivity curve: `mult` below `offset`, and above it
/// `mult * min(1 + accel * (speed - offset), cap)`, in fixed point.
pub open spec fn factor_spec(mult: int, accel: int, cap: Option<i64>, offset: int, speed: int) -> int {
    if speed < offset {
        mult
    } else {
        (mult * clamp(ramp(accel, offset, speed), cap)) / (ONE as int)
    }
}

/// Parameters that the fixed-point curve can evaluate without overflow.
pub open spec fn params_in_range(mult: int, accel: int, cap: Option<i64>, offset: int) -> bool {
    &&& -PARAM_MAX <= mult <= PARAM_MAX
    &&& -PARAM_MAX <= accel <= PARAM_MAX
    &&& -PARAM_MAX <= offset <= PARAM_MAX
    &&& match cap {
        Some(c) => 0 < c <= PARAM_MAX,
        None => true,
    }
}

/// Scale factor for a pointer moving at `speed` (micro-units per millisecond).
pub fn factor(mult: i64, accel: i64, cap: Option<i64>, offset: i64, speed: i64) -> (r: i64)
    requires
        params_in_range(mult as int, accel as int, cap, offset as int),
        0 <= speed <= SPEED_MAX,
    ensures
        r == factor_spec(mult as int, accel as int, cap, offset as int, speed as int),
{
    if speed < offset {
        return mult;
    }
    let d: i128 = speed as i128 - offset as i128;
    assert(-0x10000000000000000000000000000000 < accel * d < 0x10000000000000000000000000000000)
        by (nonlinear_arith)
        requires
            -PARAM_MAX <= accel <= PARAM_MAX,
            0 <= d <= SPEED_MAX + PARAM_MAX,
    ;
    let r: i128 = ONE as i128 + div_floor(accel as i128 * d, ONE as i128);
    let top: i128 = match cap {
        Some(c) => c as i128,
        None => PARAM_MAX as i128,
    };
    let b: i128 = if r > top {
        top
    } else if r < -(PARAM_MAX as i128) {
        -(PARAM_MAX as i128)
    } else {
        r
    };
    assert(-1000000000000000000000000 <= mult * b <= 1000000000000000000000000)
        by (nonlinear_arith)
        requires
            -PARAM_MAX <= mult <= PARAM_MAX,
            -PARAM_MAX <= b <= PARAM_MAX,
    ;
    let s = div_floor(mult as i128 * b, ONE as i128);
    s as i64
}

/// Why a set of curve parameters was rejected.
#[derive(Clone, Copy, Debug, PartialEq, Eq, Structural)]
pub enum CurveError {
    /// The multiplier is zero or negative.
    NonPositiveMultiplier,
    /// The cap is zero or negative.
    NonPositiveCap,
    /// A parameter lies beyond `PARAM_MAX` in magnitude.
    OutOfRange,
}

/// Parameters of the sensitivity curve, in micro-units.
#[derive(Clone, Copy, Debug, PartialEq, Eq, Structural)]
pub struct Curve {
    /// Baseline scale.
    pub mult: i64,
    /// Slope of the ramp, per unit of speed.
    pub accel: i64,
    /// Largest value of the ramp; `None` leaves it unbounded but by `PARAM_MAX`.
    pub cap: Option<i64>,
    /// Speed below which the curve stays at `mult`.
    pub offset: i64,
}

impl Curve {
    /// A positive multiplier, a positive cap if any, every value in range.
    pub open spec fn wf(&self) -> bool {
        &&& self.mult > 0
        &&& params_in_range(self.mult as int, self.accel as int, self.cap, self.offset as int)
    }

    /// The error `new` gives for these parameters, if any, checked in this order.
    pub open spec fn check(mult: i64, accel: i64, cap: Option<i64>, offset: i64) -> Option<CurveError> {
        if mult <= 0 {
            Some(CurveError::NonPositiveMultiplier)
        } else if cap is Some && cap->0 <= 0 {
            Some(CurveError::NonPositiveCap)
        } else if !params_in_range(mult as int, accel as int, cap, offset as int) {
            Some(CurveError::OutOfRange)
        } else {
            None
        }
    }

    /// Builds a curve, rejecting a non-positive multiplier or cap and values
    /// beyond the fixed-point range.
    pub fn new(mult: i64, accel: i64, cap: Option<i64>, offset: i64) -> (r: Result<Curve, CurveError>)
        ensures
            match Self::check(mult, accel, cap, offset) {
                Some(e) => r == Err::<Curve, CurveError>(e),
                None => r == Ok::<Curve, CurveError>(Curve { mult, accel, cap, offset }),
            },
            r is Ok ==> r->Ok_0.wf(),
    {
        if mult <= 0 {
            return Err(CurveError::NonPositiveMultiplier);
        }
        let top: i64 = match cap {
            Some(c) => {
                if c <= 0 {
                    return Err(CurveError::NonPositiveCap);
                }
                c
            },
            None => PARAM_MAX,
        };
        if mult > PARAM_MAX || top > PARAM_MAX || accel < -PARAM_MAX || accel > PARAM_MAX
            || offset < -PARAM_MAX || offset > PARAM_MAX {
            return Err(CurveError::OutOfRange);
        }
        Ok(Curve { mult, accel, cap, offset })
    }

    /// The scale factor at `speed`.
    pub fn factor_at(&self, speed: i64) -> (r: i64)
        requires
            self.wf(),
            0 <= speed <= SPEED_MAX,
        ensures
            r == factor_spec(self.mult as int, self.accel as int, self.cap, self.offset as int, speed as int),
    {
        factor(self.mult, self.accel, self.cap, self.offset, speed)
    }
}

/// Within range, the curve's value fits in `[-10^18, 10^18]` micro-units.
pub proof fn lemma_factor_bounded(mult: int, accel: int, cap: Option<i64>, offset: int, speed: int)
    requires
        params_in_range(mult, accel, cap, offset),
    ensures
        -1000000000000000000 <= factor_spec(mult, accel, cap, offset, speed) <= 1000000000000000000,
{
    if speed >= offset {
        let b = clamp(ramp(accel, offset, speed), cap);
        assert(-1000000000000000000000000 <= mult * b <= 1000000000000000000000000) by (nonlinear_arith)
            requires
                -PARAM_MAX <= mult <= PARAM_MAX,
                -PARAM_MAX <= b <= PARAM_MAX,
        ;
        lemma_div_is_ordered(-1000000000000000000000000, mult * b, ONE as int);
        lemma_div_is_ordered(mult * b, 1000000000000000000000000, ONE as int);
    }
}

/// Below the offset the curve is flat at the multiplier.
pub proof fn lemma_flat_below_offset(mult: int, accel: int, cap: Option<i64>, offset: int, speed: int)
    requires
        speed < offset,
    ensures
        factor_spec(mult, accel, cap, offset, speed) == mult,
{
}

/// At the offset itself the curve starts from the multiplier, when the cap
/// is at least one unit.
pub proof fn lemma_starts_at_mult(mult: int, accel: int, cap: Option<i64>, offset: int)
    requires
        ceiling(cap) >= ONE,
    ensures
        factor_spec(mult, accel, cap, offset, offset) == mult,
{
    assert(ramp(accel, offset, offset) == ONE as int);
    assert((mult * ONE) / (ONE as int) == mult) by (nonlinear_arith);
}

/// From the offset on, a positive multiplier and a non-negative slope make
/// the curve non-decreasing in speed.
pub proof fn lemma_monotone(mult: int, accel: int, cap: Option<i64>, offset: int, s1: int, s2: int)
    requires
        mult > 0,
        accel >= 0,
        offset <= s1 <= s2,
    ensures
        factor_spec(mult, accel, cap, offset, s1) <= factor_spec(mult, accel, cap, offset, s2),
{
    lemma_mul_inequality(s1 - offset, s2 - offset, accel);
    assert(accel * (s1 - offset) <= accel * (s2 - offset)) by (nonlinear_arith)
        requires
            (s1 - offset) * accel <= (s2 - offset) * accel,
    ;
    lemma_div_is_ordered(accel * (s1 - offset), accel * (s2 - offset), ONE as int);
    let b1 = clamp(ramp(accel, offset, s1), cap);
    let b2 = clamp(ramp(accel, offset, s2), cap);
    assert(b1 <= b2);
    lemma_mul_inequality(b1, b2, mult);
    assert(mult * b1 <= mult * b2) by (nonlinear_arith)
        requires
            b1 * mult <= b2 * mult,
    ;
    lemma_div_is_ordered(mult * b1, mult * b2, ONE as int);
}

/// From the offset on, with a positive multiplier, the curve never exceeds
/// `mult * cap`.
pub proof fn lemma_at_most_cap(mult: int, accel: int, c: i64, offset: int, speed: int)
    requires
        mult > 0,
        c > 0,
        offset <= speed,
    ensures
        factor_spec(mult, accel, Some(c), offset, speed) <= (mult * c) / (ONE as int),
{
    let b = clamp(ramp(accel, offset, speed), Some(c));
    assert(b <= c);
    lemma_mul_inequality(b, c as int, mult);
    assert(mult * b <= mult * c) by (nonlinear_arith)
        requires
            b * mult <= c * mult,
    ;
    lemma_div_is_ordered(mult * b, mult * c, ONE as int);
}

} // verus!

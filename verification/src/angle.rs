//! Angles in fixed point: one unit is a thousandth of a degree.

use vstd::prelude::*;

verus! {

/// An angle in degrees, held exactly as a whole number of thousandths.
#[derive(Clone, Copy, Debug, PartialEq, Eq, Structural)]
pub struct Angle {
    pub millidegrees: i64,
}

/// Thousandths in one whole degree.
pub const MILLI: i64 = 1000;

/// Quotient of `a` by a positive `b`, rounded toward zero.
pub open spec fn div_toward_zero(a: int, b: int) -> int {
    if a >= 0 {
        a / b
    } else {
        -((-a) / b)
    }
}

/// Computes `div_toward_zero` on machine integers.
pub fn quotient_toward_zero(a: i128, b: i128) -> (q: i128)
    requires
        b > 0,
        a > i128::MIN,
    ensures
        q == div_toward_zero(a as int, b as int),
{
    if a >= 0 {
        a / b
    } else {
        let n: i128 = -a;
        let p: i128 = n / b;
        assert(0 <= p <= n) by (nonlinear_arith)
            requires
                p == n / b,
                n > 0,
                b > 0,
        ;
        -p
    }
}

impl Angle {
    /// The angle as a mathematical number of thousandths of a degree.
    pub open spec fn view(&self) -> int {
        self.millidegrees as int
    }

    /// The angle of `millidegrees` thousandths of a degree.
    pub fn from_millidegrees(millidegrees: i64) -> (a: Angle)
        ensures
            a@ == millidegrees,
    {
        Angle { millidegrees }
    }

    /// The angle of a whole number of degrees.
    pub fn from_degrees(degrees: i32) -> (a: Angle)
        ensures
            a@ == degrees * 1000,
    {
        Angle { millidegrees: (degrees as i64) * MILLI }
    }

    /// The whole degrees of the angle, the fraction dropped (toward zero).
    pub fn whole_degrees(&self) -> (d: i64)
        ensures
            d == div_toward_zero(self@, 1000),
    {
        let q: i128 = quotient_toward_zero(self.millidegrees as i128, 1000);
        assert(i64::MIN <= q <= i64::MAX) by {
            let a = self@;
            if a >= 0 {
                assert(a / 1000 <= a) by (nonlinear_arith)
                    requires
                        a >= 0,
                ;
            } else {
                assert(0 <= (-a) / 1000 <= -a) by (nonlinear_arith)
                    requires
                        a < 0,
                ;
            }
        }
        q as i64
    }

    /// Whether the angle lies within `tolerance` of `target`.
    pub open spec fn is_within(&self, target: Angle, tolerance: Angle) -> bool {
        -tolerance@ <= self@ - target@ <= tolerance@
    }

    /// Tests `is_within`.
    pub fn within(&self, target: Angle, tolerance: Angle) -> (b: bool)
        ensures
            b == self.is_within(target, tolerance),
    {
        let d: i128 = self.millidegrees as i128 - target.millidegrees as i128;
        let t: i128 = tolerance.millidegrees as i128;
        -t <= d && d <= t
    }
}

} // verus!

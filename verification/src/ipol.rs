//! Linear interpolation between two calibrated points.

use crate::decimal::{fits_i64, floor_div, mul_div_floor, Decimal};
use vstd::prelude::*;

verus! {

/// The ordinate at `x` on the line through `(x0, y0)` and `(x1, y1)`, in
/// units and rounded down.  A bracket of zero width gives `y0`.
pub open spec fn interpolation(x: int, x0: int, x1: int, y0: int, y1: int) -> int {
    if x1 == x0 {
        y0
    } else {
        y0 + floor_div((x - x0) * (y1 - y0), x1 - x0)
    }
}

/// At the left end of the bracket the interpolation is `y0`, at the right
/// end it is `y1`: a calibrated point is never moved by rounding.
pub proof fn lemma_interpolation_endpoints(x0: int, x1: int, y0: int, y1: int)
    ensures
        interpolation(x0, x0, x1, y0, y1) == y0,
        x0 != x1 ==> interpolation(x1, x0, x1, y0, y1) == y1,
{
    assert((x0 - x0) * (y1 - y0) == 0) by (nonlinear_arith);
    if x0 < x1 {
        vstd::arithmetic::div_mod::lemma_div_multiples_vanish(y1 - y0, x1 - x0);
    } else if x1 < x0 {
        assert(-((x1 - x0) * (y1 - y0)) == (x0 - x1) * (y1 - y0)) by (nonlinear_arith);
        vstd::arithmetic::div_mod::lemma_div_multiples_vanish(y1 - y0, x0 - x1);
    }
}

/// Over a bracket `x0 < x1` the interpolation rises with `x` where
/// `y0 <= y1` and falls with it where `y0 >= y1`.
pub proof fn lemma_interpolation_monotonic(xa: int, xb: int, x0: int, x1: int, y0: int, y1: int)
    requires
        x0 < x1,
        xa <= xb,
    ensures
        y0 <= y1 ==> interpolation(xa, x0, x1, y0, y1) <= interpolation(xb, x0, x1, y0, y1),
        y0 >= y1 ==> interpolation(xa, x0, x1, y0, y1) >= interpolation(xb, x0, x1, y0, y1),
{
    let d = x1 - x0;
    if y0 <= y1 {
        vstd::arithmetic::mul::lemma_mul_inequality(xa - x0, xb - x0, y1 - y0);
        vstd::arithmetic::div_mod::lemma_div_is_ordered(
            (xa - x0) * (y1 - y0),
            (xb - x0) * (y1 - y0),
            d,
        );
    }
    if y0 >= y1 {
        assert((xb - x0) * (y1 - y0) <= (xa - x0) * (y1 - y0)) by (nonlinear_arith)
            requires
                xa <= xb,
                y1 - y0 <= 0,
        ;
        vstd::arithmetic::div_mod::lemma_div_is_ordered(
            (xb - x0) * (y1 - y0),
            (xa - x0) * (y1 - y0),
            d,
        );
    }
}

/// Inside its bracket the interpolation stays between the two calibrated
/// values: nothing is extrapolated.
pub proof fn lemma_interpolation_between(x: int, x0: int, x1: int, y0: int, y1: int)
    requires
        x0 < x1,
        x0 <= x <= x1,
    ensures
        y0 <= y1 ==> y0 <= interpolation(x, x0, x1, y0, y1) <= y1,
        y0 >= y1 ==> y1 <= interpolation(x, x0, x1, y0, y1) <= y0,
{
    lemma_interpolation_endpoints(x0, x1, y0, y1);
    lemma_interpolation_monotonic(x0, x, x0, x1, y0, y1);
    lemma_interpolation_monotonic(x, x1, x0, x1, y0, y1);
}

/// Interpolates linearly between `(x0, y0)` and `(x1, y1)` at `x`, which
/// need not lie between `x0` and `x1`.  The result has to be a value that a
/// decimal can hold; between the two points it always is.
pub fn interpolate_linear(x: Decimal, x0: Decimal, x1: Decimal, y0: Decimal, y1: Decimal) -> (y:
    Decimal)
    requires
        fits_i64(
            interpolation(
                x.units as int,
                x0.units as int,
                x1.units as int,
                y0.units as int,
                y1.units as int,
            ),
        ),
    ensures
        y.units == interpolation(
            x.units as int,
            x0.units as int,
            x1.units as int,
            y0.units as int,
            y1.units as int,
        ),
{
    if x1.units == x0.units {
        return y0;
    }
    let a: i128 = x.units as i128 - x0.units as i128;
    let b: i128 = y1.units as i128 - y0.units as i128;
    let d: i128 = x1.units as i128 - x0.units as i128;
    match mul_div_floor(a, b, d) {
        Some(t) => {
            let s: i128 = y0.units as i128 + t;
            Decimal { units: s as i64 }
        },
        None => y0,
    }
}

/// The interpolation is the exact line, rounded down by less than one unit:
/// towards either end of the bracket it comes as near to the calibrated
/// value as the line does.
pub proof fn lemma_interpolation_follows_the_line(x: int, x0: int, x1: int, y0: int, y1: int)
    requires
        x0 < x1,
    ensures
        (interpolation(x, x0, x1, y0, y1) - y0) * (x1 - x0) <= (x - x0) * (y1 - y0),
        (x - x0) * (y1 - y0) < (interpolation(x, x0, x1, y0, y1) - y0 + 1) * (x1 - x0),
{
    let n = (x - x0) * (y1 - y0);
    let d = x1 - x0;
    vstd::arithmetic::div_mod::lemma_fundamental_div_mod(n, d);
    vstd::arithmetic::div_mod::lemma_mod_bound(n, d);
    let q = n / d;
    assert(q * d == d * q && (q + 1) * d == d * q + d) by (nonlinear_arith);
}

} // verus!

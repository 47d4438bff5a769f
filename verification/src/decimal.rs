//! Exact decimal quantities: energies, distances, doses and factors.

use vstd::prelude::*;

verus! {

/// How many stored units make up the value one.
pub const UNITS_PER_ONE: i64 = 1_000_000_000;

/// The largest magnitude that the difference of two decimals can have.
pub const MAX_SPAN: i128 = 0xFFFF_FFFF_FFFF_FFFF;

/// A decimal number with nine fractional digits, held as a whole number of
/// billionths.  Two decimals are equal exactly when their units are.
#[derive(Clone, Copy, Debug, PartialEq, Eq, Structural)]
pub struct Decimal {
    pub units: i64,
}

/// The quotient `n / d` rounded towards negative infinity, for any sign of `d`.
pub open spec fn floor_div(n: int, d: int) -> int
    recommends
        d != 0,
{
    if d > 0 {
        n / d
    } else {
        (-n) / (-d)
    }
}

/// The product of two decimals given by their units, in units, rounded down.
pub open spec fn product_units(a: int, b: int) -> int {
    floor_div(a * b, UNITS_PER_ONE as int)
}

/// The quotient of two decimals given by their units, in units, rounded down.
pub open spec fn quotient_units(a: int, b: int) -> int
    recommends
        b != 0,
{
    floor_div(a * UNITS_PER_ONE, b)
}

pub open spec fn fits_i64(v: int) -> bool {
    i64::MIN <= v <= i64::MAX
}

pub open spec fn fits_i128(v: int) -> bool {
    i128::MIN <= v <= i128::MAX
}

/// Rounding down a negative quotient: one more than the truncated magnitude
/// unless the division is exact.
pub proof fn lemma_floor_of_negative(p: int, m: int)
    requires
        0 <= p,
        0 < m,
    ensures
        (-p) / m == -(p / m) - (if p % m == 0 { 0int } else { 1int }),
{
    let q = p / m;
    let r = p % m;
    vstd::arithmetic::div_mod::lemma_fundamental_div_mod(p, m);
    assert(p == m * q + r);
    vstd::arithmetic::div_mod::lemma_mod_bound(p, m);
    if r == 0 {
        assert(-p == m * (-q) + 0) by (nonlinear_arith)
            requires
                p == m * q + r,
                r == 0,
        ;
        vstd::arithmetic::div_mod::lemma_fundamental_div_mod_converse(-p, m, -q, 0);
    } else {
        assert(-p == m * (-q - 1) + (m - r)) by (nonlinear_arith)
            requires
                p == m * q + r,
        ;
        vstd::arithmetic::div_mod::lemma_fundamental_div_mod_converse(-p, m, -q - 1, m - r);
    }
}

/// The magnitude of a value that lies within `MAX_SPAN` of zero.
fn magnitude(v: i128) -> (m: u128)
    requires
        -MAX_SPAN <= v <= MAX_SPAN,
    ensures
        m == (if v < 0 { -v } else { v as int }),
        m <= MAX_SPAN,
{
    if v < 0 {
        (-v) as u128
    } else {
        v as u128
    }
}

/// Computes `a * b / d` rounded down, without losing any digit of the
/// product, or `None` where the quotient does not fit.
pub(crate) fn mul_div_floor(a: i128, b: i128, d: i128) -> (q: Option<i128>)
    requires
        -MAX_SPAN <= a <= MAX_SPAN,
        -MAX_SPAN <= b <= MAX_SPAN,
        -MAX_SPAN <= d <= MAX_SPAN,
        d != 0,
    ensures
        q == (if fits_i128(floor_div(a * b, d as int)) {
            Some(floor_div(a * b, d as int) as i128)
        } else {
            None
        }),
{
    let ma: u128 = magnitude(a);
    let mb: u128 = magnitude(b);
    let md: u128 = magnitude(d);
    assert(ma * mb <= MAX_SPAN * MAX_SPAN) by (nonlinear_arith)
        requires
            0 <= ma <= MAX_SPAN,
            0 <= mb <= MAX_SPAN,
    ;
    let p: u128 = ma * mb;
    let quot: u128 = p / md;
    let rem: u128 = p % md;
    let negative: bool = ((a < 0) != (b < 0)) != (d < 0);
    proof {
        // The sign of the exact product, and the numerator that `floor_div` divides.
        let n: int = if d > 0 { a * b } else { -(a * b) };
        assert(floor_div(a * b, d as int) == n / (md as int));
        assert(n == (if negative { -(p as int) } else { p as int })) by (nonlinear_arith)
            requires
                n == (if d > 0 { a * b } else { -(a * b) }),
                p == ma * mb,
                ma == (if a < 0 { -a } else { a as int }),
                mb == (if b < 0 { -b } else { b as int }),
                negative == (((a < 0) != (b < 0)) != (d < 0)),
                d != 0,
        ;
        if negative {
            lemma_floor_of_negative(p as int, md as int);
        }
    }
    if !negative {
        if quot <= i128::MAX as u128 {
            Some(quot as i128)
        } else {
            None
        }
    } else {
        let up: u128 = if rem == 0 { 0 } else { 1 };
        let limit: u128 = 0x8000_0000_0000_0000_0000_0000_0000_0000;
        if quot >= limit {
            if quot == limit && rem == 0 {
                Some(i128::MIN)
            } else {
                None
            }
        } else {
            let m: u128 = quot + up;
            if m == limit {
                Some(i128::MIN)
            } else {
                Some(-(m as i128))
            }
        }
    }
}

impl Decimal {
    /// The decimal that holds the given number of billionths.
    pub fn from_units(units: i64) -> (d: Decimal)
        ensures
            d.units == units,
    {
        Decimal { units }
    }

    /// The number of billionths that this decimal holds.
    pub fn units(&self) -> (u: i64)
        ensures
            u == self.units,
    {
        self.units
    }

    /// Zero, which marks a quantity that has not been given.
    pub fn zero() -> (d: Decimal)
        ensures
            d.units == 0,
    {
        Decimal { units: 0 }
    }

    pub fn is_zero(&self) -> (b: bool)
        ensures
            b == (self.units == 0),
    {
        self.units == 0
    }

    /// The product, rounded down to a whole number of units, or `None`
    /// where it is too large to hold.
    pub fn checked_mul(self, other: Decimal) -> (r: Option<Decimal>)
        ensures
            r == (if fits_i64(product_units(self.units as int, other.units as int)) {
                Some(Decimal { units: product_units(self.units as int, other.units as int) as i64 })
            } else {
                None
            }),
    {
        match mul_div_floor(self.units as i128, other.units as i128, UNITS_PER_ONE as i128) {
            Some(q) => {
                if q >= i64::MIN as i128 && q <= i64::MAX as i128 {
                    Some(Decimal { units: q as i64 })
                } else {
                    None
                }
            },
            None => None,
        }
    }

    /// The quotient, rounded down to a whole number of units, or `None`
    /// where the divisor is zero or the quotient is too large to hold.
    pub fn checked_div(self, other: Decimal) -> (r: Option<Decimal>)
        ensures
            r == (if other.units != 0 && fits_i64(
                quotient_units(self.units as int, other.units as int),
            ) {
                Some(
                    Decimal { units: quotient_units(self.units as int, other.units as int) as i64 },
                )
            } else {
                None
            }),
    {
        if other.units == 0 {
            return None;
        }
        match mul_div_floor(self.units as i128, UNITS_PER_ONE as i128, other.units as i128) {
            Some(q) => {
                if q >= i64::MIN as i128 && q <= i64::MAX as i128 {
                    Some(Decimal { units: q as i64 })
                } else {
                    None
                }
            },
            None => None,
        }
    }
}

/// A copy of a list of decimals.
pub(crate) fn copy_decimals(v: &Vec<Decimal>) -> (r: Vec<Decimal>)
    ensures
        r@ == v@,
{
    let mut r: Vec<Decimal> = Vec::new();
    let mut i: usize = 0;
    while i < v.len()
        invariant
            i <= v.len(),
            r@ == v@.subrange(0, i as int),
        decreases v.len() - i,
    {
        r.push(v[i]);
        assert(r@ == v@.subrange(0, i + 1));
        i += 1;
    }
    r
}

/// A copy of a table of decimals, column by column.
pub(crate) fn copy_columns(v: &Vec<Vec<Decimal>>) -> (r: Vec<Vec<Decimal>>)
    ensures
        r@.len() == v@.len(),
        forall|c: int| 0 <= c < v@.len() ==> (#[trigger] r@[c])@ == v@[c]@,
{
    let mut r: Vec<Vec<Decimal>> = Vec::new();
    let mut i: usize = 0;
    while i < v.len()
        invariant
            i <= v.len(),
            r@.len() == i,
            forall|c: int| 0 <= c < i ==> (#[trigger] r@[c])@ == v@[c]@,
        decreases v.len() - i,
    {
        r.push(copy_decimals(&v[i]));
        i += 1;
    }
    r
}

} // verus!

//! The monitor units that follow from a dose and a correction factor, and
//! how far they are from the plan.

use crate::calc_param::CalcParam;
use crate::correction_data::CorrectionData;
use crate::decimal::{fits_i64, floor_div, mul_div_floor, quotient_units, Decimal};
use crate::errors::EmuError;
use vstd::prelude::*;

verus! {

/// A hundred, in units of a billionth.
pub const HUNDRED: i128 = 100_000_000_000;

/// The monitor units for a dose at the reference depth and a correction
/// factor: the dose divided by the factor, rounded down.  A factor of zero
/// gives no monitor units, nor does a failed lookup or a quotient that is
/// too large to hold.
pub open spec fn monitor_units(dose: Decimal, cf: Result<Decimal, EmuError>) -> Result<
    Decimal,
    EmuError,
> {
    match cf {
        Err(e) => Err(e),
        Ok(f) => if f.units == 0 {
            Err(EmuError::ZeroCorrectionFactor)
        } else if !fits_i64(quotient_units(dose.units as int, f.units as int)) {
            Err(EmuError::OutOfRange)
        } else {
            Ok(Decimal { units: quotient_units(dose.units as int, f.units as int) as i64 })
        },
    }
}

/// How far the plan is from the computed monitor units, in percent of the
/// computed monitor units and in units of a billionth, rounded down.
pub open spec fn difference_units(mu: int, planned: int) -> int
    recommends
        mu != 0,
{
    floor_div((mu - planned) * HUNDRED, mu)
}

/// The monitor units of a check with their distance from the plan.
#[derive(Clone, Copy, Debug, PartialEq, Eq, Structural)]
pub struct Computed {
    /// The monitor units that the check arrived at.
    pub mu: Decimal,
    /// By how many percent of them the planned monitor units are smaller.
    pub difference: Decimal,
}

/// Divides a dose at the reference depth by a correction factor.
pub fn compute_mu(dose_zref: Decimal, correction_factor: Decimal) -> (r: Result<Decimal, EmuError>)
    ensures
        r == monitor_units(dose_zref, Ok(correction_factor)),
{
    if correction_factor.is_zero() {
        return Err(EmuError::ZeroCorrectionFactor);
    }
    match dose_zref.checked_div(correction_factor) {
        Some(mu) => Ok(mu),
        None => Err(EmuError::OutOfRange),
    }
}

/// The monitor units for the parameters of a calculation, from the
/// calibration data of its machine and applicator.
pub fn calculate_mu(calc_param: &CalcParam, cd: &CorrectionData) -> (r: Result<Decimal, EmuError>)
    ensures
        r == monitor_units(
            calc_param@.dose_zref,
            cd@.correction_factor(calc_param@.energy, calc_param@.ssd, calc_param@.fda_id),
        ),
{
    match cd.get_correction_factor(calc_param.energy, calc_param.ssd, calc_param.fda_id) {
        Ok(f) => compute_mu(calc_param.dose_zref, f),
        Err(e) => Err(e),
    }
}

/// Holds computed monitor units against the planned ones.  There is no
/// distance from zero monitor units, and none that is too large to hold.
pub fn compare_with_plan(mu: Decimal, planned_beam_mu: Decimal) -> (r: Result<Computed, EmuError>)
    ensures
        r == (if mu.units != 0 && fits_i64(
            difference_units(mu.units as int, planned_beam_mu.units as int),
        ) {
            Ok::<Computed, EmuError>(
                Computed {
                    mu,
                    difference: Decimal {
                        units: difference_units(
                            mu.units as int,
                            planned_beam_mu.units as int,
                        ) as i64,
                    },
                },
            )
        } else {
            Err(EmuError::OutOfRange)
        }),
{
    if mu.is_zero() {
        return Err(EmuError::OutOfRange);
    }
    let gap: i128 = mu.units as i128 - planned_beam_mu.units as i128;
    match mul_div_floor(gap, HUNDRED, mu.units as i128) {
        Some(q) => {
            if q >= i64::MIN as i128 && q <= i64::MAX as i128 {
                Ok(Computed { mu, difference: Decimal { units: q as i64 } })
            } else {
                Err(EmuError::OutOfRange)
            }
        },
        None => Err(EmuError::OutOfRange),
    }
}

} // verus!

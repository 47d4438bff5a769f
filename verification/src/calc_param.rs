//! What a calculation is asked for: the machine and applicator, the beam
//! and the planned monitor units.

use crate::decimal::Decimal;
use vstd::prelude::*;

verus! {

/// The id that stands for "no aperture given".
pub const NO_FDA_ID: usize = usize::MAX;

/// What a calculation is asked for, with every text as the characters it
/// holds.
pub struct Query {
    pub machine: Seq<char>,
    pub applicator: Seq<char>,
    pub energy: Decimal,
    pub ssd: Decimal,
    pub depth_zref: Decimal,
    pub dose_zref: Decimal,
    pub planned_beam_mu: Decimal,
    pub fda_id: usize,
}

impl Query {
    /// The query in which nothing is given.
    pub open spec fn unset() -> Query {
        Query {
            machine: Seq::empty(),
            applicator: Seq::empty(),
            energy: Decimal { units: 0 },
            ssd: Decimal { units: 0 },
            depth_zref: Decimal { units: 0 },
            dose_zref: Decimal { units: 0 },
            planned_beam_mu: Decimal { units: 0 },
            fda_id: NO_FDA_ID,
        }
    }
}

/// The parameters of a calculation.  A field that has not been given holds
/// a value that cannot be meant: the empty text, zero, or the largest id.
#[derive(Debug)]
pub struct CalcParam {
    pub machine: String,
    pub applicator: String,
    /// The energy, in MeV.
    pub energy: Decimal,
    /// The source-to-skin distance, in cm.
    pub ssd: Decimal,
    /// The reference depth, in cm.
    pub depth_zref: Decimal,
    /// The dose at the reference depth, in cGy.
    pub dose_zref: Decimal,
    /// The monitor units of the plan.
    pub planned_beam_mu: Decimal,
    /// The id of the field-defining aperture.
    pub fda_id: usize,
}

impl View for CalcParam {
    type V = Query;

    open spec fn view(&self) -> Query {
        Query {
            machine: self.machine@,
            applicator: self.applicator@,
            energy: self.energy,
            ssd: self.ssd,
            depth_zref: self.depth_zref,
            dose_zref: self.dose_zref,
            planned_beam_mu: self.planned_beam_mu,
            fda_id: self.fda_id,
        }
    }
}

impl Clone for CalcParam {
    fn clone(&self) -> (r: Self)
        ensures
            r@ == self@,
    {
        CalcParam {
            machine: self.machine.clone(),
            applicator: self.applicator.clone(),
            energy: self.energy,
            ssd: self.ssd,
            depth_zref: self.depth_zref,
            dose_zref: self.dose_zref,
            planned_beam_mu: self.planned_beam_mu,
            fda_id: self.fda_id,
        }
    }
}

impl Default for CalcParam {
    fn default() -> (r: Self)
        ensures
            r@ == Query::unset(),
    {
        CalcParam::new()
    }
}

impl CalcParam {
    /// Parameters in which nothing is given.
    pub fn new() -> (r: CalcParam)
        ensures
            r@ == Query::unset(),
    {
        let r = CalcParam {
            machine: String::new(),
            applicator: String::new(),
            energy: Decimal::zero(),
            ssd: Decimal::zero(),
            depth_zref: Decimal::zero(),
            dose_zref: Decimal::zero(),
            planned_beam_mu: Decimal::zero(),
            fda_id: NO_FDA_ID,
        };
        assert(r@.machine =~= Seq::<char>::empty());
        assert(r@.applicator =~= Seq::<char>::empty());
        r
    }

    pub fn has_machine(&self) -> (b: bool)
        ensures
            b == (self@.machine.len() > 0),
    {
        !self.machine.as_str().is_empty()
    }

    pub fn has_applicator(&self) -> (b: bool)
        ensures
            b == (self@.applicator.len() > 0),
    {
        !self.applicator.as_str().is_empty()
    }

    pub fn has_energy(&self) -> (b: bool)
        ensures
            b == (self@.energy.units != 0),
    {
        !self.energy.is_zero()
    }

    pub fn has_ssd(&self) -> (b: bool)
        ensures
            b == (self@.ssd.units != 0),
    {
        !self.ssd.is_zero()
    }

    pub fn has_depth_zref(&self) -> (b: bool)
        ensures
            b == (self@.depth_zref.units != 0),
    {
        !self.depth_zref.is_zero()
    }

    pub fn has_dose_zref(&self) -> (b: bool)
        ensures
            b == (self@.dose_zref.units != 0),
    {
        !self.dose_zref.is_zero()
    }

    pub fn has_planned_beam_mu(&self) -> (b: bool)
        ensures
            b == (self@.planned_beam_mu.units != 0),
    {
        !self.planned_beam_mu.is_zero()
    }

    pub fn has_fda_id(&self) -> (b: bool)
        ensures
            b == (self@.fda_id != NO_FDA_ID),
    {
        self.fda_id != NO_FDA_ID
    }
}

} // verus!

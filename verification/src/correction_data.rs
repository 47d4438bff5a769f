//! The calibration data of one machine and applicator: its output factors
//! and its aperture corrections.

use crate::decimal::{copy_decimals, fits_i64, product_units, Decimal};
use crate::errors::EmuError;
use crate::fda_table::{Apertures, FdaTable};
use crate::of_table::{OFTable, OutputFactors};
use crate::search::find_decimal;
use vstd::prelude::*;

verus! {

/// Whether two lists hold the same energies, in whatever order and however
/// often.
pub open spec fn same_energies(a: Seq<Decimal>, b: Seq<Decimal>) -> bool {
    a.to_set() == b.to_set()
}

/// The product of an output factor and an aperture correction, where both
/// were found and the product can be held.  The error of the output factor
/// comes first.
pub open spec fn combined_factor(
    of: Result<Decimal, EmuError>,
    fda: Result<Decimal, EmuError>,
) -> Result<Decimal, EmuError> {
    match of {
        Err(e) => Err(e),
        Ok(a) => match fda {
            Err(e) => Err(e),
            Ok(b) => if fits_i64(product_units(a.units as int, b.units as int)) {
                Ok(Decimal { units: product_units(a.units as int, b.units as int) as i64 })
            } else {
                Err(EmuError::OutOfRange)
            },
        },
    }
}

/// What the calibration data of one machine and applicator hold.
pub struct Calibration {
    pub machine: Seq<char>,
    pub applicator: Seq<char>,
    pub output_factors: OutputFactors,
    pub fda: Apertures,
}

impl Calibration {
    /// Both tables are well formed.
    pub open spec fn wf(self) -> bool {
        self.output_factors.wf() && self.fda.wf()
    }

    /// The two tables speak of the same energies.
    pub open spec fn valid(self) -> bool {
        same_energies(self.output_factors.energies, self.fda.energies)
    }

    /// The total correction: output factor times aperture correction.
    pub open spec fn correction_factor(self, energy: Decimal, ssd: Decimal, fda_id: usize) -> Result<
        Decimal,
        EmuError,
    > {
        combined_factor(
            self.output_factors.correction_factor(energy, ssd),
            self.fda.correction_factor(energy, fda_id),
        )
    }
}

/// The calibration data of one machine and applicator.
#[derive(Debug)]
pub struct CorrectionData {
    pub machine: String,
    pub applicator: String,
    pub output_factors: OFTable,
    pub fda: FdaTable,
}

impl View for CorrectionData {
    type V = Calibration;

    open spec fn view(&self) -> Calibration {
        Calibration {
            machine: self.machine@,
            applicator: self.applicator@,
            output_factors: self.output_factors@,
            fda: self.fda@,
        }
    }
}

impl Clone for CorrectionData {
    fn clone(&self) -> (r: Self)
        ensures
            r@ == self@,
    {
        CorrectionData {
            machine: self.machine.clone(),
            applicator: self.applicator.clone(),
            output_factors: self.output_factors.clone(),
            fda: self.fda.clone(),
        }
    }
}

impl Default for CorrectionData {
    fn default() -> (r: Self)
        ensures
            r@.machine.len() == 0,
            r@.applicator.len() == 0,
            r@.output_factors.energies.len() == 0,
            r@.output_factors.ssds.len() == 0,
            r@.fda.energies.len() == 0,
            r@.fda.ids.len() == 0,
    {
        CorrectionData::new()
    }
}

/// What a list of calibration data holds, entry by entry.
pub open spec fn calibrations(v: Seq<CorrectionData>) -> Seq<Calibration> {
    Seq::new(v.len(), |i: int| v[i]@)
}

/// Whether every energy of `a` is among those of `b`.
fn all_among(a: &Vec<Decimal>, b: &Vec<Decimal>) -> (r: bool)
    ensures
        r == (forall|i: int| 0 <= i < a@.len() ==> b@.contains(#[trigger] a@[i])),
{
    let mut i: usize = 0;
    while i < a.len()
        invariant
            i <= a.len(),
            forall|j: int| 0 <= j < i ==> b@.contains(#[trigger] a@[j]),
        decreases a.len() - i,
    {
        if find_decimal(b, a[i]).is_none() {
            return false;
        }
        proof {
            crate::search::lemma_first_at(b@, a@[i as int]);
        }
        i += 1;
    }
    true
}

/// Whether two lists hold the same energies, in whatever order.
pub fn same_energy_lists(a: &Vec<Decimal>, b: &Vec<Decimal>) -> (r: bool)
    ensures
        r == same_energies(a@, b@),
{
    let r = all_among(a, b) && all_among(b, a);
    proof {
        if r {
            assert(a@.to_set() =~= b@.to_set());
        } else {
            if !(forall|i: int| 0 <= i < a@.len() ==> b@.contains(#[trigger] a@[i])) {
                let i = choose|i: int| 0 <= i < a@.len() && !b@.contains(#[trigger] a@[i]);
                assert(a@.to_set().contains(a@[i]));
                assert(!b@.to_set().contains(a@[i]));
            } else {
                let i = choose|i: int| 0 <= i < b@.len() && !a@.contains(#[trigger] b@[i]);
                assert(b@.to_set().contains(b@[i]));
                assert(!a@.to_set().contains(b@[i]));
            }
        }
    }
    r
}

impl CorrectionData {
    /// Data without a name and with two empty tables.
    pub fn new() -> (r: CorrectionData)
        ensures
            r@.machine.len() == 0,
            r@.applicator.len() == 0,
            r@.output_factors.energies.len() == 0,
            r@.output_factors.zrefs.len() == 0,
            r@.output_factors.ssds.len() == 0,
            r@.output_factors.columns.len() == 0,
            r@.fda.energies.len() == 0,
            r@.fda.ids.len() == 0,
            r@.fda.names.len() == 0,
            r@.fda.columns.len() == 0,
            r@.wf(),
    {
        CorrectionData {
            machine: String::new(),
            applicator: String::new(),
            output_factors: OFTable::new(),
            fda: FdaTable::new(),
        }
    }

    /// Gives both tables the same energies.
    pub fn set_energies(&mut self, values: Vec<Decimal>)
        ensures
            final(self)@ == (Calibration {
                output_factors: OutputFactors { energies: values@, ..old(self)@.output_factors },
                fda: Apertures { energies: values@, ..old(self)@.fda },
                ..old(self)@
            }),
    {
        let copy = copy_decimals(&values);
        self.output_factors.set_energies(copy);
        self.fda.set_energies(values);
    }

    /// Replaces the reference depths of the output factors.
    pub fn set_zrefs(&mut self, values: Vec<Decimal>)
        ensures
            final(self)@ == (Calibration {
                output_factors: OutputFactors { zrefs: values@, ..old(self)@.output_factors },
                ..old(self)@
            }),
    {
        self.output_factors.set_zrefs(values);
    }

    /// Whether the two tables speak of the same energies, in whatever
    /// order.
    pub fn validate(&self) -> (b: bool)
        ensures
            b == self@.valid(),
    {
        same_energy_lists(self.output_factors.get_energies(), self.fda.get_energies())
    }

    /// Records the output factors of one source-to-skin distance.
    pub fn add_output_factor_per_ssd(&mut self, ssd: Decimal, ofs: Vec<Decimal>) -> (r: Result<
        (),
        EmuError,
    >)
        ensures
            old(self)@.output_factors.accepts_row(ofs@) ==> r is Ok && final(self)@ == (Calibration {
                output_factors: old(self)@.output_factors.with_row(ssd, ofs@),
                ..old(self)@
            }),
            !old(self)@.output_factors.accepts_row(ofs@) ==> final(self)@ == old(self)@ && r
                == Err::<(), EmuError>(
                EmuError::ShapeMismatch {
                    expected: old(self)@.output_factors.expected_width(ofs@) as usize,
                    found: ofs@.len() as usize,
                },
            ),
    {
        self.output_factors.add_output_factor_per_ssd(ssd, ofs)
    }

    /// Records one aperture with its corrections.
    pub fn add_field_defining_aperture(
        &mut self,
        name: &str,
        id: usize,
        corrections: Vec<Decimal>,
    ) -> (r: Result<(), EmuError>)
        ensures
            r == old(self)@.fda.add_outcome(id, corrections@),
            r is Ok ==> final(self)@ == (Calibration {
                fda: old(self)@.fda.with_row(name@, id, corrections@),
                ..old(self)@
            }),
            r is Err ==> final(self)@ == old(self)@,
    {
        self.fda.add(name, id, corrections)
    }

    /// The total correction for an energy, a source-to-skin distance and an
    /// aperture: the output factor times the aperture correction.  Where a
    /// lookup fails its error is handed on, that of the output factor first.
    pub fn get_correction_factor(&self, energy: Decimal, ssd: Decimal, fda_id: usize) -> (r: Result<
        Decimal,
        EmuError,
    >)
        ensures
            r == self@.correction_factor(energy, ssd, fda_id),
    {
        let cf_of = match self.output_factors.get_cf(energy, ssd) {
            Ok(v) => v,
            Err(e) => {
                return Err(e);
            },
        };
        let cf_fda = match self.fda.get_cf(energy, fda_id) {
            Ok(v) => v,
            Err(e) => {
                return Err(e);
            },
        };
        match cf_of.checked_mul(cf_fda) {
            Some(cf) => Ok(cf),
            None => Err(EmuError::OutOfRange),
        }
    }

    /// The energies of the output factors.
    pub fn get_energies(&self) -> (r: Vec<Decimal>)
        ensures
            r@ == self@.output_factors.energies,
    {
        copy_decimals(self.output_factors.get_energies())
    }

    /// The energies of the output factors.
    pub fn get_energies_as_ref(&self) -> (r: &Vec<Decimal>)
        ensures
            r@ == self@.output_factors.energies,
    {
        self.output_factors.get_energies()
    }

    /// The reference depth of an energy.
    pub fn get_zref(&self, energy: Decimal) -> (r: Option<Decimal>)
        ensures
            r == self@.output_factors.zref(energy),
    {
        self.output_factors.get_zref(energy)
    }
}

/// Validation looks at which energies the two tables have, not at their
/// order: two lists pass exactly when each energy of one is in the other.
pub proof fn law_validation_ignores_order(a: Seq<Decimal>, b: Seq<Decimal>)
    ensures
        same_energies(a, b) <==> (forall|x: Decimal| a.contains(x) <==> b.contains(x)),
        same_energies(a, b) <==> same_energies(b, a),
{
    if forall|x: Decimal| a.contains(x) <==> b.contains(x) {
        assert(a.to_set() =~= b.to_set());
    }
    if same_energies(a, b) {
        assert forall|x: Decimal| a.contains(x) <==> b.contains(x) by {
            assert(a.to_set().contains(x) == b.to_set().contains(x));
        }
    }
}

} // verus!

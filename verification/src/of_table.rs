//! Output factors of one machine and applicator, by energy and
//! source-to-skin distance.

use crate::decimal::{copy_columns, copy_decimals, Decimal};
use crate::errors::{EmuError, Failure};
use crate::records::{
    applicator_row_failure, check_applicator_row, csv_records, expected_at, expected_text, filled,
    lemma_filled_prefix, lemma_filled_step, missing_row, missing_row_error, numbers,
    numbers_failure, parse_records, read_numbers, table_texts, width_failure, width_mismatch,
};
use crate::text::{decimal_of_text, parse_decimal, texts};
use crate::ipol::{interpolate_linear, interpolation, lemma_interpolation_between};
use crate::search::{find_decimal, first_at, lemma_first_at};
use vstd::prelude::*;

verus! {

/// Row `i` bounds the distance `q` from below: among the first `n` rows it
/// holds the largest recorded distance that is not above `q`, and no later
/// row holds the same distance.
pub open spec fn is_lower(ssds: Seq<Decimal>, n: int, q: int, i: int) -> bool {
    &&& 0 <= i < n
    &&& ssds[i].units <= q
    &&& forall|j: int| 0 <= j < n && ssds[j].units <= q ==> ssds[j].units <= ssds[i].units
    &&& forall|j: int| i < j < n ==> ssds[j].units != ssds[i].units
}

/// Row `i` bounds the distance `q` from above: among the first `n` rows it
/// holds the smallest recorded distance that is not below `q`, and no later
/// row holds the same distance.
pub open spec fn is_upper(ssds: Seq<Decimal>, n: int, q: int, i: int) -> bool {
    &&& 0 <= i < n
    &&& ssds[i].units >= q
    &&& forall|j: int| 0 <= j < n && ssds[j].units >= q ==> ssds[j].units >= ssds[i].units
    &&& forall|j: int| i < j < n ==> ssds[j].units != ssds[i].units
}

pub open spec fn has_lower(ssds: Seq<Decimal>, n: int, q: int) -> bool {
    exists|i: int| is_lower(ssds, n, q, i)
}

pub open spec fn has_upper(ssds: Seq<Decimal>, n: int, q: int) -> bool {
    exists|i: int| is_upper(ssds, n, q, i)
}

pub open spec fn lower_row(ssds: Seq<Decimal>, n: int, q: int) -> int {
    choose|i: int| is_lower(ssds, n, q, i)
}

pub open spec fn upper_row(ssds: Seq<Decimal>, n: int, q: int) -> int {
    choose|i: int| is_upper(ssds, n, q, i)
}

/// At most one row bounds a distance from below, and at most one from above.
pub proof fn lemma_bracket_unique(ssds: Seq<Decimal>, n: int, q: int, i: int, j: int)
    ensures
        is_lower(ssds, n, q, i) && is_lower(ssds, n, q, j) ==> i == j,
        is_upper(ssds, n, q, i) && is_upper(ssds, n, q, j) ==> i == j,
{
}

/// What an output-factor table holds.
pub struct OutputFactors {
    /// The energies, one per column, in the order of the calibration file.
    pub energies: Seq<Decimal>,
    /// The reference depths, meant to be one per energy.
    pub zrefs: Seq<Decimal>,
    /// The source-to-skin distances, one per recorded row.
    pub ssds: Seq<Decimal>,
    /// The output factors by column and row.  There are no columns before
    /// the first row is recorded.
    pub columns: Seq<Seq<Decimal>>,
}

impl OutputFactors {
    /// Every column holds one value per recorded row.
    pub open spec fn wf(self) -> bool {
        &&& forall|c: int|
            0 <= c < self.columns.len() ==> (#[trigger] self.columns[c]).len() == self.ssds.len()
        &&& self.ssds.len() == 0 ==> self.columns.len() == 0
    }

    /// The output factors recorded in column `c`; none where the table has
    /// no such column.
    pub open spec fn column(self, c: int) -> Seq<Decimal> {
        if 0 <= c < self.columns.len() {
            self.columns[c]
        } else {
            Seq::empty()
        }
    }

    /// Whether a row of these values can be recorded: it has one value per
    /// energy and is as wide as the rows recorded before it.
    pub open spec fn accepts_row(self, values: Seq<Decimal>) -> bool {
        &&& values.len() == self.energies.len()
        &&& self.ssds.len() > 0 ==> self.columns.len() == values.len()
    }

    /// The width that a row is held against when it is refused.
    pub open spec fn expected_width(self, values: Seq<Decimal>) -> nat {
        if values.len() != self.energies.len() {
            self.energies.len()
        } else {
            self.columns.len()
        }
    }

    /// The table with one more row.
    pub open spec fn with_row(self, ssd: Decimal, values: Seq<Decimal>) -> OutputFactors {
        OutputFactors {
            energies: self.energies,
            zrefs: self.zrefs,
            ssds: self.ssds.push(ssd),
            columns: Seq::new(values.len(), |c: int| self.column(c).push(values[c])),
        }
    }

    /// The reference depth that stands where `energy` first occurs.
    pub open spec fn zref(self, energy: Decimal) -> Option<Decimal> {
        if self.energies.contains(energy) && first_at(self.energies, energy) < self.zrefs.len() {
            Some(self.zrefs[first_at(self.energies, energy)])
        } else {
            None
        }
    }

    /// The output factor for an energy and a source-to-skin distance.  The
    /// energy is found by exact match, its first occurrence counting.  The
    /// distance is bracketed by the nearest recorded distances below and
    /// above it, and the factor interpolated between them; a recorded
    /// distance brackets itself and gives its stored factor.  Outside the
    /// recorded range there is no factor, nor is there one for an energy
    /// for which no column was recorded.
    pub open spec fn correction_factor(self, energy: Decimal, ssd: Decimal) -> Result<
        Decimal,
        EmuError,
    > {
        if !self.energies.contains(energy) {
            Err(EmuError::EnergyNotFound(energy))
        } else {
            let col = self.column(first_at(self.energies, energy));
            let n = col.len() as int;
            let q = ssd.units as int;
            if has_lower(self.ssds, n, q) && has_upper(self.ssds, n, q) {
                let i0 = lower_row(self.ssds, n, q);
                let i1 = upper_row(self.ssds, n, q);
                Ok(
                    Decimal {
                        units: interpolation(
                            q,
                            self.ssds[i0].units as int,
                            self.ssds[i1].units as int,
                            col[i0].units as int,
                            col[i1].units as int,
                        ) as i64,
                    },
                )
            } else {
                Err(EmuError::SSDNotFound(ssd))
            }
        }
    }
}

/// Output factors of one machine and applicator: a correction per energy
/// and source-to-skin distance.
#[derive(Debug)]
pub struct OFTable {
    energies: Vec<Decimal>,
    zrefs: Vec<Decimal>,
    ssds: Vec<Decimal>,
    // table[c] is the column of output factors of the energy at c.
    table: Vec<Vec<Decimal>>,
}

impl View for OFTable {
    type V = OutputFactors;

    closed spec fn view(&self) -> OutputFactors {
        OutputFactors {
            energies: self.energies@,
            zrefs: self.zrefs@,
            ssds: self.ssds@,
            columns: Seq::new(self.table@.len(), |c: int| self.table@[c]@),
        }
    }
}

impl Clone for OFTable {
    fn clone(&self) -> (r: Self)
        ensures
            r@ == self@,
    {
        let energies = copy_decimals(&self.energies);
        let zrefs = copy_decimals(&self.zrefs);
        let ssds = copy_decimals(&self.ssds);
        let table = copy_columns(&self.table);
        proof {
            use_type_invariant(self);
            assert forall|c: int| 0 <= c < table@.len() implies (#[trigger] table@[c])@.len()
                == ssds@.len() by {
                assert(self@.columns[c] == self.table@[c]@);
            }
        }
        let r = OFTable { energies, zrefs, ssds, table };
        assert(r@.columns =~= self@.columns);
        r
    }
}

impl OFTable {
    #[verifier::type_invariant]
    spec fn inv(self) -> bool {
        self@.wf()
    }

    /// An empty table.
    pub fn new() -> (t: OFTable)
        ensures
            t@.energies.len() == 0,
            t@.zrefs.len() == 0,
            t@.ssds.len() == 0,
            t@.columns.len() == 0,
            t@.wf(),
    {
        OFTable { energies: Vec::new(), zrefs: Vec::new(), ssds: Vec::new(), table: Vec::new() }
    }

    /// Replaces the energies.  The rows recorded so far stay as they are.
    pub fn set_energies(&mut self, values: Vec<Decimal>)
        ensures
            final(self)@ == (OutputFactors { energies: values@, ..old(self)@ }),
    {
        proof {
            use_type_invariant(&*self);
        }
        self.energies = values;
    }

    /// Replaces the reference depths.
    pub fn set_zrefs(&mut self, values: Vec<Decimal>)
        ensures
            final(self)@ == (OutputFactors { zrefs: values@, ..old(self)@ }),
    {
        proof {
            use_type_invariant(&*self);
        }
        self.zrefs = values;
    }

    /// The energies, in the order of their columns.
    pub fn get_energies(&self) -> (r: &Vec<Decimal>)
        ensures
            r@ == self@.energies,
            self@.wf(),
    {
        proof {
            use_type_invariant(self);
        }
        &self.energies
    }

    /// The reference depths.
    pub fn get_zrefs(&self) -> (r: &Vec<Decimal>)
        ensures
            r@ == self@.zrefs,
    {
        &self.zrefs
    }

    /// The source-to-skin distances, in the order of their rows.
    pub fn get_ssds(&self) -> (r: &Vec<Decimal>)
        ensures
            r@ == self@.ssds,
            self@.wf(),
    {
        proof {
            use_type_invariant(self);
        }
        &self.ssds
    }

    /// The reference depth of an energy, if the table has the energy and a
    /// depth for it.
    pub fn get_zref(&self, energy: Decimal) -> (r: Option<Decimal>)
        ensures
            r == self@.zref(energy),
    {
        match find_decimal(&self.energies, energy) {
            Some(i) => {
                proof {
                    lemma_first_at(self.energies@, energy);
                }
                if i < self.zrefs.len() {
                    Some(self.zrefs[i])
                } else {
                    None
                }
            },
            None => None,
        }
    }
    /// Records the output factors of one source-to-skin distance, one per
    /// energy.  A row of another width is refused and leaves the table as
    /// it was.
    pub fn add_output_factor_per_ssd(&mut self, ssd: Decimal, ofs: Vec<Decimal>) -> (r: Result<
        (),
        EmuError,
    >)
        ensures
            old(self)@.accepts_row(ofs@) ==> r is Ok && final(self)@ == old(self)@.with_row(
                ssd,
                ofs@,
            ),
            !old(self)@.accepts_row(ofs@) ==> final(self)@ == old(self)@ && r == Err::<
                (),
                EmuError,
            >(
                EmuError::ShapeMismatch {
                    expected: old(self)@.expected_width(ofs@) as usize,
                    found: ofs@.len() as usize,
                },
            ),
    {
        proof {
            use_type_invariant(&*self);
        }
        let n = ofs.len();
        if n != self.energies.len() {
            return Err(EmuError::ShapeMismatch { expected: self.energies.len(), found: n });
        }
        if self.ssds.len() > 0 && self.table.len() != n {
            return Err(EmuError::ShapeMismatch { expected: self.table.len(), found: n });
        }
        let ghost before = self@;
        let mut table: Vec<Vec<Decimal>> = Vec::new();
        std::mem::swap(&mut table, &mut self.table);
        if table.len() == 0 {
            while table.len() < n
                invariant
                    table@.len() <= n,
                    forall|c: int| 0 <= c < table@.len() ==> (#[trigger] table@[c])@.len() == 0,
                decreases n - table@.len(),
            {
                table.push(Vec::new());
            }
        }
        let mut c: usize = 0;
        while c < n
            invariant
                c <= n,
                n == ofs@.len(),
                table@.len() == n,
                forall|k: int| 0 <= k < c ==> (#[trigger] table@[k])@ == before.column(k).push(ofs@[k]),
                forall|k: int| c <= k < n ==> (#[trigger] table@[k])@ == before.column(k),
            decreases n - c,
        {
            let v = ofs[c];
            table[c].push(v);
            c += 1;
        }
        let mut ssds: Vec<Decimal> = Vec::new();
        std::mem::swap(&mut ssds, &mut self.ssds);
        ssds.push(ssd);
        self.ssds = ssds;
        self.table = table;
        assert(self@.columns =~= before.with_row(ssd, ofs@).columns);
        Ok(())
    }

    /// The output factor for an energy and a source-to-skin distance.
    pub fn get_cf(&self, energy: Decimal, ssd: Decimal) -> (r: Result<Decimal, EmuError>)
        ensures
            r == self@.correction_factor(energy, ssd),
            self@.wf(),
    {
        proof {
            use_type_invariant(self);
        }
        let e = match find_decimal(&self.energies, energy) {
            Some(e) => e,
            None => {
                return Err(EmuError::EnergyNotFound(energy));
            },
        };
        proof {
            lemma_first_at(self.energies@, energy);
        }
        if e >= self.table.len() {
            assert(self@.column(e as int).len() == 0);
            return Err(EmuError::SSDNotFound(ssd));
        }
        let col = &self.table[e];
        let n = col.len();
        assert(col@ == self@.column(e as int));
        let mut lower: Option<usize> = None;
        let mut upper: Option<usize> = None;
        let mut i: usize = 0;
        while i < n
            invariant
                i <= n,
                n == self.ssds@.len(),
                match lower {
                    Some(l) => is_lower(self.ssds@, i as int, ssd.units as int, l as int),
                    None => forall|j: int| 0 <= j < i ==> self.ssds@[j].units > ssd.units,
                },
                match upper {
                    Some(u) => is_upper(self.ssds@, i as int, ssd.units as int, u as int),
                    None => forall|j: int| 0 <= j < i ==> self.ssds@[j].units < ssd.units,
                },
            decreases n - i,
        {
            let s = self.ssds[i];
            if s.units <= ssd.units {
                let nearer = match lower {
                    Some(l) => self.ssds[l].units <= s.units,
                    None => true,
                };
                if nearer {
                    lower = Some(i);
                }
            }
            if s.units >= ssd.units {
                let nearer = match upper {
                    Some(u) => self.ssds[u].units >= s.units,
                    None => true,
                };
                if nearer {
                    upper = Some(i);
                }
            }
            i += 1;
        }
        match (lower, upper) {
            (Some(l), Some(u)) => {
                proof {
                    let q = ssd.units as int;
                    lemma_bracket_unique(self.ssds@, n as int, q, l as int, lower_row(self.ssds@, n as int, q));
                    lemma_bracket_unique(self.ssds@, n as int, q, u as int, upper_row(self.ssds@, n as int, q));
                    if self.ssds@[l as int].units < self.ssds@[u as int].units {
                        lemma_interpolation_between(
                            q,
                            self.ssds@[l as int].units as int,
                            self.ssds@[u as int].units as int,
                            col@[l as int].units as int,
                            col@[u as int].units as int,
                        );
                    }
                }
                Ok(interpolate_linear(ssd, self.ssds[l], self.ssds[u], col[l], col[u]))
            },
            _ => {
                proof {
                    let q = ssd.units as int;
                    if lower is None {
                        assert(!has_lower(self.ssds@, n as int, q));
                    } else {
                        assert(!has_upper(self.ssds@, n as int, q));
                    }
                }
                Err(EmuError::SSDNotFound(ssd))
            },
        }
    }
}

/// Row `s` is the last one recorded for its distance.
pub open spec fn is_last_for_ssd(ssds: Seq<Decimal>, s: int) -> bool {
    &&& 0 <= s < ssds.len()
    &&& forall|j: int| s < j < ssds.len() ==> ssds[j] != ssds[s]
}

/// Rows `i0` and `i1` hold neighbouring distances: the first is smaller and
/// no recorded distance lies strictly between the two.
pub open spec fn are_neighbours(ssds: Seq<Decimal>, i0: int, i1: int) -> bool {
    &&& is_last_for_ssd(ssds, i0)
    &&& is_last_for_ssd(ssds, i1)
    &&& ssds[i0].units < ssds[i1].units
    &&& forall|j: int|
        0 <= j < ssds.len() ==> !(ssds[i0].units < (#[trigger] ssds[j]).units < ssds[i1].units)
}

/// A query for an energy that the table does not have fails, and names
/// the energy.
pub proof fn law_unknown_energy(t: OutputFactors, energy: Decimal, ssd: Decimal)
    requires
        !t.energies.contains(energy),
    ensures
        t.correction_factor(energy, ssd) == Err::<Decimal, EmuError>(
            EmuError::EnergyNotFound(energy),
        ),
{
}

/// A query below the smallest or above the largest recorded distance
/// fails, and names the distance: nothing is extrapolated.
pub proof fn law_outside_range(t: OutputFactors, energy: Decimal, ssd: Decimal)
    requires
        t.wf(),
        t.energies.contains(energy),
        (forall|j: int| 0 <= j < t.ssds.len() ==> ssd.units < (#[trigger] t.ssds[j]).units) || (
        forall|j: int| 0 <= j < t.ssds.len() ==> ssd.units > (#[trigger] t.ssds[j]).units),
    ensures
        t.correction_factor(energy, ssd) == Err::<Decimal, EmuError>(EmuError::SSDNotFound(ssd)),
{
    let col = t.column(first_at(t.energies, energy));
    let n = col.len() as int;
    let q = ssd.units as int;
    if has_lower(t.ssds, n, q) && has_upper(t.ssds, n, q) {
        let i0 = lower_row(t.ssds, n, q);
        let i1 = upper_row(t.ssds, n, q);
        assert(t.ssds[i0].units <= q);
        assert(t.ssds[i1].units >= q);
    }
}

/// A query for a recorded distance gives the factor stored in the last row
/// recorded for it, untouched by any arithmetic.
pub proof fn law_recorded_distance_is_exact(t: OutputFactors, energy: Decimal, s: int)
    requires
        t.wf(),
        t.energies.contains(energy),
        first_at(t.energies, energy) < t.columns.len(),
        is_last_for_ssd(t.ssds, s),
    ensures
        t.correction_factor(energy, t.ssds[s]) == Ok::<Decimal, EmuError>(
            t.columns[first_at(t.energies, energy)][s],
        ),
{
    lemma_first_at(t.energies, energy);
    let e = first_at(t.energies, energy);
    let col = t.column(e);
    let n = col.len() as int;
    let q = t.ssds[s].units as int;
    assert(is_lower(t.ssds, n, q, s));
    assert(is_upper(t.ssds, n, q, s));
    lemma_bracket_unique(t.ssds, n, q, s, lower_row(t.ssds, n, q));
    lemma_bracket_unique(t.ssds, n, q, s, upper_row(t.ssds, n, q));
}

/// Between two neighbouring recorded distances, the ends included, the
/// factor is the linear interpolation of the two stored factors, and lies
/// between them.
pub proof fn law_interpolated_between_neighbours(
    t: OutputFactors,
    energy: Decimal,
    ssd: Decimal,
    i0: int,
    i1: int,
)
    requires
        t.wf(),
        t.energies.contains(energy),
        first_at(t.energies, energy) < t.columns.len(),
        are_neighbours(t.ssds, i0, i1),
        t.ssds[i0].units <= ssd.units <= t.ssds[i1].units,
    ensures
        ({
            let col = t.columns[first_at(t.energies, energy)];
            let y = interpolation(
                ssd.units as int,
                t.ssds[i0].units as int,
                t.ssds[i1].units as int,
                col[i0].units as int,
                col[i1].units as int,
            );
            &&& t.correction_factor(energy, ssd) == Ok::<Decimal, EmuError>(
                Decimal { units: y as i64 },
            )
            &&& col[i0].units <= col[i1].units ==> col[i0].units <= y <= col[i1].units
            &&& col[i0].units >= col[i1].units ==> col[i1].units <= y <= col[i0].units
        }),
{
    lemma_first_at(t.energies, energy);
    let e = first_at(t.energies, energy);
    let col = t.column(e);
    let n = col.len() as int;
    let q = ssd.units as int;
    let s0 = t.ssds[i0].units as int;
    let s1 = t.ssds[i1].units as int;
    lemma_interpolation_between(q, s0, s1, col[i0].units as int, col[i1].units as int);
    crate::ipol::lemma_interpolation_endpoints(s0, s1, col[i0].units as int, col[i1].units as int);
    if q == s0 {
        law_recorded_distance_is_exact(t, energy, i0);
        assert(ssd == t.ssds[i0]);
    } else if q == s1 {
        law_recorded_distance_is_exact(t, energy, i1);
        assert(ssd == t.ssds[i1]);
    } else {
        assert(is_lower(t.ssds, n, q, i0));
        assert(is_upper(t.ssds, n, q, i1));
        lemma_bracket_unique(t.ssds, n, q, i0, lower_row(t.ssds, n, q));
        lemma_bracket_unique(t.ssds, n, q, i1, upper_row(t.ssds, n, q));
    }
}

/// Between two neighbouring recorded distances the factor moves in one
/// direction only: it does not fall where the stored factor rises, and does
/// not rise where it falls.  At either end it meets the stored factor.
pub proof fn law_monotonic_between_neighbours(
    t: OutputFactors,
    energy: Decimal,
    near: Decimal,
    far: Decimal,
    i0: int,
    i1: int,
)
    requires
        t.wf(),
        t.energies.contains(energy),
        first_at(t.energies, energy) < t.columns.len(),
        are_neighbours(t.ssds, i0, i1),
        t.ssds[i0].units <= near.units <= far.units <= t.ssds[i1].units,
    ensures
        ({
            let col = t.columns[first_at(t.energies, energy)];
            let a = t.correction_factor(energy, near);
            let b = t.correction_factor(energy, far);
            &&& a is Ok
            &&& b is Ok
            &&& col[i0].units <= col[i1].units ==> a->Ok_0.units <= b->Ok_0.units
            &&& col[i0].units >= col[i1].units ==> a->Ok_0.units >= b->Ok_0.units
            &&& near == t.ssds[i0] ==> a->Ok_0 == col[i0]
            &&& far == t.ssds[i1] ==> b->Ok_0 == col[i1]
        }),
{
    let col = t.columns[first_at(t.energies, energy)];
    law_interpolated_between_neighbours(t, energy, near, i0, i1);
    law_interpolated_between_neighbours(t, energy, far, i0, i1);
    crate::ipol::lemma_interpolation_monotonic(
        near.units as int,
        far.units as int,
        t.ssds[i0].units as int,
        t.ssds[i1].units as int,
        col[i0].units as int,
        col[i1].units as int,
    );
    crate::ipol::lemma_interpolation_endpoints(
        t.ssds[i0].units as int,
        t.ssds[i1].units as int,
        col[i0].units as int,
        col[i1].units as int,
    );
}

/// A table that takes a row stays well formed.
pub proof fn lemma_with_row_wf(t: OutputFactors, ssd: Decimal, values: Seq<Decimal>)
    requires
        t.wf(),
        t.accepts_row(values),
    ensures
        t.with_row(ssd, values).wf(),
        t.with_row(ssd, values).columns.len() == t.energies.len(),
{
}

/// Reading back what was written: right after a row is recorded, a query
/// for its distance and any energy of the table gives the value that the
/// row holds for that energy.  An earlier row with another distance still
/// gives what it gave before.
pub proof fn law_read_after_write(
    t: OutputFactors,
    ssd: Decimal,
    values: Seq<Decimal>,
    energy: Decimal,
)
    requires
        t.wf(),
        t.accepts_row(values),
        t.energies.contains(energy),
    ensures
        t.with_row(ssd, values).correction_factor(energy, ssd) == Ok::<Decimal, EmuError>(
            values[first_at(t.energies, energy)],
        ),
        forall|s: int|
            is_last_for_ssd(t.ssds, s) && t.ssds[s] != ssd ==> t.with_row(
                ssd,
                values,
            ).correction_factor(energy, #[trigger] t.ssds[s]) == t.correction_factor(
                energy,
                t.ssds[s],
            ),
{
    lemma_first_at(t.energies, energy);
    lemma_with_row_wf(t, ssd, values);
    let t2 = t.with_row(ssd, values);
    let e = first_at(t.energies, energy);
    let last = t.ssds.len() as int;
    assert(is_last_for_ssd(t2.ssds, last));
    law_recorded_distance_is_exact(t2, energy, last);
    assert forall|s: int| is_last_for_ssd(t.ssds, s) && t.ssds[s] != ssd implies t2.correction_factor(
        energy,
        #[trigger] t.ssds[s],
    ) == t.correction_factor(energy, t.ssds[s]) by {
        assert(t2.ssds[s] == t.ssds[s]);
        assert(is_last_for_ssd(t2.ssds, s));
        law_recorded_distance_is_exact(t2, energy, s);
        law_recorded_distance_is_exact(t, energy, s);
    }
}

/// The output factors that the rows of a file describe: the third row gives
/// the energies from the third cell on, and every later row a
/// source-to-skin distance in its first cell and, from the third cell on,
/// its output factors.  No reference depths come from a file.
pub open spec fn output_factors_of(f: Seq<Seq<Seq<char>>>) -> OutputFactors {
    let rows = if f.len() > 3 {
        (f.len() - 3) as nat
    } else {
        0
    };
    OutputFactors {
        energies: if f.len() > 2 {
            numbers(f[2], 2)
        } else {
            Seq::empty()
        },
        zrefs: Seq::empty(),
        ssds: Seq::new(rows, |r: int| decimal_of_text(f[3 + r][0])->Some_0),
        columns: if rows == 0 {
            Seq::empty()
        } else {
            Seq::new(
                (f[0].len() - 2) as nat,
                |c: int| Seq::new(rows, |r: int| decimal_of_text(f[3 + r][2 + c])->Some_0),
            )
        },
    }
}

/// What a row of an output-factor file fails with, given the rows before
/// it.  A row of another width than the first fails first.  The first row
/// names the machine; the second has to hold the label `Applicator` and the
/// applicator; the third holds the energies behind two cells that are not
/// read; every later row a distance, a cell that is not read, and one
/// output factor per energy.
pub open spec fn of_row_failure(before: Seq<Seq<Seq<char>>>, row: Seq<Seq<char>>) -> Option<
    Failure,
> {
    let k = before.len();
    if width_failure(before, row) is Some {
        width_failure(before, row)
    } else if k == 0 {
        None
    } else if k == 1 {
        applicator_row_failure(row)
    } else if k == 2 {
        numbers_failure(row, 2, 2)
    } else {
        if decimal_of_text(row[0]) is None {
            Some(Failure::Format(expected_text("a distance"@, k, 0)))
        } else {
            numbers_failure(row, k as int, 2)
        }
    }
}

/// Row `k` is the first that fails.
pub open spec fn is_first_bad_of_row(f: Seq<Seq<Seq<char>>>, k: int) -> bool {
    &&& 0 <= k < f.len()
    &&& of_row_failure(f.take(k), f[k]) is Some
    &&& forall|j: int| 0 <= j < k ==> of_row_failure(f.take(j), #[trigger] f[j]) is None
}

/// What the rows of an output-factor file give: the failure of the first
/// row that fails; else, where the three heading rows are there, the
/// machine, the applicator and the table.
pub open spec fn of_file(f: Seq<Seq<Seq<char>>>) -> Result<
    (Seq<char>, Seq<char>, OutputFactors),
    Failure,
> {
    if exists|k: int| is_first_bad_of_row(f, k) {
        let k = choose|k: int| is_first_bad_of_row(f, k);
        Err(of_row_failure(f.take(k), f[k])->Some_0)
    } else if f.len() < 3 {
        Err(missing_row(f.len() as int))
    } else {
        Ok((f[0][0], f[1][1], output_factors_of(f)))
    }
}

/// What reading an output-factor file gave, with every text as the
/// characters it holds and the table as what it holds.
pub open spec fn of_outcome(r: Result<(String, String, OFTable), EmuError>) -> Result<
    (Seq<char>, Seq<char>, OutputFactors),
    Failure,
> {
    match r {
        Ok((machine, applicator, table)) => Ok((machine@, applicator@, table@)),
        Err(e) => Err(e@),
    }
}

proof fn lemma_first_bad_of_row(f: Seq<Seq<Seq<char>>>, k: int)
    requires
        is_first_bad_of_row(f, k),
    ensures
        of_file(f) == Err::<(Seq<char>, Seq<char>, OutputFactors), Failure>(
            of_row_failure(f.take(k), f[k])->Some_0,
        ),
{
    let c = choose|c: int| is_first_bad_of_row(f, c);
    if c < k {
        assert(of_row_failure(f.take(c), f[c]) is None);
    } else if k < c {
        assert(of_row_failure(f.take(k), f[k]) is None);
    }
}

/// A row that is in order adds itself to the table of the rows before it.
proof fn lemma_output_factors_grow(before: Seq<Seq<Seq<char>>>, row: Seq<Seq<char>>)
    requires
        before.len() >= 3,
        row.len() == before[0].len(),
        row.len() >= 2,
        before[2].len() == row.len(),
        forall|j: int| 3 <= j < before.len() ==> (#[trigger] before[j]).len() == row.len(),
    ensures
        output_factors_of(before).wf(),
        output_factors_of(before).accepts_row(numbers(row, 2)),
        output_factors_of(before.push(row)) == output_factors_of(before).with_row(
            decimal_of_text(row[0])->Some_0,
            numbers(row, 2),
        ),
{
    let a = output_factors_of(before);
    let b = output_factors_of(before.push(row));
    let w = a.with_row(decimal_of_text(row[0])->Some_0, numbers(row, 2));
    let next = before.push(row);
    assert(next[0] == before[0]);
    assert(next[2] == before[2]);
    assert(b.ssds =~= w.ssds);
    assert(b.energies =~= w.energies);
    assert(b.zrefs =~= w.zrefs);
    assert(b.columns.len() == w.columns.len());
    assert forall|c: int| 0 <= c < b.columns.len() implies #[trigger] b.columns[c] =~= w.columns[c] by {
        assert forall|r: int| 0 <= r < b.columns[c].len() implies b.columns[c][r] == w.columns[c][r] by {
            if r < before.len() - 3 {
                assert(next[3 + r] == before[3 + r]);
            }
        }
    }
    assert(b.columns =~= w.columns);
}

/// Builds the output-factor table that the rows of a calibration file
/// describe.  Rows without cells are passed over.  The third row is read
/// as the energies and as nothing else: a file holds no reference depths,
/// so the table has none until `set_zrefs` gives it some.
pub fn of_table_from_records(rows: &Vec<Vec<String>>) -> (r: Result<
    (String, String, OFTable),
    EmuError,
>)
    ensures
        of_outcome(r) == of_file(filled(table_texts(rows@))),
        r is Ok ==> r->Ok_0.2@.zrefs.len() == 0,
{
    let ghost all = table_texts(rows@);
    let ghost f = filled(all);
    let mut table = OFTable::new();
    let mut machine = String::new();
    let mut applicator = String::new();
    let mut nc: usize = 0;
    let mut k: usize = 0;
    let mut i: usize = 0;
    proof {
        let none = filled(all.take(0));
        assert(all.take(0) =~= Seq::<Seq<Seq<char>>>::empty());
        assert(none.len() == 0);
        assert(table@.ssds =~= output_factors_of(none).ssds);
        assert(table@.zrefs =~= output_factors_of(none).zrefs);
        assert(table@.energies =~= output_factors_of(none).energies);
        assert(table@.columns =~= output_factors_of(none).columns);
    }
    while i < rows.len()
        invariant
            i <= rows@.len(),
            k <= i,
            all == table_texts(rows@),
            f == filled(all),
            filled(all.take(i as int)).len() == k,
            forall|j: int|
                0 <= j < k ==> of_row_failure(
                    filled(all.take(i as int)).take(j),
                    #[trigger] filled(all.take(i as int))[j],
                ) is None,
            k > 0 ==> nc == filled(all.take(i as int))[0].len() && machine@ == filled(
                all.take(i as int),
            )[0][0],
            k > 1 ==> nc >= 2 && applicator@ == filled(all.take(i as int))[1][1],
            table@ == output_factors_of(filled(all.take(i as int))),
        decreases rows@.len() - i,
    {
        let row = &rows[i];
        let ghost kept = filled(all.take(i as int));
        let ghost cells = texts(row@);
        proof {
            assert(all[i as int] == cells);
            lemma_filled_step(all, i as int);
            lemma_filled_prefix(all, i + 1);
        }
        if row.len() == 0 {
            i += 1;
            continue ;
        }
        let ghost next = kept.push(cells);
        proof {
            assert(filled(all.take(i + 1)) == next);
            assert(next == f.take(k + 1));
            assert(f[k as int] == cells);
            assert(f.take(k as int) =~= kept);
            assert(next.take(k as int) =~= kept);
            assert forall|j: int| 0 <= j < k implies of_row_failure(f.take(j), #[trigger] f[j])
                is None && of_row_failure(next.take(j), next[j]) is None by {
                assert(f.take(j) =~= kept.take(j));
                assert(next.take(j) =~= kept.take(j));
                assert(f[j] == kept[j]);
            }
        }
        if k == 0 {
            nc = row.len();
            machine = row[0].clone();
        }
        if row.len() != nc {
            proof {
                assert(is_first_bad_of_row(f, k as int));
                lemma_first_bad_of_row(f, k as int);
            }
            return Err(width_mismatch(nc, k, row.len()));
        }
        if k == 1 {
            match check_applicator_row(row) {
                Ok(()) => {},
                Err(e) => {
                    proof {
                        assert(is_first_bad_of_row(f, k as int));
                        lemma_first_bad_of_row(f, k as int);
                    }
                    return Err(e);
                },
            }
            applicator = row[1].clone();
        } else if k == 2 {
            match read_numbers(row, 2, 2) {
                Ok(energies) => {
                    table.set_energies(energies);
                },
                Err(e) => {
                    proof {
                        assert(is_first_bad_of_row(f, k as int));
                        lemma_first_bad_of_row(f, k as int);
                    }
                    return Err(e);
                },
            }
        } else if k >= 3 {
            let ssd = match parse_decimal(row[0].as_str()) {
                Some(ssd) => ssd,
                None => {
                    proof {
                        assert(is_first_bad_of_row(f, k as int));
                        lemma_first_bad_of_row(f, k as int);
                    }
                    return Err(expected_at("a distance", k, 0));
                },
            };
            let values = match read_numbers(row, k, 2) {
                Ok(values) => values,
                Err(e) => {
                    proof {
                        assert(is_first_bad_of_row(f, k as int));
                        lemma_first_bad_of_row(f, k as int);
                    }
                    return Err(e);
                },
            };
            proof {
                lemma_output_factors_grow(kept, cells);
            }
            match table.add_output_factor_per_ssd(ssd, values) {
                Ok(()) => {},
                Err(e) => {
                    return Err(e);
                },
            }
        }
        proof {
            assert(of_row_failure(next.take(k as int), next[k as int]) is None);
            if k < 3 {
                assert(table@.ssds =~= output_factors_of(next).ssds);
                assert(table@.zrefs =~= output_factors_of(next).zrefs);
                assert(table@.energies =~= output_factors_of(next).energies);
                assert(table@.columns =~= output_factors_of(next).columns);
            }
        }
        k += 1;
        i += 1;
    }
    proof {
        assert(all.take(i as int) =~= all);
        assert forall|c: int| !is_first_bad_of_row(f, c) by {
            if 0 <= c < f.len() {
                assert(of_row_failure(f.take(c), f[c]) is None);
            }
        }
    }
    if k < 3 {
        return Err(missing_row_error(k));
    }
    Ok((machine, applicator, table))
}

/// Reads an output-factor file from its text.  Where the text cannot be
/// split into rows the failure is an input/output error; else the rows
/// decide.  No reference depths are read: the table that comes back has
/// none, and `get_zref` answers `None` for every energy until `set_zrefs`
/// gives it some.
pub fn read_of_table(data: &[u8]) -> (r: Result<(String, String, OFTable), EmuError>)
    ensures
        match csv_records(data@) {
            Some(rows) => of_outcome(r) == of_file(filled(rows)),
            None => r is Err && r->Err_0 is IO,
        },
        r is Ok ==> r->Ok_0.2@.zrefs.len() == 0 && forall|energy: Decimal|
            (#[trigger] r->Ok_0.2@.zref(energy)) is None,
{
    let r = match parse_records(data) {
        Ok(rows) => of_table_from_records(&rows),
        Err(e) => Err(e),
    };
    proof {
        if r is Ok {
            let t = r->Ok_0.2@;
            assert forall|energy: Decimal| (#[trigger] t.zref(energy)) is None by {
                if t.energies.contains(energy) {
                    lemma_first_at(t.energies, energy);
                }
            }
        }
    }
    r
}

} // verus!

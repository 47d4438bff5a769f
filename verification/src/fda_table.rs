//! Aperture corrections of one machine and applicator, by energy and
//! aperture id.

use crate::decimal::{copy_columns, copy_decimals, Decimal};
use crate::errors::{EmuError, Failure};
use crate::records::{
    all_numbers, applicator_row_failure, check_applicator_row, csv_records, expected_at,
    expected_text, filled, lemma_filled_prefix, lemma_filled_step, missing_row, missing_row_error,
    numbers, numbers_failure, parse_records, read_numbers, table_texts, width_failure,
    width_mismatch,
};
use crate::text::{decimal_of_text, index_of_text, parse_index, text_eq, texts};
use crate::search::{find_decimal, find_id, first_at, is_first_at, lemma_first_at};
use vstd::prelude::*;

verus! {

/// What an aperture table holds.
pub struct Apertures {
    /// The label of each aperture, one per recorded row.
    pub names: Seq<Seq<char>>,
    /// The id of each aperture, one per recorded row.
    pub ids: Seq<usize>,
    /// The energies, one per column, in the order of the calibration file.
    pub energies: Seq<Decimal>,
    /// The corrections by column and row.  There are no columns before the
    /// first row is recorded.
    pub columns: Seq<Seq<Decimal>>,
}

impl Apertures {
    /// Every row has a label and an id of its own, and every column holds
    /// one value per row.
    pub open spec fn wf(self) -> bool {
        &&& self.names.len() == self.ids.len()
        &&& forall|c: int|
            0 <= c < self.columns.len() ==> (#[trigger] self.columns[c]).len() == self.ids.len()
        &&& self.ids.len() == 0 ==> self.columns.len() == 0
        &&& self.ids.no_duplicates()
    }

    /// Whether a row of these values has the width of the table: one value
    /// per energy, and as many as the rows recorded before it.
    pub open spec fn fits_row(self, values: Seq<Decimal>) -> bool {
        &&& values.len() == self.energies.len()
        &&& self.ids.len() > 0 ==> self.columns.len() == values.len()
    }

    /// The width that a row is held against when it is refused.
    pub open spec fn expected_width(self, values: Seq<Decimal>) -> nat {
        if values.len() != self.energies.len() {
            self.energies.len()
        } else {
            self.columns.len()
        }
    }

    /// The corrections recorded in column `c`; none where the table has no
    /// such column.
    pub open spec fn column(self, c: int) -> Seq<Decimal> {
        if 0 <= c < self.columns.len() {
            self.columns[c]
        } else {
            Seq::empty()
        }
    }

    /// The table with one more aperture.
    pub open spec fn with_row(self, name: Seq<char>, id: usize, values: Seq<Decimal>) -> Apertures {
        Apertures {
            names: self.names.push(name),
            ids: self.ids.push(id),
            energies: self.energies,
            columns: Seq::new(values.len(), |c: int| self.column(c).push(values[c])),
        }
    }

    /// What recording an aperture answers: a row of the wrong width is
    /// refused first, then an id that the table already has.
    pub open spec fn add_outcome(self, id: usize, values: Seq<Decimal>) -> Result<(), EmuError> {
        if !self.fits_row(values) {
            Err(
                EmuError::ShapeMismatch {
                    expected: self.expected_width(values) as usize,
                    found: values.len() as usize,
                },
            )
        } else if self.ids.contains(id) {
            Err(EmuError::DuplicateId(id))
        } else {
            Ok(())
        }
    }

    /// The correction for an energy and an aperture, both found by exact
    /// match, the first occurrence counting.  The energy is looked for
    /// first.  An energy for which no column was recorded counts as not
    /// found.
    pub open spec fn correction_factor(self, energy: Decimal, fda_id: usize) -> Result<
        Decimal,
        EmuError,
    > {
        if !self.energies.contains(energy) {
            Err(EmuError::EnergyNotFound(energy))
        } else if !self.ids.contains(fda_id) {
            Err(EmuError::FdaIDNotFound(fda_id))
        } else if first_at(self.energies, energy) >= self.columns.len() {
            Err(EmuError::EnergyNotFound(energy))
        } else {
            Ok(self.columns[first_at(self.energies, energy)][first_at(self.ids, fda_id)])
        }
    }
}

/// Aperture corrections of one machine and applicator: a correction per
/// energy and field-defining aperture.
#[derive(Debug)]
pub struct FdaTable {
    names: Vec<String>,
    ids: Vec<usize>,
    energies: Vec<Decimal>,
    // table[c] is the column of corrections of the energy at c.
    table: Vec<Vec<Decimal>>,
}

impl View for FdaTable {
    type V = Apertures;

    closed spec fn view(&self) -> Apertures {
        Apertures {
            names: Seq::new(self.names@.len(), |i: int| self.names@[i]@),
            ids: self.ids@,
            energies: self.energies@,
            columns: Seq::new(self.table@.len(), |c: int| self.table@[c]@),
        }
    }
}

/// A copy of a list of texts.
pub(crate) fn copy_texts(v: &Vec<String>) -> (r: Vec<String>)
    ensures
        r@ == v@,
{
    let mut r: Vec<String> = Vec::new();
    let mut i: usize = 0;
    while i < v.len()
        invariant
            i <= v.len(),
            r@ == v@.subrange(0, i as int),
        decreases v.len() - i,
    {
        r.push(v[i].clone());
        assert(r@ == v@.subrange(0, i + 1));
        i += 1;
    }
    r
}

impl Clone for FdaTable {
    fn clone(&self) -> (r: Self)
        ensures
            r@ == self@,
    {
        let mut ids: Vec<usize> = Vec::new();
        let mut i: usize = 0;
        while i < self.ids.len()
            invariant
                i <= self.ids.len(),
                ids@ == self.ids@.subrange(0, i as int),
            decreases self.ids.len() - i,
        {
            ids.push(self.ids[i]);
            assert(ids@ == self.ids@.subrange(0, i + 1));
            i += 1;
        }
        assert(ids@ == self.ids@);
        let names = copy_texts(&self.names);
        let energies = copy_decimals(&self.energies);
        let table = copy_columns(&self.table);
        proof {
            use_type_invariant(self);
            assert forall|c: int| 0 <= c < table@.len() implies (#[trigger] table@[c])@.len()
                == ids@.len() by {
                assert(self@.columns[c] == self.table@[c]@);
            }
        }
        let r = FdaTable { names, ids, energies, table };
        assert(r@.columns =~= self@.columns);
        assert(r@.names =~= self@.names);
        r
    }
}

impl Default for FdaTable {
    fn default() -> (t: Self)
        ensures
            t@.names.len() == 0,
            t@.ids.len() == 0,
            t@.energies.len() == 0,
            t@.columns.len() == 0,
    {
        FdaTable::new()
    }
}

impl FdaTable {
    #[verifier::type_invariant]
    spec fn inv(self) -> bool {
        self@.wf()
    }

    /// An empty table.
    pub fn new() -> (t: FdaTable)
        ensures
            t@.names.len() == 0,
            t@.ids.len() == 0,
            t@.energies.len() == 0,
            t@.columns.len() == 0,
            t@.wf(),
    {
        FdaTable { names: Vec::new(), ids: Vec::new(), energies: Vec::new(), table: Vec::new() }
    }

    /// Replaces the energies.  The rows recorded so far stay as they are.
    pub fn set_energies(&mut self, values: Vec<Decimal>)
        ensures
            final(self)@ == (Apertures { energies: values@, ..old(self)@ }),
    {
        proof {
            use_type_invariant(&*self);
        }
        self.energies = values;
    }

    /// The energies, in the order of their columns.
    pub fn get_energies(&self) -> (r: &Vec<Decimal>)
        ensures
            r@ == self@.energies,
            self@.wf(),
    {
        proof {
            use_type_invariant(self);
        }
        &self.energies
    }

    /// The ids of the apertures, in the order of their rows.
    pub fn get_ids(&self) -> (r: &Vec<usize>)
        ensures
            r@ == self@.ids,
            self@.wf(),
    {
        proof {
            use_type_invariant(self);
        }
        &self.ids
    }

    /// The labels of the apertures, in the order of their rows.
    pub fn get_names(&self) -> (r: &Vec<String>)
        ensures
            r@.len() == self@.names.len(),
            forall|i: int| 0 <= i < r@.len() ==> (#[trigger] r@[i])@ == self@.names[i],
            self@.wf(),
    {
        proof {
            use_type_invariant(self);
        }
        &self.names
    }

    /// Records one aperture with its corrections, one per energy.  A row of
    /// another width, or an id that the table already has, is refused and
    /// leaves the table as it was.
    pub fn add(&mut self, name: &str, id: usize, corrections: Vec<Decimal>) -> (r: Result<
        (),
        EmuError,
    >)
        ensures
            r == old(self)@.add_outcome(id, corrections@),
            r is Ok ==> final(self)@ == old(self)@.with_row(name@, id, corrections@),
            r is Err ==> final(self)@ == old(self)@,
    {
        proof {
            use_type_invariant(&*self);
        }
        let n = corrections.len();
        if n != self.energies.len() {
            return Err(EmuError::ShapeMismatch { expected: self.energies.len(), found: n });
        }
        if self.ids.len() > 0 && self.table.len() != n {
            return Err(EmuError::ShapeMismatch { expected: self.table.len(), found: n });
        }
        if find_id(&self.ids, id).is_some() {
            return Err(EmuError::DuplicateId(id));
        }
        let ghost before = self@;
        let mut taken = FdaTable::new();
        std::mem::swap(self, &mut taken);
        let FdaTable { mut names, mut ids, energies, mut table } = taken;
        if table.len() == 0 {
            while table.len() < n
                invariant
                    table@.len() <= n,
                    forall|c: int| 0 <= c < table@.len() ==> (#[trigger] table@[c])@.len() == 0,
                decreases n - table@.len(),
            {
                table.push(Vec::new());
            }
        }
        let mut c: usize = 0;
        while c < n
            invariant
                c <= n,
                n == corrections@.len(),
                table@.len() == n,
                forall|k: int|
                    0 <= k < c ==> (#[trigger] table@[k])@ == before.column(k).push(corrections@[k]),
                forall|k: int| c <= k < n ==> (#[trigger] table@[k])@ == before.column(k),
            decreases n - c,
        {
            let v = corrections[c];
            table[c].push(v);
            c += 1;
        }
        names.push(name.to_owned());
        ids.push(id);
        *self = FdaTable { names, ids, energies, table };
        assert(self@.columns =~= before.with_row(name@, id, corrections@).columns);
        assert(self@.names =~= before.with_row(name@, id, corrections@).names);
        Ok(())
    }

    /// The correction for an energy and an aperture id.
    pub fn get_cf(&self, energy: Decimal, fda_id: usize) -> (r: Result<Decimal, EmuError>)
        ensures
            r == self@.correction_factor(energy, fda_id),
            self@.wf(),
    {
        proof {
            use_type_invariant(self);
        }
        let e = match find_decimal(&self.energies, energy) {
            Some(e) => e,
            None => {
                return Err(EmuError::EnergyNotFound(energy));
            },
        };
        let a = match find_id(&self.ids, fda_id) {
            Some(a) => a,
            None => {
                return Err(EmuError::FdaIDNotFound(fda_id));
            },
        };
        proof {
            lemma_first_at(self.energies@, energy);
            lemma_first_at(self.ids@, fda_id);
        }
        if e >= self.table.len() {
            return Err(EmuError::EnergyNotFound(energy));
        }
        Ok(self.table[e][a])
    }
}

/// A query for an energy that the table does not have fails, and names
/// the energy.
pub proof fn law_unknown_energy(t: Apertures, energy: Decimal, fda_id: usize)
    requires
        !t.energies.contains(energy),
    ensures
        t.correction_factor(energy, fda_id) == Err::<Decimal, EmuError>(
            EmuError::EnergyNotFound(energy),
        ),
{
}

/// A table that takes an aperture stays well formed.
pub proof fn lemma_with_row_wf(t: Apertures, name: Seq<char>, id: usize, values: Seq<Decimal>)
    requires
        t.wf(),
        t.add_outcome(id, values) is Ok,
    ensures
        t.with_row(name, id, values).wf(),
        t.with_row(name, id, values).columns.len() == t.energies.len(),
{
    let t2 = t.with_row(name, id, values);
    assert forall|i: int, j: int|
        0 <= i < t2.ids.len() && 0 <= j < t2.ids.len() && i != j implies t2.ids[i] != t2.ids[j] by {
        if i < t.ids.len() && j < t.ids.len() {
        } else if i < t.ids.len() {
            assert(t.ids[i] != id);
        } else {
            assert(t.ids[j] != id);
        }
    }
}

/// Reading back what was written: right after an aperture is recorded, a
/// query for its id and any energy of the table gives the value that the
/// row holds for that energy, and every aperture recorded before gives what
/// it gave before.
pub proof fn law_read_after_write(
    t: Apertures,
    name: Seq<char>,
    id: usize,
    values: Seq<Decimal>,
    energy: Decimal,
)
    requires
        t.wf(),
        t.add_outcome(id, values) is Ok,
        t.energies.contains(energy),
    ensures
        t.with_row(name, id, values).correction_factor(energy, id) == Ok::<Decimal, EmuError>(
            values[first_at(t.energies, energy)],
        ),
        forall|other: usize|
            t.ids.contains(other) ==> #[trigger] t.with_row(name, id, values).correction_factor(
                energy,
                other,
            ) == t.correction_factor(energy, other),
{
    lemma_first_at(t.energies, energy);
    lemma_with_row_wf(t, name, id, values);
    let t2 = t.with_row(name, id, values);
    let last = t.ids.len() as int;
    assert(t2.ids[last] == id);
    assert(is_first_at(t2.ids, id, last)) by {
        assert forall|j: int| 0 <= j < last implies t2.ids[j] != id by {
            assert(t.ids[j] != id);
        }
    }
    lemma_first_at(t2.ids, id);
    assert forall|other: usize| t.ids.contains(other) implies #[trigger] t2.correction_factor(
        energy,
        other,
    ) == t.correction_factor(energy, other) by {
        lemma_first_at(t.ids, other);
        let k = first_at(t.ids, other);
        assert(t2.ids[k] == other);
        assert(is_first_at(t2.ids, other, k));
        lemma_first_at(t2.ids, other);
    }
}

/// The aperture table that the rows of a file describe: the third row gives
/// the energies from the third cell on, and every later row an aperture:
/// its label, its id and, from the third cell on, its corrections.
pub open spec fn apertures_of(f: Seq<Seq<Seq<char>>>) -> Apertures {
    let rows = if f.len() > 3 {
        (f.len() - 3) as nat
    } else {
        0
    };
    Apertures {
        names: Seq::new(rows, |r: int| f[3 + r][0]),
        ids: Seq::new(rows, |r: int| index_of_text(f[3 + r][1])->Some_0),
        energies: if f.len() > 2 {
            numbers(f[2], 2)
        } else {
            Seq::empty()
        },
        columns: if rows == 0 {
            Seq::empty()
        } else {
            Seq::new(
                (f[0].len() - 2) as nat,
                |c: int| Seq::new(rows, |r: int| decimal_of_text(f[3 + r][2 + c])->Some_0),
            )
        },
    }
}

/// What a row of an aperture file fails with, given the rows before it,
/// which are taken to be in order.  A row of another width than the first
/// fails first.  The first row names the machine; the second has to hold
/// the label `Applicator` and the applicator; the third the labels
/// `Dimensions` and `id` and then the energies; every later row a label, an
/// id that no earlier row has, and one correction per energy.
pub open spec fn fda_row_failure(before: Seq<Seq<Seq<char>>>, row: Seq<Seq<char>>) -> Option<
    Failure,
> {
    let k = before.len();
    if width_failure(before, row) is Some {
        width_failure(before, row)
    } else if k == 0 {
        None
    } else if k == 1 {
        applicator_row_failure(row)
    } else if k == 2 {
        if row[0] != "Dimensions"@ {
            Some(Failure::Format(expected_text("the label 'Dimensions'"@, 2, 0)))
        } else if row[1] != "id"@ {
            Some(Failure::Format(expected_text("the label 'id'"@, 2, 1)))
        } else {
            numbers_failure(row, 2, 2)
        }
    } else {
        match index_of_text(row[1]) {
            None => Some(Failure::Format(expected_text("an aperture id"@, k, 1))),
            Some(id) => if !all_numbers(row, 2) {
                numbers_failure(row, k as int, 2)
            } else if apertures_of(before).ids.contains(id) {
                Some(Failure::DuplicateId(id))
            } else {
                None
            },
        }
    }
}

/// Row `k` is the first that fails.
pub open spec fn is_first_bad_fda_row(f: Seq<Seq<Seq<char>>>, k: int) -> bool {
    &&& 0 <= k < f.len()
    &&& fda_row_failure(f.take(k), f[k]) is Some
    &&& forall|j: int| 0 <= j < k ==> fda_row_failure(f.take(j), #[trigger] f[j]) is None
}

/// What the rows of an aperture file give: the failure of the first row
/// that fails; else, where the three heading rows are there, the machine,
/// the applicator and the table.
pub open spec fn fda_file(f: Seq<Seq<Seq<char>>>) -> Result<
    (Seq<char>, Seq<char>, Apertures),
    Failure,
> {
    if exists|k: int| is_first_bad_fda_row(f, k) {
        let k = choose|k: int| is_first_bad_fda_row(f, k);
        Err(fda_row_failure(f.take(k), f[k])->Some_0)
    } else if f.len() < 3 {
        Err(missing_row(f.len() as int))
    } else {
        Ok((f[0][0], f[1][1], apertures_of(f)))
    }
}

/// What reading an aperture file gave, with every text as the characters it
/// holds and the table as what it holds.
pub open spec fn fda_outcome(r: Result<(String, String, FdaTable), EmuError>) -> Result<
    (Seq<char>, Seq<char>, Apertures),
    Failure,
> {
    match r {
        Ok((machine, applicator, table)) => Ok((machine@, applicator@, table@)),
        Err(e) => Err(e@),
    }
}

proof fn lemma_first_bad_fda_row(f: Seq<Seq<Seq<char>>>, k: int)
    requires
        is_first_bad_fda_row(f, k),
    ensures
        fda_file(f) == Err::<(Seq<char>, Seq<char>, Apertures), Failure>(
            fda_row_failure(f.take(k), f[k])->Some_0,
        ),
{
    let c = choose|c: int| is_first_bad_fda_row(f, c);
    if c < k {
        assert(fda_row_failure(f.take(c), f[c]) is None);
    } else if k < c {
        assert(fda_row_failure(f.take(k), f[k]) is None);
    }
}

/// Builds the aperture table that the rows of a calibration file describe.
/// Rows without cells are passed over.
pub fn fda_table_from_records(rows: &Vec<Vec<String>>) -> (r: Result<
    (String, String, FdaTable),
    EmuError,
>)
    ensures
        fda_outcome(r) == fda_file(filled(table_texts(rows@))),
{
    let ghost all = table_texts(rows@);
    let ghost f = filled(all);
    let mut table = FdaTable::new();
    let mut machine = String::new();
    let mut applicator = String::new();
    let mut nc: usize = 0;
    let mut k: usize = 0;
    let mut i: usize = 0;
    proof {
        let none = filled(all.take(0));
        assert(all.take(0) =~= Seq::<Seq<Seq<char>>>::empty());
        assert(none.len() == 0);
        assert(table@.names =~= apertures_of(none).names);
        assert(table@.ids =~= apertures_of(none).ids);
        assert(table@.energies =~= apertures_of(none).energies);
        assert(table@.columns =~= apertures_of(none).columns);
    }
    while i < rows.len()
        invariant
            i <= rows@.len(),
            k <= i,
            all == table_texts(rows@),
            f == filled(all),
            filled(all.take(i as int)).len() == k,
            forall|j: int|
                0 <= j < k ==> fda_row_failure(
                    filled(all.take(i as int)).take(j),
                    #[trigger] filled(all.take(i as int))[j],
                ) is None,
            k > 0 ==> nc == filled(all.take(i as int))[0].len() && machine@ == filled(
                all.take(i as int),
            )[0][0],
            k > 1 ==> nc >= 2 && applicator@ == filled(all.take(i as int))[1][1],
            table@ == apertures_of(filled(all.take(i as int))),
        decreases rows@.len() - i,
    {
        let row = &rows[i];
        let ghost kept = filled(all.take(i as int));
        let ghost cells = texts(row@);
        proof {
            assert(all[i as int] == cells);
            lemma_filled_step(all, i as int);
            lemma_filled_prefix(all, i + 1);
        }
        if row.len() == 0 {
            i += 1;
            continue ;
        }
        let ghost next = kept.push(cells);
        proof {
            assert(filled(all.take(i + 1)) == next);
            assert(next == f.take(k + 1));
            assert(f[k as int] == cells);
            assert(f.take(k as int) =~= kept);
            assert(next.take(k as int) =~= kept);
            assert forall|j: int| 0 <= j < k implies fda_row_failure(f.take(j), #[trigger] f[j])
                is None && fda_row_failure(next.take(j), next[j]) is None by {
                assert(f.take(j) =~= kept.take(j));
                assert(next.take(j) =~= kept.take(j));
                assert(f[j] == kept[j]);
            }
        }
        if k == 0 {
            nc = row.len();
            machine = row[0].clone();
        }
        if row.len() != nc {
            proof {
                assert(is_first_bad_fda_row(f, k as int));
                lemma_first_bad_fda_row(f, k as int);
            }
            return Err(width_mismatch(nc, k, row.len()));
        }
        if k == 1 {
            match check_applicator_row(row) {
                Ok(()) => {},
                Err(e) => {
                    proof {
                        assert(is_first_bad_fda_row(f, k as int));
                        lemma_first_bad_fda_row(f, k as int);
                    }
                    return Err(e);
                },
            }
            applicator = row[1].clone();
        } else if k == 2 {
            let e = if !text_eq(row[0].as_str(), "Dimensions") {
                Some(expected_at("the label 'Dimensions'", 2, 0))
            } else if !text_eq(row[1].as_str(), "id") {
                Some(expected_at("the label 'id'", 2, 1))
            } else {
                None
            };
            if let Some(e) = e {
                proof {
                    assert(is_first_bad_fda_row(f, k as int));
                    lemma_first_bad_fda_row(f, k as int);
                }
                return Err(e);
            }
            match read_numbers(row, 2, 2) {
                Ok(energies) => {
                    table.set_energies(energies);
                },
                Err(e) => {
                    proof {
                        assert(is_first_bad_fda_row(f, k as int));
                        lemma_first_bad_fda_row(f, k as int);
                    }
                    return Err(e);
                },
            }
        } else if k >= 3 {
            let id = match parse_index(row[1].as_str()) {
                Some(id) => id,
                None => {
                    proof {
                        assert(is_first_bad_fda_row(f, k as int));
                        lemma_first_bad_fda_row(f, k as int);
                    }
                    return Err(expected_at("an aperture id", k, 1));
                },
            };
            let values = match read_numbers(row, k, 2) {
                Ok(values) => values,
                Err(e) => {
                    proof {
                        assert(is_first_bad_fda_row(f, k as int));
                        lemma_first_bad_fda_row(f, k as int);
                    }
                    return Err(e);
                },
            };
            proof {
                lemma_apertures_grow(kept, cells);
            }
            match table.add(row[0].as_str(), id, values) {
                Ok(()) => {},
                Err(e) => {
                    proof {
                        assert(e == EmuError::DuplicateId(id));
                        assert(is_first_bad_fda_row(f, k as int));
                        lemma_first_bad_fda_row(f, k as int);
                    }
                    return Err(e);
                },
            }
        }
        proof {
            assert(fda_row_failure(next.take(k as int), next[k as int]) is None);
            if k < 3 {
                assert(table@.names =~= apertures_of(next).names);
                assert(table@.ids =~= apertures_of(next).ids);
                assert(table@.energies =~= apertures_of(next).energies);
                assert(table@.columns =~= apertures_of(next).columns);
            }
        }
        k += 1;
        i += 1;
    }
    proof {
        assert(all.take(i as int) =~= all);
        assert forall|c: int| !is_first_bad_fda_row(f, c) by {
            if 0 <= c < f.len() {
                assert(fda_row_failure(f.take(c), f[c]) is None);
            }
        }
    }
    if k < 3 {
        return Err(missing_row_error(k));
    }
    Ok((machine, applicator, table))
}

/// A row that is in order adds its aperture to the table of the rows
/// before it.
proof fn lemma_apertures_grow(before: Seq<Seq<Seq<char>>>, row: Seq<Seq<char>>)
    requires
        before.len() >= 3,
        row.len() == before[0].len(),
        row.len() >= 2,
        before[2].len() == row.len(),
        forall|j: int| 3 <= j < before.len() ==> (#[trigger] before[j]).len() == row.len(),
        index_of_text(row[1]) is Some,
    ensures
        apertures_of(before).fits_row(numbers(row, 2)),
        apertures_of(before.push(row)) == apertures_of(before).with_row(
            row[0],
            index_of_text(row[1])->Some_0,
            numbers(row, 2),
        ),
{
    let a = apertures_of(before);
    let b = apertures_of(before.push(row));
    let w = a.with_row(row[0], index_of_text(row[1])->Some_0, numbers(row, 2));
    let next = before.push(row);
    assert(next[0] == before[0]);
    assert(next[2] == before[2]);
    assert(b.names =~= w.names);
    assert(b.ids =~= w.ids);
    assert(b.energies =~= w.energies);
    assert(b.columns.len() == w.columns.len());
    assert forall|c: int| 0 <= c < b.columns.len() implies #[trigger] b.columns[c] =~= w.columns[c] by {
        assert forall|r: int| 0 <= r < b.columns[c].len() implies b.columns[c][r] == w.columns[c][r] by {
            if r < before.len() - 3 {
                assert(next[3 + r] == before[3 + r]);
            }
        }
    }
    assert(b.columns =~= w.columns);
}

/// Reads an aperture file from its text.  Where the text cannot be split
/// into rows the failure is an input/output error; else the rows decide.
pub fn read_fda_table(data: &[u8]) -> (r: Result<(String, String, FdaTable), EmuError>)
    ensures
        match csv_records(data@) {
            Some(rows) => fda_outcome(r) == fda_file(filled(rows)),
            None => r is Err && r->Err_0 is IO,
        },
{
    match parse_records(data) {
        Ok(rows) => fda_table_from_records(&rows),
        Err(e) => Err(e),
    }
}

} // verus!

//! Putting the calibration data together from the files of a directory: one
//! file of output factors and one of aperture corrections per machine and
//! applicator.

use crate::correction_data::{
    calibrations, same_energies, same_energy_lists, Calibration, CorrectionData,
};
use crate::errors::{EmuError, Failure};
use crate::fda_table::{fda_file, fda_outcome, read_fda_table, Apertures, FdaTable};
use crate::of_table::{of_file, of_outcome, read_of_table, OFTable, OutputFactors};
use crate::records::{csv_records, filled};
use crate::search::lemma_filter_step;
use crate::text::text_eq;
use vstd::prelude::*;
use vstd::string::StrSliceExecFns;

verus! {

/// What the name of a file says that the file holds.
#[derive(Clone, Copy, Debug, PartialEq, Eq, Structural)]
pub enum DataFileKind {
    /// Output factors: the name starts with `of_`.
    OutputFactors,
    /// Aperture corrections: the name starts with `fda_`.
    Apertures,
    /// Anything else, which a load passes over.
    Other,
}

/// Whether a name starts with the given characters.
pub open spec fn starts_with(name: Seq<char>, prefix: Seq<char>) -> bool {
    name.len() >= prefix.len() && name.subrange(0, prefix.len() as int) == prefix
}

pub open spec fn kind_of_name(name: Seq<char>) -> DataFileKind {
    if starts_with(name, "of_"@) {
        DataFileKind::OutputFactors
    } else if starts_with(name, "fda_"@) {
        DataFileKind::Apertures
    } else {
        DataFileKind::Other
    }
}

/// Tells from its name what a file of a calibration directory holds.
pub fn data_file_kind(name: &str) -> (k: DataFileKind)
    ensures
        k == kind_of_name(name@),
{
    proof {
        reveal_strlit("of_");
        reveal_strlit("fda_");
    }
    let n = name.unicode_len();
    if n >= 3 && text_eq(name.substring_char(0, 3), "of_") {
        DataFileKind::OutputFactors
    } else if n >= 4 && text_eq(name.substring_char(0, 4), "fda_") {
        DataFileKind::Apertures
    } else {
        DataFileKind::Other
    }
}

/// A directory has to hold as many files of output factors as of aperture
/// corrections.
pub fn check_file_counts(of_files: usize, fda_files: usize) -> (r: Result<(), EmuError>)
    ensures
        of_files == fda_files ==> r is Ok,
        of_files != fda_files ==> r == Err::<(), EmuError>(
            EmuError::CountMismatch { of_files, fda_files },
        ),
{
    if of_files != fda_files {
        Err(EmuError::CountMismatch { of_files, fda_files })
    } else {
        Ok(())
    }
}

/// The parsed files of output factors, as what they hold.
pub open spec fn of_entries(v: Seq<(String, String, OFTable)>) -> Seq<
    (Seq<char>, Seq<char>, OutputFactors),
> {
    Seq::new(v.len(), |i: int| (v[i].0@, v[i].1@, v[i].2@))
}

/// The parsed files of aperture corrections, as what they hold.
pub open spec fn fda_entries(v: Seq<(String, String, FdaTable)>) -> Seq<
    (Seq<char>, Seq<char>, Apertures),
> {
    Seq::new(v.len(), |i: int| (v[i].0@, v[i].1@, v[i].2@))
}

/// An aperture table belongs to output factors where it is for the same
/// machine and applicator and speaks of the same energies.
pub open spec fn belongs(
    of: (Seq<char>, Seq<char>, OutputFactors),
    fda: (Seq<char>, Seq<char>, Apertures),
) -> bool {
    &&& fda.0 == of.0
    &&& fda.1 == of.1
    &&& same_energies(fda.2.energies, of.2.energies)
}

/// `j` is the first aperture table that belongs to the output factors.
pub open spec fn is_first_partner(
    of: (Seq<char>, Seq<char>, OutputFactors),
    fdas: Seq<(Seq<char>, Seq<char>, Apertures)>,
    j: int,
) -> bool {
    &&& 0 <= j < fdas.len()
    &&& belongs(of, fdas[j])
    &&& forall|h: int| 0 <= h < j ==> !belongs(of, #[trigger] fdas[h])
}

pub open spec fn has_partner(
    of: (Seq<char>, Seq<char>, OutputFactors),
    fdas: Seq<(Seq<char>, Seq<char>, Apertures)>,
) -> bool {
    exists|j: int| 0 <= j < fdas.len() && belongs(of, #[trigger] fdas[j])
}

pub open spec fn first_partner(
    of: (Seq<char>, Seq<char>, OutputFactors),
    fdas: Seq<(Seq<char>, Seq<char>, Apertures)>,
) -> int {
    choose|j: int| is_first_partner(of, fdas, j)
}

/// An earlier file of output factors is for the same machine and applicator.
pub open spec fn repeats(ofs: Seq<(Seq<char>, Seq<char>, OutputFactors)>, i: int) -> bool {
    exists|h: int| 0 <= h < i && (#[trigger] ofs[h]).0 == ofs[i].0 && ofs[h].1 == ofs[i].1
}

/// What pairing the output factors at `i` fails with: a machine and
/// applicator that came before is ambiguous, and output factors without an
/// aperture table that belongs to them are a mismatch.
pub open spec fn pairing_failure(
    ofs: Seq<(Seq<char>, Seq<char>, OutputFactors)>,
    fdas: Seq<(Seq<char>, Seq<char>, Apertures)>,
    i: int,
) -> Option<Failure> {
    if repeats(ofs, i) {
        Some(Failure::AmbiguousMatch(ofs[i].0, ofs[i].1))
    } else if !has_partner(ofs[i], fdas) {
        Some(Failure::TableMismatch(ofs[i].0, ofs[i].1))
    } else {
        None
    }
}

/// `i` is the first file of output factors whose pairing fails.
pub open spec fn is_first_unpaired(
    ofs: Seq<(Seq<char>, Seq<char>, OutputFactors)>,
    fdas: Seq<(Seq<char>, Seq<char>, Apertures)>,
    i: int,
) -> bool {
    &&& 0 <= i < ofs.len()
    &&& pairing_failure(ofs, fdas, i) is Some
    &&& forall|h: int| 0 <= h < i ==> (#[trigger] pairing_failure(ofs, fdas, h)) is None
}

/// The calibration data of the output factors at `i`, with the first
/// aperture table that belongs to them.
pub open spec fn paired(
    ofs: Seq<(Seq<char>, Seq<char>, OutputFactors)>,
    fdas: Seq<(Seq<char>, Seq<char>, Apertures)>,
    i: int,
) -> Calibration {
    Calibration {
        machine: ofs[i].0,
        applicator: ofs[i].1,
        output_factors: ofs[i].2,
        fda: fdas[first_partner(ofs[i], fdas)].2,
    }
}

/// What pairing gives: the failure of the first output factors whose
/// pairing fails; no result at all is a failure too; else the calibration
/// data, one per file of output factors and in their order.
pub open spec fn pairing(
    ofs: Seq<(Seq<char>, Seq<char>, OutputFactors)>,
    fdas: Seq<(Seq<char>, Seq<char>, Apertures)>,
) -> Result<Seq<Calibration>, Failure> {
    if exists|i: int| is_first_unpaired(ofs, fdas, i) {
        let i = choose|i: int| is_first_unpaired(ofs, fdas, i);
        Err(pairing_failure(ofs, fdas, i)->Some_0)
    } else if ofs.len() == 0 {
        Err(Failure::EmptyResult)
    } else {
        Ok(Seq::new(ofs.len(), |i: int| paired(ofs, fdas, i)))
    }
}

/// What a load gave, as what it holds.
pub open spec fn load_outcome(r: Result<Vec<CorrectionData>, EmuError>) -> Result<
    Seq<Calibration>,
    Failure,
> {
    match r {
        Ok(v) => Ok(calibrations(v@)),
        Err(e) => Err(e@),
    }
}

proof fn lemma_first_unpaired(
    ofs: Seq<(Seq<char>, Seq<char>, OutputFactors)>,
    fdas: Seq<(Seq<char>, Seq<char>, Apertures)>,
    i: int,
)
    requires
        is_first_unpaired(ofs, fdas, i),
    ensures
        pairing(ofs, fdas) == Err::<Seq<Calibration>, Failure>(
            pairing_failure(ofs, fdas, i)->Some_0,
        ),
{
    let c = choose|c: int| is_first_unpaired(ofs, fdas, c);
    if c < i {
        assert(pairing_failure(ofs, fdas, c) is None);
    } else if i < c {
        assert(pairing_failure(ofs, fdas, i) is None);
    }
}

/// Whether an earlier file of output factors is for the same machine and
/// applicator as the one at `i`.
fn seen_before(ofs: &Vec<(String, String, OFTable)>, i: usize) -> (r: bool)
    requires
        i < ofs@.len(),
    ensures
        r == repeats(of_entries(ofs@), i as int),
{
    let ghost e = of_entries(ofs@);
    let mut h: usize = 0;
    while h < i
        invariant
            h <= i < ofs@.len(),
            e == of_entries(ofs@),
            forall|g: int| 0 <= g < h ==> !((#[trigger] e[g]).0 == e[i as int].0 && e[g].1 == e[i as int].1),
        decreases i - h,
    {
        if ofs[h].0 == ofs[i].0 && ofs[h].1 == ofs[i].1 {
            assert(e[h as int].0 == e[i as int].0 && e[h as int].1 == e[i as int].1);
            return true;
        }
        h += 1;
    }
    false
}

/// The first aperture table that belongs to the output factors at `i`.
fn find_partner(
    ofs: &Vec<(String, String, OFTable)>,
    fdas: &Vec<(String, String, FdaTable)>,
    i: usize,
) -> (r: Option<usize>)
    requires
        i < ofs@.len(),
    ensures
        match r {
            Some(j) => is_first_partner(of_entries(ofs@)[i as int], fda_entries(fdas@), j as int),
            None => !has_partner(of_entries(ofs@)[i as int], fda_entries(fdas@)),
        },
{
    let ghost of = of_entries(ofs@)[i as int];
    let ghost fs = fda_entries(fdas@);
    let mut j: usize = 0;
    while j < fdas.len()
        invariant
            j <= fdas@.len(),
            i < ofs@.len(),
            of == of_entries(ofs@)[i as int],
            fs == fda_entries(fdas@),
            forall|h: int| 0 <= h < j ==> !belongs(of, #[trigger] fs[h]),
        decreases fdas@.len() - j,
    {
        if fdas[j].0 == ofs[i].0 && fdas[j].1 == ofs[i].1 && same_energy_lists(
            fdas[j].2.get_energies(),
            ofs[i].2.get_energies(),
        ) {
            assert(belongs(of, fs[j as int]));
            return Some(j);
        }
        assert(!belongs(of, fs[j as int]));
        j += 1;
    }
    None
}

/// Pairs every file of output factors with the first aperture table for the
/// same machine and applicator that speaks of the same energies.  A machine
/// and applicator that occurs twice among the output factors, output
/// factors without such a table, and no output factors at all end the load.
pub fn pair_tables(
    ofs: &Vec<(String, String, OFTable)>,
    fdas: &Vec<(String, String, FdaTable)>,
) -> (r: Result<Vec<CorrectionData>, EmuError>)
    ensures
        load_outcome(r) == pairing(of_entries(ofs@), fda_entries(fdas@)),
        r is Ok ==> forall|i: int| 0 <= i < r->Ok_0@.len() ==> (#[trigger] r->Ok_0@[i])@.valid(),
{
    let ghost os = of_entries(ofs@);
    let ghost fs = fda_entries(fdas@);
    let mut vcd: Vec<CorrectionData> = Vec::new();
    let mut i: usize = 0;
    while i < ofs.len()
        invariant
            i <= ofs@.len(),
            os == of_entries(ofs@),
            fs == fda_entries(fdas@),
            vcd@.len() == i,
            forall|h: int| 0 <= h < i ==> (#[trigger] pairing_failure(os, fs, h)) is None,
            forall|h: int| 0 <= h < i ==> (#[trigger] vcd@[h])@ == paired(os, fs, h),
            forall|h: int| 0 <= h < i ==> (#[trigger] vcd@[h])@.valid(),
        decreases ofs@.len() - i,
    {
        if seen_before(ofs, i) {
            proof {
                assert(is_first_unpaired(os, fs, i as int));
                lemma_first_unpaired(os, fs, i as int);
            }
            return Err(EmuError::AmbiguousMatch(ofs[i].0.clone(), ofs[i].1.clone()));
        }
        let j = match find_partner(ofs, fdas, i) {
            Some(j) => j,
            None => {
                proof {
                    assert(is_first_unpaired(os, fs, i as int));
                    lemma_first_unpaired(os, fs, i as int);
                }
                return Err(EmuError::TableMismatch(ofs[i].0.clone(), ofs[i].1.clone()));
            },
        };
        proof {
            let c = first_partner(os[i as int], fs);
            assert(is_first_partner(os[i as int], fs, c));
            if c < j {
                assert(!belongs(os[i as int], fs[c]));
            } else if j < c {
                assert(!belongs(os[i as int], fs[j as int]));
            }
            assert(has_partner(os[i as int], fs));
        }
        let cd = CorrectionData {
            machine: ofs[i].0.clone(),
            applicator: ofs[i].1.clone(),
            output_factors: ofs[i].2.clone(),
            fda: fdas[j].2.clone(),
        };
        assert(cd@ == paired(os, fs, i as int));
        vcd.push(cd);
        i += 1;
    }
    proof {
        assert forall|c: int| !is_first_unpaired(os, fs, c) by {
            if 0 <= c < os.len() {
                assert(pairing_failure(os, fs, c) is None);
            }
        }
    }
    if vcd.len() == 0 {
        return Err(EmuError::EmptyResult);
    }
    assert(calibrations(vcd@) =~= Seq::new(os.len(), |i: int| paired(os, fs, i)));
    Ok(vcd)
}

/// A file of a calibration directory: its name and what it holds.
#[derive(Debug)]
pub struct DataFile {
    pub name: String,
    pub content: Vec<u8>,
}

/// The files of one kind, in their order.
pub open spec fn files_of_kind(files: Seq<DataFile>, kind: DataFileKind) -> Seq<DataFile> {
    files.filter(|f: DataFile| kind_of_name(f.name@) == kind)
}

/// What reading a file of output factors gives.  A text that cannot be
/// split into rows fails without a description that could be stated here.
pub open spec fn of_reading(data: Seq<u8>) -> Result<
    (Seq<char>, Seq<char>, OutputFactors),
    Option<Failure>,
> {
    match csv_records(data) {
        None => Err(None),
        Some(rows) => match of_file(filled(rows)) {
            Ok(t) => Ok(t),
            Err(e) => Err(Some(e)),
        },
    }
}

/// What reading a file of aperture corrections gives.
pub open spec fn fda_reading(data: Seq<u8>) -> Result<
    (Seq<char>, Seq<char>, Apertures),
    Option<Failure>,
> {
    match csv_records(data) {
        None => Err(None),
        Some(rows) => match fda_file(filled(rows)) {
            Ok(t) => Ok(t),
            Err(e) => Err(Some(e)),
        },
    }
}

/// `i` is the first file of output factors that cannot be read.
pub open spec fn is_first_unread_of(files: Seq<DataFile>, i: int) -> bool {
    &&& 0 <= i < files.len()
    &&& of_reading(files[i].content@) is Err
    &&& forall|h: int| 0 <= h < i ==> of_reading((#[trigger] files[h]).content@) is Ok
}

/// `i` is the first file of aperture corrections that cannot be read.
pub open spec fn is_first_unread_fda(files: Seq<DataFile>, i: int) -> bool {
    &&& 0 <= i < files.len()
    &&& fda_reading(files[i].content@) is Err
    &&& forall|h: int| 0 <= h < i ==> fda_reading((#[trigger] files[h]).content@) is Ok
}

/// What a load gives.  The numbers of files of the two kinds are compared
/// before anything is read.  Then the output factors are read, then the
/// aperture corrections, each kind in the order of its files, and the first
/// file that cannot be read ends the load with its own failure, handed on
/// as it is (`None` stands for the failure of a text that cannot be split
/// into rows, of which only the kind is known).  What was read is paired:
/// either all of it, or the load fails.
pub open spec fn load_model(files: Seq<DataFile>) -> Result<Seq<Calibration>, Option<Failure>> {
    let o = files_of_kind(files, DataFileKind::OutputFactors);
    let a = files_of_kind(files, DataFileKind::Apertures);
    if o.len() != a.len() {
        Err(
            Some(
                Failure::CountMismatch { of_files: o.len() as usize, fda_files: a.len() as usize },
            ),
        )
    } else if exists|i: int| is_first_unread_of(o, i) {
        Err(of_reading(o[choose|i: int| is_first_unread_of(o, i)].content@)->Err_0)
    } else if exists|i: int| is_first_unread_fda(a, i) {
        Err(fda_reading(a[choose|i: int| is_first_unread_fda(a, i)].content@)->Err_0)
    } else {
        match pairing(
            Seq::new(o.len(), |i: int| of_reading(o[i].content@)->Ok_0),
            Seq::new(a.len(), |i: int| fda_reading(a[i].content@)->Ok_0),
        ) {
            Ok(v) => Ok(v),
            Err(e) => Err(Some(e)),
        }
    }
}

/// Whether a failure is the one that a load is to fail with: the failure
/// itself, unchanged; for a text that cannot be split into rows, an
/// input/output error with the reader's words.
pub open spec fn is_load_failure(e: EmuError, f: Option<Failure>) -> bool {
    match f {
        Some(x) => e@ == x,
        None => e is IO,
    }
}

/// Whether a load's result is what the model says.
pub open spec fn load_agrees(
    r: Result<Vec<CorrectionData>, EmuError>,
    m: Result<Seq<Calibration>, Option<Failure>>,
) -> bool {
    match m {
        Ok(v) => r is Ok && calibrations(r->Ok_0@) == v,
        Err(f) => r is Err && is_load_failure(r->Err_0, f),
    }
}

/// The positions of the files of one kind.
fn positions_of_kind(files: &Vec<DataFile>, kind: DataFileKind) -> (r: Vec<usize>)
    ensures
        r@.len() == files_of_kind(files@, kind).len(),
        forall|k: int|
            0 <= k < r@.len() ==> 0 <= #[trigger] r@[k] < files@.len() && files@[r@[k] as int]
                == files_of_kind(files@, kind)[k],
{
    let ghost pred = |f: DataFile| kind_of_name(f.name@) == kind;
    let mut r: Vec<usize> = Vec::new();
    let mut i: usize = 0;
    assert(files@.take(0).filter(pred).len() == 0) by {
        assert(files@.take(0) =~= Seq::<DataFile>::empty());
    }
    while i < files.len()
        invariant
            i <= files@.len(),
            pred == (|f: DataFile| kind_of_name(f.name@) == kind),
            r@.len() == files@.take(i as int).filter(pred).len(),
            forall|k: int|
                0 <= k < r@.len() ==> 0 <= #[trigger] r@[k] < files@.len() && files@[r@[k] as int]
                    == files@.take(i as int).filter(pred)[k],
        decreases files@.len() - i,
    {
        proof {
            lemma_filter_step(files@, pred, i as int);
        }
        if data_file_kind(files[i].name.as_str()) == kind {
            r.push(i);
        }
        i += 1;
    }
    assert(files@.take(i as int) =~= files@);
    r
}

/// Loads the calibration data from the files of a directory, given by name
/// and content.  Files whose name starts with `of_` hold output factors,
/// those whose name starts with `fda_` aperture corrections; the others are
/// passed over.
pub fn load_data(files: &Vec<DataFile>) -> (r: Result<Vec<CorrectionData>, EmuError>)
    ensures
        load_agrees(r, load_model(files@)),
        r is Ok ==> forall|i: int| 0 <= i < r->Ok_0@.len() ==> (#[trigger] r->Ok_0@[i])@.valid(),
{
    let ghost o = files_of_kind(files@, DataFileKind::OutputFactors);
    let ghost a = files_of_kind(files@, DataFileKind::Apertures);
    let of_at = positions_of_kind(files, DataFileKind::OutputFactors);
    let fda_at = positions_of_kind(files, DataFileKind::Apertures);
    match check_file_counts(of_at.len(), fda_at.len()) {
        Ok(()) => {},
        Err(e) => {
            return Err(e);
        },
    }
    let mut ofs: Vec<(String, String, OFTable)> = Vec::new();
    let mut i: usize = 0;
    while i < of_at.len()
        invariant
            i <= of_at@.len(),
            o == files_of_kind(files@, DataFileKind::OutputFactors),
            a == files_of_kind(files@, DataFileKind::Apertures),
            o.len() == a.len(),
            of_at@.len() == o.len(),
            forall|k: int|
                0 <= k < of_at@.len() ==> 0 <= #[trigger] of_at@[k] < files@.len()
                    && files@[of_at@[k] as int] == o[k],
            ofs@.len() == i,
            forall|h: int| 0 <= h < i ==> of_reading((#[trigger] o[h]).content@) is Ok,
            forall|h: int|
                0 <= h < i ==> (#[trigger] of_entries(ofs@)[h]) == of_reading(o[h].content@)->Ok_0,
        decreases of_at@.len() - i,
    {
        let file = &files[of_at[i]];
        assert(*file == o[i as int]);
        let ghost before = of_entries(ofs@);
        match read_of_table(file.content.as_slice()) {
            Ok(t) => {
                assert(of_outcome(Ok(t)) is Ok);
                ofs.push(t);
            },
            Err(e) => {
                proof {
                    assert(of_outcome(Err(e)) is Err);
                    assert(is_first_unread_of(o, i as int));
                    let c = choose|c: int| is_first_unread_of(o, c);
                    if c < i {
                        assert(of_reading(o[c].content@) is Ok);
                    } else if i < c {
                        assert(of_reading(o[i as int].content@) is Ok);
                    }
                }
                return Err(e);
            },
        }
        proof {
            assert forall|h: int| 0 <= h < i + 1 implies (#[trigger] of_entries(ofs@)[h])
                == of_reading(o[h].content@)->Ok_0 by {
                if h < i {
                    assert(of_entries(ofs@)[h] == before[h]);
                }
            }
        }
        i += 1;
    }
    let mut fdas: Vec<(String, String, FdaTable)> = Vec::new();
    let mut j: usize = 0;
    while j < fda_at.len()
        invariant
            j <= fda_at@.len(),
            o == files_of_kind(files@, DataFileKind::OutputFactors),
            a == files_of_kind(files@, DataFileKind::Apertures),
            o.len() == a.len(),
            forall|h: int| 0 <= h < o.len() ==> of_reading((#[trigger] o[h]).content@) is Ok,
            fda_at@.len() == a.len(),
            forall|k: int|
                0 <= k < fda_at@.len() ==> 0 <= #[trigger] fda_at@[k] < files@.len()
                    && files@[fda_at@[k] as int] == a[k],
            fdas@.len() == j,
            forall|h: int| 0 <= h < j ==> fda_reading((#[trigger] a[h]).content@) is Ok,
            forall|h: int|
                0 <= h < j ==> (#[trigger] fda_entries(fdas@)[h]) == fda_reading(
                    a[h].content@,
                )->Ok_0,
        decreases fda_at@.len() - j,
    {
        let file = &files[fda_at[j]];
        assert(*file == a[j as int]);
        let ghost before = fda_entries(fdas@);
        match read_fda_table(file.content.as_slice()) {
            Ok(t) => {
                assert(fda_outcome(Ok(t)) is Ok);
                fdas.push(t);
            },
            Err(e) => {
                proof {
                    assert(fda_outcome(Err(e)) is Err);
                    assert(is_first_unread_fda(a, j as int));
                    let c = choose|c: int| is_first_unread_fda(a, c);
                    if c < j {
                        assert(fda_reading(a[c].content@) is Ok);
                    } else if j < c {
                        assert(fda_reading(a[j as int].content@) is Ok);
                    }
                    assert forall|c: int| !is_first_unread_of(o, c) by {
                        if 0 <= c < o.len() {
                            assert(of_reading(o[c].content@) is Ok);
                        }
                    }
                }
                return Err(e);
            },
        }
        proof {
            assert forall|h: int| 0 <= h < j + 1 implies (#[trigger] fda_entries(fdas@)[h])
                == fda_reading(a[h].content@)->Ok_0 by {
                if h < j {
                    assert(fda_entries(fdas@)[h] == before[h]);
                }
            }
        }
        j += 1;
    }
    proof {
        assert forall|c: int| !is_first_unread_of(o, c) by {
            if 0 <= c < o.len() {
                assert(of_reading(o[c].content@) is Ok);
            }
        }
        assert forall|c: int| !is_first_unread_fda(a, c) by {
            if 0 <= c < a.len() {
                assert(fda_reading(a[c].content@) is Ok);
            }
        }
        assert(of_entries(ofs@) =~= Seq::new(o.len(), |i: int| of_reading(o[i].content@)->Ok_0));
        assert(fda_entries(fdas@) =~= Seq::new(
            a.len(),
            |i: int| fda_reading(a[i].content@)->Ok_0,
        ));
    }
    pair_tables(&ofs, &fdas)
}

/// Output factors whose every aperture table for the same machine and
/// applicator speaks of other energies end the load: a load never pairs
/// tables that disagree on their energies.
pub proof fn law_disagreeing_energies_fail(
    ofs: Seq<(Seq<char>, Seq<char>, OutputFactors)>,
    fdas: Seq<(Seq<char>, Seq<char>, Apertures)>,
    i: int,
)
    requires
        0 <= i < ofs.len(),
        forall|j: int|
            0 <= j < fdas.len() && (#[trigger] fdas[j]).0 == ofs[i].0 && fdas[j].1 == ofs[i].1
                ==> !same_energies(fdas[j].2.energies, ofs[i].2.energies),
    ensures
        pairing(ofs, fdas) is Err,
        (forall|h: int| 0 <= h < i ==> (#[trigger] pairing_failure(ofs, fdas, h)) is None)
            && !repeats(ofs, i) ==> pairing(ofs, fdas) == Err::<Seq<Calibration>, Failure>(
            Failure::TableMismatch(ofs[i].0, ofs[i].1),
        ),
{
    assert(!has_partner(ofs[i], fdas));
    assert(pairing_failure(ofs, fdas, i) is Some);
    lemma_some_unpaired(ofs, fdas, i);
    if (forall|h: int| 0 <= h < i ==> (#[trigger] pairing_failure(ofs, fdas, h)) is None)
        && !repeats(ofs, i) {
        assert(is_first_unpaired(ofs, fdas, i));
        lemma_first_unpaired(ofs, fdas, i);
    }
}

/// Where the pairing of some output factors fails, there is a first one
/// whose pairing fails.
proof fn lemma_some_unpaired(
    ofs: Seq<(Seq<char>, Seq<char>, OutputFactors)>,
    fdas: Seq<(Seq<char>, Seq<char>, Apertures)>,
    i: int,
)
    requires
        0 <= i < ofs.len(),
        pairing_failure(ofs, fdas, i) is Some,
    ensures
        exists|c: int| is_first_unpaired(ofs, fdas, c),
    decreases i,
{
    if exists|h: int| 0 <= h < i && (#[trigger] pairing_failure(ofs, fdas, h)) is Some {
        let h = choose|h: int| 0 <= h < i && (#[trigger] pairing_failure(ofs, fdas, h)) is Some;
        lemma_some_unpaired(ofs, fdas, h);
    } else {
        assert(is_first_unpaired(ofs, fdas, i));
    }
}

/// Every calibration data that pairing gives has two tables that speak of
/// the same energies.
pub proof fn law_paired_tables_agree(
    ofs: Seq<(Seq<char>, Seq<char>, OutputFactors)>,
    fdas: Seq<(Seq<char>, Seq<char>, Apertures)>,
    i: int,
)
    requires
        pairing(ofs, fdas) is Ok,
        0 <= i < ofs.len(),
    ensures
        pairing(ofs, fdas)->Ok_0[i].valid(),
        pairing(ofs, fdas)->Ok_0[i].machine == ofs[i].0,
        pairing(ofs, fdas)->Ok_0[i].applicator == ofs[i].1,
{
    if pairing_failure(ofs, fdas, i) is Some {
        lemma_some_unpaired(ofs, fdas, i);
    }
    assert(has_partner(ofs[i], fdas));
    let j = choose|j: int| 0 <= j < fdas.len() && belongs(ofs[i], #[trigger] fdas[j]);
    lemma_first_partner_exists(ofs[i], fdas, j);
    let c = first_partner(ofs[i], fdas);
    assert(is_first_partner(ofs[i], fdas, c));
    crate::correction_data::law_validation_ignores_order(
        fdas[c].2.energies,
        ofs[i].2.energies,
    );
}

proof fn lemma_first_partner_exists(
    of: (Seq<char>, Seq<char>, OutputFactors),
    fdas: Seq<(Seq<char>, Seq<char>, Apertures)>,
    j: int,
)
    requires
        0 <= j < fdas.len(),
        belongs(of, fdas[j]),
    ensures
        exists|c: int| is_first_partner(of, fdas, c),
    decreases j,
{
    if exists|h: int| 0 <= h < j && belongs(of, #[trigger] fdas[h]) {
        let h = choose|h: int| 0 <= h < j && belongs(of, #[trigger] fdas[h]);
        lemma_first_partner_exists(of, fdas, h);
    } else {
        assert(is_first_partner(of, fdas, j));
    }
}

/// A directory with unequal numbers of files of the two kinds fails on
/// that, whatever its files hold: the numbers are compared before anything
/// is read.
pub proof fn law_counts_come_first(files: Seq<DataFile>)
    requires
        files_of_kind(files, DataFileKind::OutputFactors).len() != files_of_kind(
            files,
            DataFileKind::Apertures,
        ).len(),
    ensures
        load_model(files) == Err::<Seq<Calibration>, Option<Failure>>(
            Some(
                Failure::CountMismatch {
                    of_files: files_of_kind(files, DataFileKind::OutputFactors).len() as usize,
                    fda_files: files_of_kind(files, DataFileKind::Apertures).len() as usize,
                },
            ),
        ),
{
}

/// The failure of the first file that cannot be read is the failure of the
/// load, handed on as it is: no later file and no pairing is looked at.
pub proof fn law_first_unread_file_decides(files: Seq<DataFile>, i: int)
    requires
        files_of_kind(files, DataFileKind::OutputFactors).len() == files_of_kind(
            files,
            DataFileKind::Apertures,
        ).len(),
    ensures
        is_first_unread_of(files_of_kind(files, DataFileKind::OutputFactors), i) ==> load_model(
            files,
        ) == Err::<Seq<Calibration>, Option<Failure>>(
            of_reading(files_of_kind(files, DataFileKind::OutputFactors)[i].content@)->Err_0,
        ),
        (forall|h: int| !is_first_unread_of(files_of_kind(files, DataFileKind::OutputFactors), h))
            && is_first_unread_fda(files_of_kind(files, DataFileKind::Apertures), i) ==> load_model(
            files,
        ) == Err::<Seq<Calibration>, Option<Failure>>(
            fda_reading(files_of_kind(files, DataFileKind::Apertures)[i].content@)->Err_0,
        ),
{
    let o = files_of_kind(files, DataFileKind::OutputFactors);
    let a = files_of_kind(files, DataFileKind::Apertures);
    if is_first_unread_of(o, i) {
        let c = choose|c: int| is_first_unread_of(o, c);
        if c < i {
            assert(of_reading(o[c].content@) is Ok);
        } else if i < c {
            assert(of_reading(o[i].content@) is Ok);
        }
    }
    if is_first_unread_fda(a, i) {
        let c = choose|c: int| is_first_unread_fda(a, c);
        if c < i {
            assert(fda_reading(a[c].content@) is Ok);
        } else if i < c {
            assert(fda_reading(a[i].content@) is Ok);
        }
    }
}

} // verus!

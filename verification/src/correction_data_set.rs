//! The calibration data of all machines and applicators, and what can be
//! asked of it before a calculation.

use crate::correction_data::{calibrations, Calibration, CorrectionData};
use crate::decimal::Decimal;
use crate::errors::{EmuError, Failure};
use crate::loader::{is_load_failure, load_data, load_model, DataFile};
use crate::search::{
    distinct, find_decimal, lemma_distinct, lemma_distinct_append, lemma_first_at,
    push_new_decimals, with_all_new,
};
use crate::text::{decimal_of_text, parse_decimal, push_new_text, push_new_texts, text_eq, texts};
use vstd::prelude::*;

verus! {

/// What every entry of the data lists, one entry after another.
pub open spec fn listed<T>(data: Seq<Calibration>, pick: spec_fn(Calibration) -> Seq<T>) -> Seq<T>
    decreases data.len(),
{
    if data.len() == 0 {
        Seq::empty()
    } else {
        listed(data.drop_last(), pick) + pick(data.last())
    }
}

/// Listing one entry further.
pub proof fn lemma_listed_step<T>(
    data: Seq<Calibration>,
    pick: spec_fn(Calibration) -> Seq<T>,
    i: int,
)
    requires
        0 <= i < data.len(),
    ensures
        listed(data.take(i + 1), pick) == listed(data.take(i), pick) + pick(data[i]),
{
    assert(data.take(i + 1).drop_last() =~= data.take(i));
}

/// The entry is for this machine and has this energy.
pub open spec fn offers(c: Calibration, machine: Seq<char>, energy: Decimal) -> bool {
    c.machine == machine && c.output_factors.energies.contains(energy)
}

/// The machines, each where it was first seen.
pub open spec fn machines_of(data: Seq<Calibration>) -> Seq<Seq<char>> {
    distinct(listed(data, |c: Calibration| seq![c.machine]))
}

/// The energies that a machine has with any applicator, each where it was
/// first seen.
pub open spec fn energies_of(data: Seq<Calibration>, machine: Seq<char>) -> Seq<Decimal> {
    distinct(
        listed(
            data,
            |c: Calibration|
                if c.machine == machine {
                    c.output_factors.energies
                } else {
                    Seq::empty()
                },
        ),
    )
}

/// The applicators that offer an energy on a machine, each where it was
/// first seen.
pub open spec fn applicators_of(data: Seq<Calibration>, machine: Seq<char>, energy: Decimal) -> Seq<
    Seq<char>,
> {
    distinct(
        listed(
            data,
            |c: Calibration|
                if offers(c, machine, energy) {
                    seq![c.applicator]
                } else {
                    Seq::empty()
                },
        ),
    )
}

/// The labels of the apertures that fit an applicator which offers an
/// energy on a machine, each where it was first seen.
pub open spec fn fitments_of(
    data: Seq<Calibration>,
    machine: Seq<char>,
    energy: Decimal,
    applicator: Seq<char>,
) -> Seq<Seq<char>> {
    distinct(
        listed(
            data,
            |c: Calibration|
                if offers(c, machine, energy) && c.applicator == applicator {
                    c.fda.names
                } else {
                    Seq::empty()
                },
        ),
    )
}

/// `i` is the first entry for a machine and applicator that has the energy.
pub open spec fn is_first_offer(
    data: Seq<Calibration>,
    machine: Seq<char>,
    applicator: Seq<char>,
    energy: Decimal,
    i: int,
) -> bool {
    &&& 0 <= i < data.len()
    &&& offers(data[i], machine, energy) && data[i].applicator == applicator
    &&& forall|h: int|
        0 <= h < i ==> !(offers(#[trigger] data[h], machine, energy) && data[h].applicator
            == applicator)
}

/// The reference depth of an energy given as a text, in the first entry for
/// the machine and applicator that has the energy.
pub open spec fn zref_of(
    data: Seq<Calibration>,
    machine: Seq<char>,
    applicator: Seq<char>,
    energy: Seq<char>,
) -> Option<Decimal> {
    match decimal_of_text(energy) {
        None => None,
        Some(e) => if exists|i: int| is_first_offer(data, machine, applicator, e, i) {
            data[choose|i: int| is_first_offer(data, machine, applicator, e, i)].output_factors.zref(
                e,
            )
        } else {
            None
        },
    }
}

/// The entry is for this machine and applicator.
pub open spec fn is_for(c: Calibration, machine: Seq<char>, applicator: Seq<char>) -> bool {
    c.machine == machine && c.applicator == applicator
}

/// Entry `i` is the only one for the machine and applicator.
pub open spec fn is_only_entry(
    data: Seq<Calibration>,
    machine: Seq<char>,
    applicator: Seq<char>,
    i: int,
) -> bool {
    &&& 0 <= i < data.len()
    &&& is_for(data[i], machine, applicator)
    &&& forall|h: int|
        0 <= h < data.len() && h != i ==> !is_for(#[trigger] data[h], machine, applicator)
}

/// Which entry is for a machine and applicator: the only one; none and more
/// than one are failures.
pub open spec fn resolved(data: Seq<Calibration>, machine: Seq<char>, applicator: Seq<char>) -> Result<
    int,
    Failure,
> {
    if exists|i: int| is_only_entry(data, machine, applicator, i) {
        Ok(choose|i: int| is_only_entry(data, machine, applicator, i))
    } else if exists|i: int| 0 <= i < data.len() && is_for(#[trigger] data[i], machine, applicator) {
        Err(Failure::AmbiguousMatch(machine, applicator))
    } else {
        Err(Failure::CorrectionDataNotFound(machine, applicator))
    }
}

/// Finds the only entry for a machine and applicator.
pub fn resolve(vcd: &Vec<CorrectionData>, machine: &str, applicator: &str) -> (r: Result<
    usize,
    EmuError,
>)
    ensures
        match r {
            Ok(i) => resolved(calibrations(vcd@), machine@, applicator@) == Ok::<int, Failure>(
                i as int,
            ) && i < vcd@.len(),
            Err(e) => resolved(calibrations(vcd@), machine@, applicator@) == Err::<int, Failure>(
                e@,
            ),
        },
{
    let ghost data = calibrations(vcd@);
    let mut found: Option<usize> = None;
    let mut i: usize = 0;
    while i < vcd.len()
        invariant
            i <= vcd@.len(),
            data == calibrations(vcd@),
            match found {
                Some(k) => k < i && is_for(data[k as int], machine@, applicator@) && forall|h: int|
                    0 <= h < i && h != k ==> !is_for(#[trigger] data[h], machine@, applicator@),
                None => forall|h: int|
                    0 <= h < i ==> !is_for(#[trigger] data[h], machine@, applicator@),
            },
        decreases vcd@.len() - i,
    {
        if text_eq(vcd[i].machine.as_str(), machine) && text_eq(
            vcd[i].applicator.as_str(),
            applicator,
        ) {
            assert(is_for(data[i as int], machine@, applicator@));
            match found {
                Some(k) => {
                    proof {
                        assert forall|c: int| !is_only_entry(data, machine@, applicator@, c) by {
                            if c == k {
                                assert(is_for(data[i as int], machine@, applicator@));
                            } else {
                                assert(is_for(data[k as int], machine@, applicator@));
                            }
                        }
                    }
                    return Err(
                        EmuError::AmbiguousMatch(machine.to_owned(), applicator.to_owned()),
                    );
                },
                None => {
                    found = Some(i);
                },
            }
        }
        i += 1;
    }
    match found {
        Some(k) => {
            proof {
                assert(is_only_entry(data, machine@, applicator@, k as int));
                let c = choose|c: int| is_only_entry(data, machine@, applicator@, c);
                if c != k {
                    assert(!is_for(data[k as int], machine@, applicator@));
                }
            }
            Ok(k)
        },
        None => {
            proof {
                assert forall|c: int| !is_only_entry(data, machine@, applicator@, c) by {}
            }
            Err(EmuError::CorrectionDataNotFound(machine.to_owned(), applicator.to_owned()))
        },
    }
}

/// The machines of a list of calibration data, each once and where it was
/// first seen.
pub fn list_machines(vcd: &Vec<CorrectionData>) -> (r: Vec<String>)
    ensures
        texts(r@) == machines_of(calibrations(vcd@)),
{
    let ghost data = calibrations(vcd@);
    let ghost pick = |c: Calibration| seq![c.machine];
    let mut v: Vec<String> = Vec::new();
    let mut i: usize = 0;
    assert(texts(v@) =~= distinct(listed(data.take(0), pick))) by {
        assert(data.take(0) =~= Seq::<Calibration>::empty());
    }
    while i < vcd.len()
        invariant
            i <= vcd@.len(),
            data == calibrations(vcd@),
            pick == (|c: Calibration| seq![c.machine]),
            texts(v@) == distinct(listed(data.take(i as int), pick)),
        decreases vcd@.len() - i,
    {
        proof {
            lemma_listed_step(data, pick, i as int);
            lemma_distinct_append(listed(data.take(i as int), pick), pick(data[i as int]));
            reveal_with_fuel(with_all_new, 2);
            assert(pick(data[i as int]).drop_last() =~= Seq::<Seq<char>>::empty());
        }
        push_new_text(&mut v, vcd[i].machine.as_str());
        i += 1;
    }
    assert(data.take(i as int) =~= data);
    v
}

/// The applicators of a machine, each where it was first seen.
pub open spec fn applicators_on(data: Seq<Calibration>, machine: Seq<char>) -> Seq<Seq<char>> {
    distinct(
        listed(
            data,
            |c: Calibration|
                if c.machine == machine {
                    seq![c.applicator]
                } else {
                    Seq::empty()
                },
        ),
    )
}

/// The applicators of a machine in a list of calibration data, each once
/// and where it was first seen.
pub fn list_applicators(vcd: &Vec<CorrectionData>, machine: &str) -> (r: Vec<String>)
    ensures
        texts(r@) == applicators_on(calibrations(vcd@), machine@),
{
    let ghost data = calibrations(vcd@);
    let ghost pick = |c: Calibration|
        if c.machine == machine@ {
            seq![c.applicator]
        } else {
            Seq::empty()
        };
    let mut v: Vec<String> = Vec::new();
    let mut i: usize = 0;
    assert(texts(v@) =~= distinct(listed(data.take(0), pick))) by {
        assert(data.take(0) =~= Seq::<Calibration>::empty());
    }
    while i < vcd.len()
        invariant
            i <= vcd@.len(),
            data == calibrations(vcd@),
            pick == (|c: Calibration|
                if c.machine == machine@ {
                    seq![c.applicator]
                } else {
                    Seq::<Seq<char>>::empty()
                }),
            texts(v@) == distinct(listed(data.take(i as int), pick)),
        decreases vcd@.len() - i,
    {
        proof {
            lemma_listed_step(data, pick, i as int);
            lemma_distinct_append(listed(data.take(i as int), pick), pick(data[i as int]));
            reveal_with_fuel(with_all_new, 2);
            assert(seq![data[i as int].applicator].drop_last() =~= Seq::<Seq<char>>::empty());
        }
        if text_eq(vcd[i].machine.as_str(), machine) {
            push_new_text(&mut v, vcd[i].applicator.as_str());
        }
        i += 1;
    }
    assert(data.take(i as int) =~= data);
    v
}

/// The calibration data of all machines and applicators.
#[derive(Debug)]
pub struct CorrectionDataSet {
    data: Vec<CorrectionData>,
}

impl View for CorrectionDataSet {
    type V = Seq<Calibration>;

    closed spec fn view(&self) -> Seq<Calibration> {
        calibrations(self.data@)
    }
}

impl CorrectionDataSet {
    /// A set without data.
    pub fn new() -> (r: CorrectionDataSet)
        ensures
            r@.len() == 0,
    {
        CorrectionDataSet { data: Vec::new() }
    }

    /// The set of the given data, in their order.
    pub fn from_data(v: Vec<CorrectionData>) -> (r: CorrectionDataSet)
        ensures
            r@ == calibrations(v@),
    {
        CorrectionDataSet { data: v }
    }

    /// The data, in their order.
    pub fn entries(&self) -> (r: &Vec<CorrectionData>)
        ensures
            calibrations(r@) == self@,
    {
        &self.data
    }

    /// The machines, each once and where it was first seen.
    pub fn get_machines(&self) -> (r: Vec<String>)
        ensures
            texts(r@) == machines_of(self@),
    {
        list_machines(&self.data)
    }

    /// The energies that a machine has with any applicator, each once and
    /// where it was first seen.
    pub fn get_energies(&self, machine: &str) -> (r: Vec<Decimal>)
        ensures
            r@ == energies_of(self@, machine@),
    {
        let ghost data = self@;
        let ghost pick = |c: Calibration|
            if c.machine == machine@ {
                c.output_factors.energies
            } else {
                Seq::empty()
            };
        let mut v: Vec<Decimal> = Vec::new();
        let mut i: usize = 0;
        assert(v@ =~= distinct(listed(data.take(0), pick))) by {
            assert(data.take(0) =~= Seq::<Calibration>::empty());
        }
        while i < self.data.len()
            invariant
                i <= self.data@.len(),
                data == self@,
                data == calibrations(self.data@),
                pick == (|c: Calibration|
                    if c.machine == machine@ {
                        c.output_factors.energies
                    } else {
                        Seq::<Decimal>::empty()
                    }),
                v@ == distinct(listed(data.take(i as int), pick)),
            decreases self.data@.len() - i,
        {
            proof {
                lemma_listed_step(data, pick, i as int);
                lemma_distinct_append(listed(data.take(i as int), pick), pick(data[i as int]));
            }
            if text_eq(self.data[i].machine.as_str(), machine) {
                push_new_decimals(&mut v, self.data[i].get_energies_as_ref());
            }
            i += 1;
        }
        assert(data.take(i as int) =~= data);
        v
    }

    /// The applicators that offer an energy on a machine, each once and
    /// where it was first seen.
    pub fn get_applicators(&self, machine: &str, energy: Decimal) -> (r: Vec<String>)
        ensures
            texts(r@) == applicators_of(self@, machine@, energy),
    {
        let ghost data = self@;
        let ghost pick = |c: Calibration|
            if offers(c, machine@, energy) {
                seq![c.applicator]
            } else {
                Seq::empty()
            };
        let mut v: Vec<String> = Vec::new();
        let mut i: usize = 0;
        assert(texts(v@) =~= distinct(listed(data.take(0), pick))) by {
            assert(data.take(0) =~= Seq::<Calibration>::empty());
        }
        while i < self.data.len()
            invariant
                i <= self.data@.len(),
                data == self@,
                data == calibrations(self.data@),
                pick == (|c: Calibration|
                    if offers(c, machine@, energy) {
                        seq![c.applicator]
                    } else {
                        Seq::<Seq<char>>::empty()
                    }),
                texts(v@) == distinct(listed(data.take(i as int), pick)),
            decreases self.data@.len() - i,
        {
            proof {
                lemma_listed_step(data, pick, i as int);
                lemma_distinct_append(listed(data.take(i as int), pick), pick(data[i as int]));
                reveal_with_fuel(with_all_new, 2);
                assert(seq![data[i as int].applicator].drop_last() =~= Seq::<Seq<char>>::empty());
            }
            let cd = &self.data[i];
            if text_eq(cd.machine.as_str(), machine) && holds_energy(cd, energy) {
                push_new_text(&mut v, cd.applicator.as_str());
            }
            i += 1;
        }
        assert(data.take(i as int) =~= data);
        v
    }

    /// The labels of the apertures that fit an applicator which offers an
    /// energy on a machine, each once and where it was first seen.
    pub fn get_applicator_fitments(&self, machine: &str, energy: Decimal, applicator: &str) -> (r:
        Vec<String>)
        ensures
            texts(r@) == fitments_of(self@, machine@, energy, applicator@),
    {
        let ghost data = self@;
        let ghost pick = |c: Calibration|
            if offers(c, machine@, energy) && c.applicator == applicator@ {
                c.fda.names
            } else {
                Seq::empty()
            };
        let mut v: Vec<String> = Vec::new();
        let mut i: usize = 0;
        assert(texts(v@) =~= distinct(listed(data.take(0), pick))) by {
            assert(data.take(0) =~= Seq::<Calibration>::empty());
        }
        while i < self.data.len()
            invariant
                i <= self.data@.len(),
                data == self@,
                data == calibrations(self.data@),
                pick == (|c: Calibration|
                    if offers(c, machine@, energy) && c.applicator == applicator@ {
                        c.fda.names
                    } else {
                        Seq::<Seq<char>>::empty()
                    }),
                texts(v@) == distinct(listed(data.take(i as int), pick)),
            decreases self.data@.len() - i,
        {
            proof {
                lemma_listed_step(data, pick, i as int);
                lemma_distinct_append(listed(data.take(i as int), pick), pick(data[i as int]));
            }
            let cd = &self.data[i];
            if text_eq(cd.machine.as_str(), machine) && holds_energy(cd, energy) && text_eq(
                cd.applicator.as_str(),
                applicator,
            ) {
                let names = cd.fda.get_names();
                assert(texts(names@) =~= data[i as int].fda.names);
                push_new_texts(&mut v, names);
            }
            i += 1;
        }
        assert(data.take(i as int) =~= data);
        v
    }

    /// The reference depth for a machine, an applicator and an energy given
    /// as a text.
    pub fn get_zref(&self, machine: &str, applicator: &str, energy: &str) -> (r: Option<Decimal>)
        ensures
            r == zref_of(self@, machine@, applicator@, energy@),
    {
        let ghost data = self@;
        let e = match parse_decimal(energy) {
            Some(e) => e,
            None => {
                return None;
            },
        };
        let mut i: usize = 0;
        while i < self.data.len()
            invariant
                i <= self.data@.len(),
                data == self@,
                data == calibrations(self.data@),
                decimal_of_text(energy@) == Some(e),
                forall|h: int|
                    0 <= h < i ==> !(offers(#[trigger] data[h], machine@, e) && data[h].applicator
                        == applicator@),
            decreases self.data@.len() - i,
        {
            let cd = &self.data[i];
            if text_eq(cd.machine.as_str(), machine) && holds_energy(cd, e) && text_eq(
                cd.applicator.as_str(),
                applicator,
            ) {
                proof {
                    assert(is_first_offer(data, machine@, applicator@, e, i as int));
                    let c = choose|c: int| is_first_offer(data, machine@, applicator@, e, c);
                    if c < i {
                        assert(!(offers(data[c], machine@, e) && data[c].applicator
                            == applicator@));
                    } else if i < c {
                        assert(!(offers(data[i as int], machine@, e) && data[i as int].applicator
                            == applicator@));
                    }
                    assert(c == i);
                    assert(cd@ == data[i as int]);
                    assert(decimal_of_text(energy@) == Some(e));
                }
                let z = cd.get_zref(e);
                assert(z == data[i as int].output_factors.zref(e));
                return z;
            }
            i += 1;
        }
        proof {
            assert forall|c: int| !is_first_offer(data, machine@, applicator@, e, c) by {}
        }
        None
    }

    /// The only entry for a machine and applicator.
    pub fn find(&self, machine: &str, applicator: &str) -> (r: Result<&CorrectionData, EmuError>)
        ensures
            match r {
                Ok(cd) => resolved(self@, machine@, applicator@) is Ok && cd@ == self@[resolved(
                    self@,
                    machine@,
                    applicator@,
                )->Ok_0],
                Err(e) => resolved(self@, machine@, applicator@) == Err::<int, Failure>(e@),
            },
    {
        match resolve(&self.data, machine, applicator) {
            Ok(i) => Ok(&self.data[i]),
            Err(e) => Err(e),
        }
    }
}

/// Whether the data have an energy.
fn holds_energy(cd: &CorrectionData, energy: Decimal) -> (r: bool)
    ensures
        r == cd@.output_factors.energies.contains(energy),
{
    let r = find_decimal(cd.get_energies_as_ref(), energy).is_some();
    proof {
        if r {
            lemma_first_at(cd@.output_factors.energies, energy);
        }
    }
    r
}

impl Default for CorrectionDataSet {
    fn default() -> (r: Self)
        ensures
            r@.len() == 0,
    {
        CorrectionDataSet::new()
    }
}

impl From<Vec<CorrectionData>> for CorrectionDataSet {
    fn from(v: Vec<CorrectionData>) -> (r: Self)
        ensures
            r@ == calibrations(v@),
    {
        CorrectionDataSet { data: v }
    }
}

impl vstd::std_specs::convert::FromSpecImpl<Vec<CorrectionData>> for CorrectionDataSet {
    open spec fn obeys_from_spec() -> bool {
        true
    }

    closed spec fn from_spec(v: Vec<CorrectionData>) -> Self {
        CorrectionDataSet { data: v }
    }
}

impl From<&Vec<CorrectionData>> for CorrectionDataSet {
    fn from(v: &Vec<CorrectionData>) -> (r: Self)
        ensures
            r@ == calibrations(v@),
    {
        let mut data: Vec<CorrectionData> = Vec::new();
        let mut i: usize = 0;
        while i < v.len()
            invariant
                i <= v@.len(),
                data@.len() == i,
                forall|k: int| 0 <= k < i ==> (#[trigger] data@[k])@ == v@[k]@,
            decreases v@.len() - i,
        {
            data.push(v[i].clone());
            i += 1;
        }
        let r = CorrectionDataSet { data };
        assert(r@ =~= calibrations(v@));
        r
    }
}

impl vstd::std_specs::convert::FromSpecImpl<&Vec<CorrectionData>> for CorrectionDataSet {
    open spec fn obeys_from_spec() -> bool {
        false
    }

    closed spec fn from_spec(v: &Vec<CorrectionData>) -> Self {
        CorrectionDataSet { data: *v }
    }
}

/// Loads the calibration data from the files of a directory into a set.
pub fn correction_data_set_load_data(files: &Vec<DataFile>) -> (r: Result<CorrectionDataSet, EmuError>)
    ensures
        match load_model(files@) {
            Ok(data) => r is Ok && r->Ok_0@ == data,
            Err(f) => r is Err && is_load_failure(r->Err_0, f),
        },
{
    match load_data(files) {
        Ok(v) => Ok(CorrectionDataSet::from_data(v)),
        Err(e) => Err(e),
    }
}

/// What is listed of all entries is what is listed of one of them.
pub proof fn lemma_listed_contains<T>(
    data: Seq<Calibration>,
    pick: spec_fn(Calibration) -> Seq<T>,
    x: T,
)
    ensures
        listed(data, pick).contains(x) <==> exists|i: int|
            0 <= i < data.len() && pick(#[trigger] data[i]).contains(x),
    decreases data.len(),
{
    if data.len() > 0 {
        let before = data.drop_last();
        lemma_listed_contains(before, pick, x);
        let a = listed(before, pick);
        let b = pick(data.last());
        if listed(data, pick).contains(x) {
            let k = choose|k: int| 0 <= k < (a + b).len() && (a + b)[k] == x;
            if k < a.len() {
                assert(a[k] == x);
                assert(a.contains(x));
                let i = choose|i: int| 0 <= i < before.len() && pick(#[trigger] before[i]).contains(x);
                assert(data[i] == before[i]);
            } else {
                assert(b[k - a.len()] == x);
                assert(pick(data[data.len() - 1]).contains(x));
            }
        }
        if exists|i: int| 0 <= i < data.len() && pick(#[trigger] data[i]).contains(x) {
            let i = choose|i: int| 0 <= i < data.len() && pick(#[trigger] data[i]).contains(x);
            if i < before.len() {
                assert(before[i] == data[i]);
                assert(a.contains(x));
                let k = choose|k: int| 0 <= k < a.len() && a[k] == x;
                assert((a + b)[k] == x);
            } else {
                let k = choose|k: int| 0 <= k < b.len() && b[k] == x;
                assert((a + b)[a.len() + k] == x);
            }
        }
    }
}

/// No list that is made of the data holds anything twice.
pub proof fn law_lists_hold_nothing_twice(
    data: Seq<Calibration>,
    machine: Seq<char>,
    energy: Decimal,
    applicator: Seq<char>,
)
    ensures
        machines_of(data).no_duplicates(),
        energies_of(data, machine).no_duplicates(),
        applicators_of(data, machine, energy).no_duplicates(),
        applicators_on(data, machine).no_duplicates(),
        fitments_of(data, machine, energy, applicator).no_duplicates(),
{
    lemma_distinct(listed(data, |c: Calibration| seq![c.machine]));
    lemma_distinct(
        listed(
            data,
            |c: Calibration|
                if c.machine == machine {
                    c.output_factors.energies
                } else {
                    Seq::empty()
                },
        ),
    );
    lemma_distinct(
        listed(
            data,
            |c: Calibration|
                if offers(c, machine, energy) {
                    seq![c.applicator]
                } else {
                    Seq::empty()
                },
        ),
    );
    lemma_distinct(
        listed(
            data,
            |c: Calibration|
                if c.machine == machine {
                    seq![c.applicator]
                } else {
                    Seq::empty()
                },
        ),
    );
    lemma_distinct(
        listed(
            data,
            |c: Calibration|
                if offers(c, machine, energy) && c.applicator == applicator {
                    c.fda.names
                } else {
                    Seq::empty()
                },
        ),
    );
}

/// The lists hold what the data hold and nothing else: a machine is listed
/// where an entry is for it, an energy where an entry for the machine has
/// it, an applicator where an entry for it offers the energy on the
/// machine.
pub proof fn law_lists_hold_what_the_data_hold(
    data: Seq<Calibration>,
    machine: Seq<char>,
    energy: Decimal,
    applicator: Seq<char>,
)
    ensures
        machines_of(data).contains(machine) <==> exists|i: int|
            0 <= i < data.len() && (#[trigger] data[i]).machine == machine,
        energies_of(data, machine).contains(energy) <==> exists|i: int|
            0 <= i < data.len() && offers(#[trigger] data[i], machine, energy),
        applicators_of(data, machine, energy).contains(applicator) <==> exists|i: int|
            0 <= i < data.len() && offers(#[trigger] data[i], machine, energy) && data[i].applicator
                == applicator,
{
    let pick_m = |c: Calibration| seq![c.machine];
    lemma_distinct(listed(data, pick_m));
    lemma_listed_contains(data, pick_m, machine);
    assert forall|i: int| 0 <= i < data.len() implies (pick_m(#[trigger] data[i]).contains(machine)
        <==> data[i].machine == machine) by {
        let one = seq![data[i].machine];
        assert(one[0] == data[i].machine);
    }
    let pick_e = |c: Calibration|
        if c.machine == machine {
            c.output_factors.energies
        } else {
            Seq::empty()
        };
    lemma_distinct(listed(data, pick_e));
    lemma_listed_contains(data, pick_e, energy);
    assert forall|i: int| 0 <= i < data.len() implies (pick_e(#[trigger] data[i]).contains(energy)
        <==> offers(data[i], machine, energy)) by {}
    let pick_a = |c: Calibration|
        if offers(c, machine, energy) {
            seq![c.applicator]
        } else {
            Seq::empty()
        };
    lemma_distinct(listed(data, pick_a));
    lemma_listed_contains(data, pick_a, applicator);
    assert forall|i: int| 0 <= i < data.len() implies (pick_a(#[trigger] data[i]).contains(
        applicator,
    ) <==> offers(data[i], machine, energy) && data[i].applicator == applicator) by {
        let one = seq![data[i].applicator];
        assert(one[0] == data[i].applicator);
    }
}

} // verus!

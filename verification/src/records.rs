//! The rows of a calibration file, and what its cells have to hold.

use crate::decimal::Decimal;
use crate::errors::{EmuError, Failure};
use crate::text::{
    decimal_of_text, digits_text, parse_decimal, push_number, text_eq, texts,
};
use vstd::prelude::*;
use vstd::string::StringExecFns;

verus! {

/// `csv::Error`, the failure of the `csv` reader.  Nothing is known of what
/// it holds; it is only handed on.
#[verifier::external_type_specification]
#[verifier::external_body]
pub struct ExCsvError(csv::Error);

/// The records that the `csv` reader finds in a text, each with its fields
/// as texts, when it reads without a header row and takes records of any
/// length; nothing where the reader fails on the text.
pub uninterp spec fn csv_records(data: Seq<u8>) -> Option<Seq<Seq<Seq<char>>>>;

/// The cells of all rows as texts.
pub open spec fn table_texts(rows: Seq<Vec<String>>) -> Seq<Seq<Seq<char>>> {
    Seq::new(rows.len(), |i: int| texts(rows[i]@))
}

/// Calls `csv::ReaderBuilder` (`new`, `has_headers(false)`, `flexible(true)`,
/// `from_reader`) on the text and collects what `Reader::records` yields.
/// The result is `Ok` with all records, each field copied out as a `String`,
/// exactly where the reader reads the whole text without an error, and the
/// reader's first error otherwise.  The same text gives the same records.
#[verifier::external_body]
fn read_records(data: &[u8]) -> (r: Result<Vec<Vec<String>>, csv::Error>)
    ensures
        match r {
            Ok(rows) => csv_records(data@) == Some(table_texts(rows@)),
            Err(_) => csv_records(data@) is None,
        },
{
    let mut reader = csv::ReaderBuilder::new().has_headers(false).flexible(true).from_reader(data);
    let mut rows = Vec::new();
    for record in reader.records() {
        rows.push(record?.iter().map(|cell| cell.to_string()).collect());
    }
    Ok(rows)
}

/// Calls `to_string` on a `csv::Error`, that is its `Display`.  Nothing is
/// claimed of the text.
#[verifier::external_body]
fn csv_error_text(error: &csv::Error) -> (r: String) {
    error.to_string()
}

/// Splits the text of a calibration file into rows of cells.  Where the
/// text cannot be read as comma-separated values the failure is an
/// input/output error that carries the reader's words.
pub fn parse_records(data: &[u8]) -> (r: Result<Vec<Vec<String>>, EmuError>)
    ensures
        match r {
            Ok(rows) => csv_records(data@) == Some(table_texts(rows@)),
            Err(e) => csv_records(data@) is None && e is IO,
        },
{
    match read_records(data) {
        Ok(rows) => Ok(rows),
        Err(e) => Err(EmuError::IO(csv_error_text(&e))),
    }
}

/// The rows that have cells, in their order.
pub open spec fn filled(rows: Seq<Seq<Seq<char>>>) -> Seq<Seq<Seq<char>>> {
    rows.filter(|r: Seq<Seq<char>>| r.len() > 0)
}

/// The words for a cell that does not hold what it should.
pub open spec fn expected_text(what: Seq<char>, row: nat, column: nat) -> Seq<char> {
    "Expected "@ + what + " on row "@ + digits_text(row) + ", column "@ + digits_text(column)
}

/// The words for a row that is not as wide as the first one.
pub open spec fn width_text(expected: nat, row: nat, found: nat) -> Seq<char> {
    "Expected "@ + digits_text(expected) + " columns on row "@ + digits_text(row) + ", found "@
        + digits_text(found)
}

/// The failure for a cell that does not hold what it should.
pub(crate) fn expected_at(what: &str, row: usize, column: usize) -> (e: EmuError)
    ensures
        e@ == Failure::Format(expected_text(what@, row as nat, column as nat)),
{
    let mut m = String::from_str("Expected ");
    m.append(what);
    m.append(" on row ");
    push_number(&mut m, row as u64);
    m.append(", column ");
    push_number(&mut m, column as u64);
    EmuError::Format(m)
}

/// The failure for a row that is not as wide as the first one.
pub(crate) fn width_mismatch(expected: usize, row: usize, found: usize) -> (e: EmuError)
    ensures
        e@ == Failure::Format(width_text(expected as nat, row as nat, found as nat)),
{
    let mut m = String::from_str("Expected ");
    push_number(&mut m, expected as u64);
    m.append(" columns on row ");
    push_number(&mut m, row as u64);
    m.append(", found ");
    push_number(&mut m, found as u64);
    EmuError::Format(m)
}

/// `j` is the first cell from `from` on that holds no number.
pub open spec fn is_first_bad_number(row: Seq<Seq<char>>, from: int, j: int) -> bool {
    &&& from <= j < row.len()
    &&& decimal_of_text(row[j]) is None
    &&& forall|i: int| from <= i < j ==> decimal_of_text(#[trigger] row[i]) is Some
}

/// Every cell from `from` on holds a number.
pub open spec fn all_numbers(row: Seq<Seq<char>>, from: int) -> bool {
    forall|i: int| from <= i < row.len() ==> decimal_of_text(#[trigger] row[i]) is Some
}

/// The numbers in the cells from `from` on.
pub open spec fn numbers(row: Seq<Seq<char>>, from: int) -> Seq<Decimal> {
    Seq::new((row.len() - from) as nat, |i: int| decimal_of_text(row[from + i])->Some_0)
}

/// The first cell from `from` on that holds no number.
pub open spec fn first_bad_number(row: Seq<Seq<char>>, from: int) -> int {
    choose|j: int| is_first_bad_number(row, from, j)
}

/// What the numbers of row `k` fail with: the first cell from `from` on
/// that holds none is named.
pub open spec fn numbers_failure(row: Seq<Seq<char>>, k: int, from: int) -> Option<Failure> {
    if all_numbers(row, from) {
        None
    } else {
        Some(
            Failure::Format(
                expected_text("a number"@, k as nat, first_bad_number(row, from) as nat),
            ),
        )
    }
}

/// What a row fails with that is not as wide as the first row.
pub open spec fn width_failure(before: Seq<Seq<Seq<char>>>, row: Seq<Seq<char>>) -> Option<
    Failure,
> {
    if before.len() > 0 && row.len() != before[0].len() {
        Some(Failure::Format(width_text(before[0].len(), before.len(), row.len())))
    } else {
        None
    }
}

/// What the second row fails with: it has to hold the label `Applicator`
/// and, behind it, the applicator.
pub open spec fn applicator_row_failure(row: Seq<Seq<char>>) -> Option<Failure> {
    if row[0] != "Applicator"@ {
        Some(Failure::Format(expected_text("the label 'Applicator'"@, 1, 0)))
    } else if row.len() < 2 {
        Some(Failure::Format(expected_text("the applicator"@, 1, 1)))
    } else {
        None
    }
}

/// What a file fails with that ends before its third row.
pub open spec fn missing_row(n: int) -> Failure {
    if n == 0 {
        Failure::Format(expected_text("the machine"@, 0, 0))
    } else if n == 1 {
        Failure::Format(expected_text("the label 'Applicator'"@, 1, 0))
    } else {
        Failure::Format(expected_text("the energies"@, 2, 2))
    }
}

/// The failure of a file that ends before its third row.
pub(crate) fn missing_row_error(n: usize) -> (e: EmuError)
    requires
        n < 3,
    ensures
        e@ == missing_row(n as int),
{
    if n == 0 {
        expected_at("the machine", 0, 0)
    } else if n == 1 {
        expected_at("the label 'Applicator'", 1, 0)
    } else {
        expected_at("the energies", 2, 2)
    }
}

/// Checks the second row of a calibration file.
pub(crate) fn check_applicator_row(row: &Vec<String>) -> (r: Result<(), EmuError>)
    requires
        row@.len() > 0,
    ensures
        match r {
            Ok(()) => applicator_row_failure(texts(row@)) is None,
            Err(e) => Some(e@) == applicator_row_failure(texts(row@)),
        },
{
    if !text_eq(row[0].as_str(), "Applicator") {
        return Err(expected_at("the label 'Applicator'", 1, 0));
    }
    if row.len() < 2 {
        return Err(expected_at("the applicator", 1, 1));
    }
    Ok(())
}

/// The rows with cells among the first `i` rows open the rows with cells
/// among all of them.
pub proof fn lemma_filled_prefix(rows: Seq<Seq<Seq<char>>>, i: int)
    requires
        0 <= i <= rows.len(),
    ensures
        filled(rows.take(i)).len() <= filled(rows).len(),
        filled(rows.take(i)) == filled(rows).take(filled(rows.take(i)).len() as int),
    decreases rows.len() - i,
{
    if i == rows.len() {
        assert(rows.take(i) =~= rows);
        assert(filled(rows).take(filled(rows).len() as int) =~= filled(rows));
    } else {
        lemma_filled_prefix(rows, i + 1);
        lemma_filled_step(rows, i);
        let a = filled(rows.take(i));
        let b = filled(rows.take(i + 1));
        let f = filled(rows);
        assert(a =~= f.take(a.len() as int)) by {
            assert(b == f.take(b.len() as int));
            assert forall|j: int| 0 <= j < a.len() implies a[j] == f[j] by {
                assert(a[j] == b[j]);
                assert(b[j] == f.take(b.len() as int)[j]);
            }
        }
    }
}

/// One more row adds itself to the rows with cells if it has cells.
pub proof fn lemma_filled_step(rows: Seq<Seq<Seq<char>>>, i: int)
    requires
        0 <= i < rows.len(),
    ensures
        filled(rows.take(i + 1)) == (if rows[i].len() > 0 {
            filled(rows.take(i)).push(rows[i])
        } else {
            filled(rows.take(i))
        }),
{
    let t = rows.take(i + 1);
    assert(t.drop_last() =~= rows.take(i));
    assert(t.last() == rows[i]);
    reveal_with_fuel(Seq::filter, 1);
}

/// Reads the numbers in the cells of row `k` from `from` on.  The first
/// cell that holds none is named in the failure.
pub(crate) fn read_numbers(row: &Vec<String>, k: usize, from: usize) -> (r: Result<Vec<Decimal>, EmuError>)
    requires
        from <= row@.len(),
    ensures
        match r {
            Ok(v) => all_numbers(texts(row@), from as int) && v@ == numbers(
                texts(row@),
                from as int,
            ),
            Err(e) => Some(e@) == numbers_failure(texts(row@), k as int, from as int),
        },
{
    let ghost cells = texts(row@);
    let mut v: Vec<Decimal> = Vec::new();
    let mut j: usize = from;
    while j < row.len()
        invariant
            from <= j <= row@.len(),
            cells == texts(row@),
            v@.len() == j - from,
            forall|i: int| from <= i < j ==> decimal_of_text(#[trigger] cells[i]) is Some,
            forall|i: int| 0 <= i < j - from ==> v@[i] == decimal_of_text(cells[from + i])->Some_0,
        decreases row@.len() - j,
    {
        match parse_decimal(row[j].as_str()) {
            Some(d) => {
                v.push(d);
            },
            None => {
                assert(is_first_bad_number(cells, from as int, j as int));
                assert(first_bad_number(cells, from as int) == j) by {
                    let c = first_bad_number(cells, from as int);
                    if c < j {
                        assert(decimal_of_text(cells[c]) is Some);
                    } else if j < c {
                        assert(decimal_of_text(cells[j as int]) is Some);
                    }
                }
                return Err(expected_at("a number", k, j));
            },
        }
        j += 1;
    }
    assert(v@ =~= numbers(cells, from as int));
    Ok(v)
}

} // verus!

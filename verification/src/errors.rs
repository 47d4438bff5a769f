//! The ways in which loading calibration data or a lookup can fail.

use crate::decimal::Decimal;
use vstd::prelude::*;

verus! {

/// Every failure that the library reports.  The lookups fail with one of the
/// "not found" kinds, which a caller can answer by asking again; the kinds
/// that describe malformed or inconsistent calibration data end a load.
#[derive(Debug, Clone, PartialEq, Eq)]
pub enum EmuError {
    /// No calibration data for this machine.
    MachineNotFound(String),
    /// The energy is not a column of the table.
    EnergyNotFound(Decimal),
    /// The source-to-skin distance lies outside the calibrated range.
    SSDNotFound(Decimal),
    /// No aperture with this id.
    FdaIDNotFound(usize),
    /// No calibration data for this applicator.
    ApplicatorNotFound(String),
    /// No output-factor table.
    OFTableNotFound,
    /// No calibration data for this machine and applicator.
    CorrectionDataNotFound(String, String),
    /// More than one set of calibration data for this machine and applicator.
    AmbiguousMatch(String, String),
    /// A row does not have one value per energy.
    ShapeMismatch { expected: usize, found: usize },
    /// An aperture with this id is already in the table.
    DuplicateId(usize),
    /// The numbers of output-factor files and of aperture files differ.
    CountMismatch { of_files: usize, fda_files: usize },
    /// The output factors of this machine and applicator have no aperture
    /// table with the same energies.
    TableMismatch(String, String),
    /// The calibration files gave no usable pair of tables.
    EmptyResult,
    /// The correction factor is zero, so that no monitor units follow from it.
    ZeroCorrectionFactor,
    /// The result is too large for a decimal to hold.
    OutOfRange,
    /// The terminal failed.
    Terminal(String),
    /// The data contradict each other.
    Logic(String),
    /// Any other failure, in words.
    Str(String),
    /// A calibration file is malformed.
    Format(String),
    /// The directory does not exist.
    DirNotFound(String),
    /// Reading failed.
    IO(String),
}

/// What a failure says, with every text as the characters it holds.
pub enum Failure {
    MachineNotFound(Seq<char>),
    EnergyNotFound(Decimal),
    SSDNotFound(Decimal),
    FdaIDNotFound(usize),
    ApplicatorNotFound(Seq<char>),
    OFTableNotFound,
    CorrectionDataNotFound(Seq<char>, Seq<char>),
    AmbiguousMatch(Seq<char>, Seq<char>),
    ShapeMismatch { expected: usize, found: usize },
    DuplicateId(usize),
    CountMismatch { of_files: usize, fda_files: usize },
    TableMismatch(Seq<char>, Seq<char>),
    EmptyResult,
    ZeroCorrectionFactor,
    OutOfRange,
    Terminal(Seq<char>),
    Logic(Seq<char>),
    Str(Seq<char>),
    Format(Seq<char>),
    DirNotFound(Seq<char>),
    IO(Seq<char>),
}

impl View for EmuError {
    type V = Failure;

    open spec fn view(&self) -> Failure {
        match *self {
            EmuError::MachineNotFound(s) => Failure::MachineNotFound(s@),
            EmuError::EnergyNotFound(d) => Failure::EnergyNotFound(d),
            EmuError::SSDNotFound(d) => Failure::SSDNotFound(d),
            EmuError::FdaIDNotFound(i) => Failure::FdaIDNotFound(i),
            EmuError::ApplicatorNotFound(s) => Failure::ApplicatorNotFound(s@),
            EmuError::OFTableNotFound => Failure::OFTableNotFound,
            EmuError::CorrectionDataNotFound(m, a) => Failure::CorrectionDataNotFound(m@, a@),
            EmuError::AmbiguousMatch(m, a) => Failure::AmbiguousMatch(m@, a@),
            EmuError::ShapeMismatch { expected, found } => Failure::ShapeMismatch {
                expected,
                found,
            },
            EmuError::DuplicateId(i) => Failure::DuplicateId(i),
            EmuError::CountMismatch { of_files, fda_files } => Failure::CountMismatch {
                of_files,
                fda_files,
            },
            EmuError::TableMismatch(m, a) => Failure::TableMismatch(m@, a@),
            EmuError::EmptyResult => Failure::EmptyResult,
            EmuError::ZeroCorrectionFactor => Failure::ZeroCorrectionFactor,
            EmuError::OutOfRange => Failure::OutOfRange,
            EmuError::Terminal(s) => Failure::Terminal(s@),
            EmuError::Logic(s) => Failure::Logic(s@),
            EmuError::Str(s) => Failure::Str(s@),
            EmuError::Format(s) => Failure::Format(s@),
            EmuError::DirNotFound(s) => Failure::DirNotFound(s@),
            EmuError::IO(s) => Failure::IO(s@),
        }
    }
}

} // verus!

//! Independent verification of radiotherapy electron-beam monitor units.
//!
//! Calibration tables hold output factors per energy and source-to-skin
//! distance ([`OFTable`]), and aperture corrections per energy and aperture
//! id ([`FdaTable`]).  A [`CorrectionData`] pairs the two tables of one
//! machine and applicator; its correction factor is the product of an
//! interpolated output factor and an aperture correction, and the monitor
//! units of a check are the reference dose divided by that factor.
//!
//! Every quantity is an exact decimal number ([`Decimal`]) that counts in
//! billionths, and every result is rounded down to a billionth.  A lookup,
//! an interpolation and the resulting monitor units are therefore the same
//! on every machine, and what each function returns is stated as integer
//! arithmetic and proved.
//!
//! A number is read from a text as a decimal: digits, as many as there may
//! be, with a point before, among or behind them and with a sign or without
//! one.  Digits beyond a billionth are rounded down like every result, and a
//! number that an `i64` of billionths cannot hold is refused.  Numbers
//! written with an exponent are refused too, as are the words for infinity
//! and for no number.
//!
//! The library reads no files and asks no questions.  Calibration files come
//! as bytes ([`read_of_table`], [`read_fda_table`], [`load_data`]); the
//! questions that a calculation still needs answered come as values
//! ([`get_calc_param_input_cli`]), and the answers go back the same way
//! ([`answer`]).

pub mod calc_param;
pub mod correction_data;
pub mod correction_data_set;
pub mod decimal;
pub mod dialogue;
pub mod errors;
pub mod fda_table;
pub mod ipol;
pub mod loader;
pub mod mu;
pub mod of_table;
pub mod records;
pub mod search;
pub mod text;

pub use calc_param::{CalcParam, NO_FDA_ID};
pub use correction_data::CorrectionData;
pub use correction_data_set::{correction_data_set_load_data, resolve, CorrectionDataSet};
pub use decimal::Decimal;
pub use dialogue::{
    answer, calc_mu, get_calc_param_input_cli, load_data_calc_mu, Answer, Dialogue, Question,
    Stage, Step,
};
pub use errors::EmuError;
pub use fda_table::{fda_table_from_records, read_fda_table, FdaTable};
pub use ipol::interpolate_linear;
pub use loader::{
    check_file_counts, data_file_kind, load_data, pair_tables, DataFile, DataFileKind,
};
pub use mu::{calculate_mu, compare_with_plan, compute_mu, Computed};
pub use of_table::{of_table_from_records, read_of_table, OFTable};
pub use text::{parse_decimal, parse_index};

use emu_check::{
    fda_table_from_records, of_table_from_records, read_fda_table, read_of_table, Decimal,
    EmuError,
};

fn dec(x: f64) -> Decimal {
    Decimal::from_units((x * 1e9).round() as i64)
}

fn decs(xs: &[f64]) -> Vec<Decimal> {
    xs.iter().map(|x| dec(*x)).collect()
}

fn rows(lines: &[&[&str]]) -> Vec<Vec<String>> {
    lines
        .iter()
        .map(|l| l.iter().map(|c| c.to_string()).collect())
        .collect()
}

fn format(message: &str) -> EmuError {
    EmuError::Format(message.to_string())
}

const OF_TEXT: &str = "\
Synergy2,,,,,,
Applicator,6x6,,,,,
Dimensions,id,4,6,8,10,12
95,,0.865,0.953,0.994,1.006,1.037
95.5,,0.856,0.945,0.986,0.995,1.026
99,,0.764,0.846,0.892,0.906,0.926
100,,0.736,0.818,0.865,0.88,0.899
";

const FDA_TEXT: &str = "\
Synergy2,,,,,,
Applicator,6x6,,,,,
Dimensions,id,4,6,8,10,12
6x6,1,0.9,0.8,0.7,0.6,0.5
4x6,3,1.9,1.8,1.7,1.6,1.5
4x4,10,2.9,2.8,2.7,2.6,2.5
";

#[test]
fn output_factor_file_is_read() {
    let (machine, applicator, table) = read_of_table(OF_TEXT.as_bytes()).unwrap();
    assert_eq!(machine, "Synergy2");
    assert_eq!(applicator, "6x6");
    assert_eq!(table.get_energies(), &decs(&[4.0, 6.0, 8.0, 10.0, 12.0]));
    assert_eq!(table.get_ssds(), &decs(&[95.0, 95.5, 99.0, 100.0]));
    assert!(table.get_zrefs().is_empty());
    assert_eq!(table.get_cf(dec(12.0), dec(99.2)), Ok(dec(0.9206)));
    assert_eq!(table.get_cf(dec(4.0), dec(95.0)), Ok(dec(0.865)));
    assert_eq!(table.get_zref(dec(4.0)), None);
}

#[test]
fn aperture_file_is_read() {
    let (machine, applicator, table) = read_fda_table(FDA_TEXT.as_bytes()).unwrap();
    assert_eq!(machine, "Synergy2");
    assert_eq!(applicator, "6x6");
    assert_eq!(table.get_energies(), &decs(&[4.0, 6.0, 8.0, 10.0, 12.0]));
    assert_eq!(table.get_ids(), &vec![1, 3, 10]);
    assert_eq!(table.get_names(), &vec!["6x6", "4x6", "4x4"]);
    assert_eq!(table.get_cf(dec(12.0), 10), Ok(dec(2.5)));
    assert_eq!(table.get_cf(dec(6.0), 3), Ok(dec(1.8)));
}

#[test]
fn quoted_cells_and_blank_lines() {
    let text = "\"Synergy, room 2\",,,\n\nApplicator,\"6x6\",,\r\nDimensions,id,4,6\n\n\"4 x 4\",10,\"2.9\",2.8\n";
    let (machine, applicator, table) = read_fda_table(text.as_bytes()).unwrap();
    assert_eq!(machine, "Synergy, room 2");
    assert_eq!(applicator, "6x6");
    assert_eq!(table.get_names(), &vec!["4 x 4"]);
    assert_eq!(table.get_cf(dec(4.0), 10), Ok(dec(2.9)));
    assert_eq!(table.get_cf(dec(6.0), 10), Ok(dec(2.8)));
}

#[test]
fn text_that_is_no_utf8_is_an_io_error() {
    let mut data = OF_TEXT.as_bytes().to_vec();
    data[0] = 0xff;
    assert!(matches!(read_of_table(&data), Err(EmuError::IO(_))));
    assert!(matches!(read_fda_table(&data), Err(EmuError::IO(_))));
}

#[test]
fn rows_of_unequal_width() {
    let text = "Synergy2,,,\nApplicator,6x6,,\nDimensions,id,4,6\n95,,0.8\n";
    assert_eq!(
        read_of_table(text.as_bytes()).err(),
        Some(format("Expected 4 columns on row 3, found 3"))
    );
    assert_eq!(
        read_fda_table(text.as_bytes()).err(),
        Some(format("Expected 4 columns on row 3, found 3"))
    );
    let text = "Synergy2,,,\nApplicator,6x6\n";
    assert_eq!(
        read_of_table(text.as_bytes()).err(),
        Some(format("Expected 4 columns on row 1, found 2"))
    );
}

#[test]
fn missing_and_wrong_labels() {
    let text = "Synergy2,,,\nApplikator,6x6,,\nDimensions,id,4,6\n";
    let expected = format("Expected the label 'Applicator' on row 1, column 0");
    assert_eq!(read_of_table(text.as_bytes()).err(), Some(expected.clone()));
    assert_eq!(read_fda_table(text.as_bytes()).err(), Some(expected));

    let text = "Synergy2,,,\nApplicator,6x6,,\nDimension,id,4,6\n";
    assert_eq!(
        read_fda_table(text.as_bytes()).err(),
        Some(format("Expected the label 'Dimensions' on row 2, column 0"))
    );
    let text = "Synergy2,,,\nApplicator,6x6,,\nDimensions,ID,4,6\n";
    assert_eq!(
        read_fda_table(text.as_bytes()).err(),
        Some(format("Expected the label 'id' on row 2, column 1"))
    );
    // the two cells before the energies of an output-factor file are not read
    let text = "Synergy2,,,\nApplicator,6x6,,\nx,y,4,6\n95,,1,2\n";
    assert!(read_of_table(text.as_bytes()).is_ok());

    let text = "Synergy2\nApplicator\n";
    assert_eq!(
        read_of_table(text.as_bytes()).err(),
        Some(format("Expected the applicator on row 1, column 1"))
    );
}

#[test]
fn files_that_end_too_early() {
    assert_eq!(
        read_of_table(b"").err(),
        Some(format("Expected the machine on row 0, column 0"))
    );
    assert_eq!(
        read_fda_table(b"Synergy2,,\n").err(),
        Some(format("Expected the label 'Applicator' on row 1, column 0"))
    );
    assert_eq!(
        read_fda_table(b"Synergy2,,\nApplicator,6x6,\n").err(),
        Some(format("Expected the energies on row 2, column 2"))
    );
    let (machine, applicator, table) =
        read_fda_table(b"Synergy2,,\nApplicator,6x6,\nDimensions,id,4\n").unwrap();
    assert_eq!(machine, "Synergy2");
    assert_eq!(applicator, "6x6");
    assert_eq!(table.get_energies(), &decs(&[4.0]));
    assert!(table.get_ids().is_empty());
}

#[test]
fn cells_that_hold_no_number() {
    let text = "Synergy2,,,\nApplicator,6x6,,\nDimensions,id,4,six\n";
    let expected = format("Expected a number on row 2, column 3");
    assert_eq!(read_of_table(text.as_bytes()).err(), Some(expected.clone()));
    assert_eq!(read_fda_table(text.as_bytes()).err(), Some(expected));

    let text = "Synergy2,,,\nApplicator,6x6,,\nDimensions,id,4,6\n95,,0.8,0.9\n96,,x,y\n";
    assert_eq!(
        read_of_table(text.as_bytes()).err(),
        Some(format("Expected a number on row 4, column 2"))
    );
    let text = "Synergy2,,,\nApplicator,6x6,,\nDimensions,id,4,6\nnear,,0.8,0.9\n";
    assert_eq!(
        read_of_table(text.as_bytes()).err(),
        Some(format("Expected a distance on row 3, column 0"))
    );
    let text = "Synergy2,,,\nApplicator,6x6,,\nDimensions,id,4,6\n4x4,ten,0.8,0.9\n";
    assert_eq!(
        read_fda_table(text.as_bytes()).err(),
        Some(format("Expected an aperture id on row 3, column 1"))
    );
    let text = "Synergy2,,,\nApplicator,6x6,,\nDimensions,id,4,6\n4x4,10,0.8,\n";
    assert_eq!(
        read_fda_table(text.as_bytes()).err(),
        Some(format("Expected a number on row 3, column 3"))
    );
}

#[test]
fn the_first_row_that_fails_decides() {
    let text = "Synergy2,,,\nApplicator,6x6,,\nDimensions,id,4,6\n4x4,x,0.8,0.9\n4x6,3,1\n";
    assert_eq!(
        read_fda_table(text.as_bytes()).err(),
        Some(format("Expected an aperture id on row 3, column 1"))
    );
}

#[test]
fn aperture_id_twice_in_a_file() {
    let text = "Synergy2,,,\nApplicator,6x6,,\nDimensions,id,4,6\n4x4,10,0.8,0.9\n4x6,10,1,1\n";
    assert_eq!(
        read_fda_table(text.as_bytes()).err(),
        Some(EmuError::DuplicateId(10))
    );
}

#[test]
fn rows_given_directly() {
    let r = rows(&[
        &["Synergy2", "", "", ""],
        &[],
        &["Applicator", "10x10", "", ""],
        &["Dimensions", "id", "6", "12"],
        &[],
        &["95", "", "0.953", "1.037"],
    ]);
    let (machine, applicator, table) = of_table_from_records(&r).unwrap();
    assert_eq!(machine, "Synergy2");
    assert_eq!(applicator, "10x10");
    assert_eq!(table.get_cf(dec(12.0), dec(95.0)), Ok(dec(1.037)));

    let r = rows(&[
        &["Synergy2", "", "", ""],
        &["Applicator", "10x10", "", ""],
        &["Dimensions", "id", "6", "12"],
        &["10x10", "9", "1", "0.98"],
    ]);
    let (_, _, table) = fda_table_from_records(&r).unwrap();
    assert_eq!(table.get_cf(dec(12.0), 9), Ok(dec(0.98)));
    assert_eq!(
        fda_table_from_records(&rows(&[&[], &[]])).err(),
        Some(format("Expected the machine on row 0, column 0"))
    );
}

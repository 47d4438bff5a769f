use emu_check::{Decimal, EmuError, FdaTable};

fn dec(x: f64) -> Decimal {
    Decimal::from_units((x * 1e9).round() as i64)
}

fn decs(xs: &[f64]) -> Vec<Decimal> {
    xs.iter().map(|x| dec(*x)).collect()
}

fn num(d: Decimal) -> f64 {
    d.units() as f64 / 1e9
}

fn build_fda_table() -> FdaTable {
    let mut fda_table = FdaTable::new();
    fda_table.set_energies(decs(&[4.0, 6.0, 8.0, 10.0, 12.0]));
    assert!(fda_table
        .add("6x6", 1, decs(&[0.9, 0.8, 0.7, 0.6, 0.5]))
        .is_ok());
    assert!(fda_table
        .add("4x6", 3, decs(&[1.9, 1.8, 1.7, 1.6, 1.5]))
        .is_ok());
    assert!(fda_table
        .add("4x4", 10, decs(&[2.9, 2.8, 2.7, 2.6, 2.5]))
        .is_ok());
    fda_table
}

#[test]
fn fda_table_get_cf() {
    let fda_table = build_fda_table();
    assert_eq!(num(fda_table.get_cf(dec(6.0), 1).unwrap()), 0.8);
    assert_eq!(num(fda_table.get_cf(dec(6.0), 3).unwrap()), 1.8);
    assert_eq!(num(fda_table.get_cf(dec(6.0), 10).unwrap()), 2.8);

    assert_eq!(num(fda_table.get_cf(dec(8.0), 1).unwrap()), 0.7);
    assert_eq!(num(fda_table.get_cf(dec(8.0), 3).unwrap()), 1.7);
    assert_eq!(num(fda_table.get_cf(dec(8.0), 10).unwrap()), 2.7);
}

#[test]
fn fda_table_unknown_energy_and_id() {
    let fda_table = build_fda_table();
    assert_eq!(
        fda_table.get_cf(dec(7.0), 1),
        Err(EmuError::EnergyNotFound(dec(7.0)))
    );
    assert_eq!(fda_table.get_cf(dec(6.0), 2), Err(EmuError::FdaIDNotFound(2)));
    // the energy is looked for first
    assert_eq!(
        fda_table.get_cf(dec(7.0), 2),
        Err(EmuError::EnergyNotFound(dec(7.0)))
    );
}

#[test]
fn fda_table_refuses_a_row_of_another_width() {
    let mut fda_table = build_fda_table();
    assert_eq!(
        fda_table.add("3x3", 11, decs(&[1.0, 1.0])),
        Err(EmuError::ShapeMismatch {
            expected: 5,
            found: 2
        })
    );
    assert_eq!(fda_table.get_ids(), &vec![1, 3, 10]);
    assert_eq!(fda_table.get_cf(dec(4.0), 11), Err(EmuError::FdaIDNotFound(11)));
}

#[test]
fn fda_table_refuses_an_id_twice() {
    let mut fda_table = build_fda_table();
    assert_eq!(
        fda_table.add("again", 3, decs(&[1.0, 1.0, 1.0, 1.0, 1.0])),
        Err(EmuError::DuplicateId(3))
    );
    assert_eq!(fda_table.get_names().len(), 3);
    assert_eq!(num(fda_table.get_cf(dec(4.0), 3).unwrap()), 1.9);
}

#[test]
fn fda_table_reads_back_what_was_added() {
    let mut fda_table = build_fda_table();
    let row = [3.9, 3.8, 3.7, 3.6, 3.5];
    assert!(fda_table.add("2x2", 12, decs(&row)).is_ok());
    for (i, e) in [4.0, 6.0, 8.0, 10.0, 12.0].iter().enumerate() {
        assert_eq!(fda_table.get_cf(dec(*e), 12), Ok(dec(row[i])));
    }
    assert_eq!(fda_table.get_cf(dec(4.0), 1), Ok(dec(0.9)));
    let copy = fda_table.clone();
    assert_eq!(copy.get_cf(dec(12.0), 12), Ok(dec(3.5)));
    assert_eq!(copy.get_names()[3], "2x2");
}

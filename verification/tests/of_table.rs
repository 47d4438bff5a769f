use emu_check::{Decimal, EmuError, OFTable};

fn dec(x: f64) -> Decimal {
    Decimal::from_units((x * 1e9).round() as i64)
}

fn decs(xs: &[f64]) -> Vec<Decimal> {
    xs.iter().map(|x| dec(*x)).collect()
}

fn num(d: Decimal) -> f64 {
    d.units() as f64 / 1e9
}

fn build_of_table() -> OFTable {
    let mut table = OFTable::new();
    table.set_energies(decs(&[4.0, 6.0, 8.0, 10.0, 12.0]));
    table.set_zrefs(decs(&[0.89, 1.36, 1.81, 2.31, 2.78]));
    assert!(table
        .add_output_factor_per_ssd(dec(95.0), decs(&[0.865, 0.953, 0.994, 1.006, 1.037]))
        .is_ok());
    assert!(table
        .add_output_factor_per_ssd(dec(95.5), decs(&[0.856, 0.945, 0.986, 0.995, 1.026]))
        .is_ok());
    assert!(table
        .add_output_factor_per_ssd(dec(96.0), decs(&[0.843, 0.931, 0.973, 0.982, 1.011]))
        .is_ok());
    assert!(table
        .add_output_factor_per_ssd(dec(97.0), decs(&[0.818, 0.902, 0.946, 0.957, 0.982]))
        .is_ok());
    assert!(table
        .add_output_factor_per_ssd(dec(98.0), decs(&[0.792, 0.874, 0.919, 0.932, 0.953]))
        .is_ok());
    assert!(table
        .add_output_factor_per_ssd(dec(99.0), decs(&[0.764, 0.846, 0.892, 0.906, 0.926]))
        .is_ok());
    assert!(table
        .add_output_factor_per_ssd(dec(100.0), decs(&[0.736, 0.818, 0.865, 0.88, 0.899]))
        .is_ok());
    assert!(table
        .add_output_factor_per_ssd(dec(105.0), decs(&[0.619, 0.704, 0.753, 0.775, 0.791]))
        .is_ok());
    assert!(table
        .add_output_factor_per_ssd(dec(110.0), decs(&[0.526, 0.613, 0.663, 0.688, 0.706]))
        .is_ok());
    assert!(table
        .add_output_factor_per_ssd(dec(115.0), decs(&[0.442, 0.533, 0.584, 0.614, 0.63]))
        .is_ok());
    table
}

#[test]
fn test_build() {
    let of_table = build_of_table();
    assert_eq!(num(*of_table.get_energies().get(0).unwrap()), 4.0);
    assert_eq!(num(*of_table.get_energies().get(1).unwrap()), 6.0);
    assert_eq!(num(*of_table.get_zrefs().get(0).unwrap()), 0.89);
    assert_eq!(num(*of_table.get_zrefs().get(1).unwrap()), 1.36);
}

#[test]
fn test_get_cf() {
    let of_table = build_of_table();
    assert_eq!(num(of_table.get_cf(dec(4.0), dec(97.0)).unwrap()), 0.818);
    assert_eq!(num(of_table.get_cf(dec(4.0), dec(97.3)).unwrap()), 0.8102);
    assert_eq!(num(of_table.get_cf(dec(6.0), dec(97.0)).unwrap()), 0.902);
    assert!((num(of_table.get_cf(dec(6.0), dec(97.3)).unwrap()) - 0.8936) < std::f64::EPSILON);
    assert_eq!(num(of_table.get_cf(dec(12.0), dec(97.0)).unwrap()), 0.982);
    assert!((num(of_table.get_cf(dec(12.0), dec(97.3)).unwrap()) - 0.9733) < std::f64::EPSILON);

    // fail on purpose
    assert!(of_table.get_cf(dec(3.0), dec(97.0)).is_err());
    assert!(of_table.get_cf(dec(7.0), dec(97.0)).is_err());
    assert!(of_table.get_cf(dec(13.0), dec(97.0)).is_err());
    assert!(of_table.get_cf(dec(8.0), dec(94.9)).is_err());
    assert!(of_table.get_cf(dec(8.0), dec(115.1)).is_err());
}

#[test]
fn unknown_energy_names_the_energy() {
    let of_table = build_of_table();
    assert_eq!(
        of_table.get_cf(dec(7.0), dec(97.0)),
        Err(EmuError::EnergyNotFound(dec(7.0)))
    );
}

#[test]
fn distance_outside_the_range_is_refused() {
    let of_table = build_of_table();
    assert_eq!(
        of_table.get_cf(dec(8.0), dec(94.999999999)),
        Err(EmuError::SSDNotFound(dec(94.999999999)))
    );
    assert_eq!(
        of_table.get_cf(dec(8.0), dec(115.000000001)),
        Err(EmuError::SSDNotFound(dec(115.000000001)))
    );
    assert_eq!(of_table.get_cf(dec(8.0), dec(95.0)), Ok(dec(0.994)));
    assert_eq!(of_table.get_cf(dec(8.0), dec(115.0)), Ok(dec(0.584)));
}

#[test]
fn interpolation_between_neighbours() {
    let of_table = build_of_table();
    // 0.899 + 3 * (0.791 - 0.899) / 5
    assert_eq!(of_table.get_cf(dec(12.0), dec(103.0)), Ok(dec(0.8342)));
    // 0.982 + 0.7 * (0.957 - 0.982)
    assert_eq!(of_table.get_cf(dec(10.0), dec(96.7)), Ok(dec(0.9645)));
    // a third of the way, rounded down to a billionth
    assert_eq!(
        of_table.get_cf(dec(4.0), Decimal::from_units(97_333_333_333)),
        Ok(Decimal::from_units(809_333_333))
    );
}

#[test]
fn the_factor_moves_one_way_between_neighbours() {
    let of_table = build_of_table();
    let mut last = of_table.get_cf(dec(4.0), dec(97.0)).unwrap();
    assert_eq!(last, dec(0.818));
    let mut ssd = dec(97.0).units();
    while ssd < dec(98.0).units() {
        ssd += 31_250_000;
        let next = of_table.get_cf(dec(4.0), Decimal::from_units(ssd)).unwrap();
        assert!(next.units() <= last.units());
        assert!(next.units() >= dec(0.792).units());
        last = next;
    }
    assert_eq!(last, dec(0.792));
}

#[test]
fn rows_need_not_be_sorted() {
    let mut table = OFTable::new();
    table.set_energies(decs(&[6.0]));
    for (ssd, of) in [(100.0, 0.8), (95.0, 1.0), (110.0, 0.6), (105.0, 0.7)] {
        assert!(table.add_output_factor_per_ssd(dec(ssd), decs(&[of])).is_ok());
    }
    assert_eq!(table.get_cf(dec(6.0), dec(97.5)), Ok(dec(0.9)));
    assert_eq!(table.get_cf(dec(6.0), dec(102.0)), Ok(dec(0.76)));
    assert_eq!(table.get_cf(dec(6.0), dec(109.0)), Ok(dec(0.62)));
    assert_eq!(table.get_cf(dec(6.0), dec(110.0)), Ok(dec(0.6)));
    assert_eq!(
        table.get_cf(dec(6.0), dec(94.0)),
        Err(EmuError::SSDNotFound(dec(94.0)))
    );
}

#[test]
fn what_is_recorded_is_read_back() {
    let mut table = OFTable::new();
    let energies = [4.0, 6.0, 8.0];
    table.set_energies(decs(&energies));
    let rows = [
        (95.0, [0.1, 0.2, 0.3]),
        (96.0, [1.1, 1.2, 1.3]),
        (94.0, [2.1, 2.2, 2.3]),
    ];
    for (n, (ssd, values)) in rows.iter().enumerate() {
        assert_eq!(
            table.add_output_factor_per_ssd(dec(*ssd), decs(values)),
            Ok(())
        );
        for (earlier, row) in rows[..=n].iter() {
            for (i, e) in energies.iter().enumerate() {
                assert_eq!(table.get_cf(dec(*e), dec(*earlier)), Ok(dec(row[i])));
            }
        }
    }
    assert_eq!(table.get_ssds(), &decs(&[95.0, 96.0, 94.0]));
}

#[test]
fn a_distance_recorded_twice_gives_the_later_row() {
    let mut table = OFTable::new();
    table.set_energies(decs(&[6.0]));
    assert!(table.add_output_factor_per_ssd(dec(95.0), decs(&[1.0])).is_ok());
    assert!(table.add_output_factor_per_ssd(dec(95.0), decs(&[2.0])).is_ok());
    assert!(table.add_output_factor_per_ssd(dec(96.0), decs(&[3.0])).is_ok());
    assert_eq!(table.get_cf(dec(6.0), dec(95.0)), Ok(dec(2.0)));
    assert_eq!(table.get_cf(dec(6.0), dec(95.5)), Ok(dec(2.5)));
}

#[test]
fn an_energy_given_twice_counts_where_it_comes_first() {
    let mut table = OFTable::new();
    table.set_energies(decs(&[6.0, 6.0]));
    table.set_zrefs(decs(&[1.0, 2.0]));
    assert!(table
        .add_output_factor_per_ssd(dec(95.0), decs(&[1.5, 2.5]))
        .is_ok());
    assert_eq!(table.get_cf(dec(6.0), dec(95.0)), Ok(dec(1.5)));
    assert_eq!(table.get_zref(dec(6.0)), Some(dec(1.0)));
}

#[test]
fn rows_of_another_width_are_refused() {
    let mut table = build_of_table();
    assert_eq!(
        table.add_output_factor_per_ssd(dec(120.0), decs(&[0.4, 0.5])),
        Err(EmuError::ShapeMismatch {
            expected: 5,
            found: 2
        })
    );
    assert_eq!(table.get_ssds().len(), 10);
    assert_eq!(
        table.get_cf(dec(4.0), dec(120.0)),
        Err(EmuError::SSDNotFound(dec(120.0)))
    );
    // other energies after the first rows: the rows stay as wide as they were
    table.set_energies(decs(&[4.0, 6.0]));
    assert_eq!(
        table.add_output_factor_per_ssd(dec(120.0), decs(&[0.4, 0.5])),
        Err(EmuError::ShapeMismatch {
            expected: 5,
            found: 2
        })
    );
    assert_eq!(table.get_cf(dec(6.0), dec(95.0)), Ok(dec(0.953)));
}

#[test]
fn a_table_without_rows() {
    let mut table = OFTable::new();
    assert_eq!(
        table.get_cf(dec(6.0), dec(95.0)),
        Err(EmuError::EnergyNotFound(dec(6.0)))
    );
    table.set_energies(decs(&[6.0]));
    assert_eq!(
        table.get_cf(dec(6.0), dec(95.0)),
        Err(EmuError::SSDNotFound(dec(95.0)))
    );
    assert_eq!(table.get_zref(dec(6.0)), None);
    table.set_zrefs(decs(&[1.36]));
    assert_eq!(table.get_zref(dec(6.0)), Some(dec(1.36)));
    assert_eq!(table.get_zref(dec(7.0)), None);
    let copy = table.clone();
    assert_eq!(copy.get_energies(), &decs(&[6.0]));
}

use emu_check::{
    calculate_mu, compare_with_plan, compute_mu, CalcParam, CorrectionData, Decimal, EmuError,
};

fn dec(x: f64) -> Decimal {
    Decimal::from_units((x * 1e9).round() as i64)
}

fn decs(xs: &[f64]) -> Vec<Decimal> {
    xs.iter().map(|x| dec(*x)).collect()
}

fn num(d: Decimal) -> f64 {
    d.units() as f64 / 1e9
}

fn build_corr_table() -> CorrectionData {
    let mut table = CorrectionData::new();
    table.set_energies(decs(&[4.0, 6.0, 8.0, 10.0, 12.0]));
    table.set_zrefs(decs(&[0.89, 1.36, 1.81, 2.31, 2.78]));
    assert!(table
        .add_output_factor_per_ssd(dec(95.0), decs(&[0.865, 0.953, 0.994, 1.006, 1.037]))
        .is_ok());
    assert!(table
        .add_output_factor_per_ssd(dec(95.5), decs(&[0.856, 0.945, 0.986, 0.995, 1.026]))
        .is_ok());
    assert!(table
        .add_output_factor_per_ssd(dec(96.0), decs(&[0.843, 0.931, 0.973, 0.982, 1.011]))
        .is_ok());
    assert!(table
        .add_output_factor_per_ssd(dec(97.0), decs(&[0.818, 0.902, 0.946, 0.957, 0.982]))
        .is_ok());
    assert!(table
        .add_output_factor_per_ssd(dec(98.0), decs(&[0.792, 0.874, 0.919, 0.932, 0.953]))
        .is_ok());
    assert!(table
        .add_output_factor_per_ssd(dec(99.0), decs(&[0.764, 0.846, 0.892, 0.906, 0.926]))
        .is_ok());
    assert!(table
        .add_output_factor_per_ssd(dec(100.0), decs(&[0.736, 0.818, 0.865, 0.88, 0.899]))
        .is_ok());
    assert!(table
        .add_output_factor_per_ssd(dec(105.0), decs(&[0.619, 0.704, 0.753, 0.775, 0.791]))
        .is_ok());
    assert!(table
        .add_output_factor_per_ssd(dec(110.0), decs(&[0.526, 0.613, 0.663, 0.688, 0.706]))
        .is_ok());
    assert!(table
        .add_output_factor_per_ssd(dec(115.0), decs(&[0.442, 0.533, 0.584, 0.614, 0.63]))
        .is_ok());

    assert!(table
        .add_field_defining_aperture("6x6", 1, decs(&[0.9, 0.8, 0.7, 0.6, 0.5]))
        .is_ok());
    assert!(table
        .add_field_defining_aperture("4x6", 3, decs(&[1.9, 1.8, 1.7, 1.6, 1.5]))
        .is_ok());
    assert!(table
        .add_field_defining_aperture("4x4", 10, decs(&[2.9, 2.8, 2.7, 2.6, 2.5]))
        .is_ok());
    table
}

#[test]
fn correction_data_get_cf() {
    let table = build_corr_table();
    assert!(table.get_correction_factor(dec(12.0), dec(103.0), 3).is_ok());
    assert!(
        (num(table.get_correction_factor(dec(12.0), dec(103.0), 3).unwrap()) - 1.2513)
            < std::f64::EPSILON
    );
    assert!(
        (num(table.get_correction_factor(dec(10.0), dec(96.7), 3).unwrap()) - 1.5432)
            < std::f64::EPSILON
    );

    assert!(table.get_correction_factor(dec(11.0), dec(95.0), 3).is_err());
    assert!(table.get_correction_factor(dec(12.0), dec(94.9), 3).is_err());
    assert!(table.get_correction_factor(dec(12.0), dec(115.1), 3).is_err());
    assert!(table.get_correction_factor(dec(12.0), dec(115.0), 4).is_err());
}

#[test]
fn correction_data_exact_values_and_errors() {
    let table = build_corr_table();
    assert_eq!(
        table.get_correction_factor(dec(12.0), dec(103.0), 3),
        Ok(dec(1.2513))
    );
    assert_eq!(
        table.get_correction_factor(dec(10.0), dec(96.7), 3),
        Ok(dec(1.5432))
    );
    assert_eq!(
        table.get_correction_factor(dec(11.0), dec(95.0), 3),
        Err(EmuError::EnergyNotFound(dec(11.0)))
    );
    assert_eq!(
        table.get_correction_factor(dec(12.0), dec(94.9), 3),
        Err(EmuError::SSDNotFound(dec(94.9)))
    );
    assert_eq!(
        table.get_correction_factor(dec(12.0), dec(115.0), 4),
        Err(EmuError::FdaIDNotFound(4))
    );
    // the failure of the output factor comes first
    assert_eq!(
        table.get_correction_factor(dec(12.0), dec(94.9), 4),
        Err(EmuError::SSDNotFound(dec(94.9)))
    );
}

#[test]
fn correction_data_product_of_both_factors() {
    let table = build_corr_table();
    // 0.926 + 0.2 * (0.899 - 0.926) = 0.9206, times 2.5
    assert_eq!(
        table.get_correction_factor(dec(12.0), dec(99.2), 10),
        Ok(dec(2.3015))
    );
    let of = table.output_factors.get_cf(dec(12.0), dec(99.2)).unwrap();
    let fda = table.fda.get_cf(dec(12.0), 10).unwrap();
    assert_eq!(of, dec(0.9206));
    assert_eq!(fda, dec(2.5));
    assert_eq!(of.checked_mul(fda), Some(dec(2.3015)));
}

#[test]
fn monitor_units_of_the_sample_plan() {
    // output factor 0.9206 at 99.2 cm and 12 MeV, aperture correction 0.98
    let cf = dec(0.9206).checked_mul(dec(0.98)).unwrap();
    assert_eq!(cf, dec(0.902188));
    let mu = compute_mu(dec(100.0), cf).unwrap();
    assert_eq!(mu.units(), 110_841_642_761);
    assert!((num(mu) - 110.841642761819).abs() < std::f32::EPSILON as f64);
}

#[test]
fn monitor_units_from_parameters() {
    let table = build_corr_table();
    let mut cp = CalcParam::new();
    cp.energy = dec(12.0);
    cp.ssd = dec(99.2);
    cp.dose_zref = dec(100.0);
    cp.fda_id = 10;
    // 100 / 2.3015
    assert_eq!(calculate_mu(&cp, &table).unwrap().units(), 43_449_923_962);
    cp.fda_id = 2;
    assert_eq!(calculate_mu(&cp, &table), Err(EmuError::FdaIDNotFound(2)));
}

#[test]
fn monitor_units_need_a_factor() {
    assert_eq!(
        compute_mu(dec(100.0), Decimal::zero()),
        Err(EmuError::ZeroCorrectionFactor)
    );
    assert_eq!(
        compute_mu(Decimal::from_units(i64::MAX), Decimal::from_units(1)),
        Err(EmuError::OutOfRange)
    );
    assert_eq!(compute_mu(dec(-1.0), dec(3.0)), Ok(Decimal::from_units(-333_333_334)));
}

#[test]
fn difference_from_the_plan() {
    let c = compare_with_plan(dec(110.0), dec(99.0)).unwrap();
    assert_eq!(c.mu, dec(110.0));
    assert_eq!(c.difference, dec(10.0));
    let c = compare_with_plan(dec(100.0), dec(101.0)).unwrap();
    assert_eq!(c.difference, dec(-1.0));
    assert_eq!(
        compare_with_plan(Decimal::zero(), dec(1.0)),
        Err(EmuError::OutOfRange)
    );
}

#[test]
fn validation_looks_at_the_energies_only() {
    let mut cd = CorrectionData::new();
    assert!(cd.validate());
    cd.output_factors.set_energies(decs(&[4.0, 6.0, 8.0]));
    cd.fda.set_energies(decs(&[8.0, 4.0, 6.0]));
    assert!(cd.validate());
    cd.fda.set_energies(decs(&[8.0, 4.0, 6.0, 6.0]));
    assert!(cd.validate());
    cd.fda.set_energies(decs(&[8.0, 4.0]));
    assert!(!cd.validate());
    cd.fda.set_energies(decs(&[8.0, 4.0, 6.0, 10.0]));
    assert!(!cd.validate());
    cd.fda.set_energies(decs(&[4.0, 6.0, 9.0]));
    assert!(!cd.validate());
}

#[test]
fn correction_data_getters() {
    let table = build_corr_table();
    assert_eq!(table.get_energies(), decs(&[4.0, 6.0, 8.0, 10.0, 12.0]));
    assert_eq!(table.get_energies_as_ref(), &decs(&[4.0, 6.0, 8.0, 10.0, 12.0]));
    assert_eq!(table.get_zref(dec(8.0)), Some(dec(1.81)));
    assert_eq!(table.get_zref(dec(9.0)), None);
    let copy = table.clone();
    assert_eq!(
        copy.get_correction_factor(dec(12.0), dec(103.0), 3),
        Ok(dec(1.2513))
    );
}

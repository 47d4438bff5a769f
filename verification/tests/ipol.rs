use emu_check::{interpolate_linear, Decimal};

fn dec(x: f64) -> Decimal {
    Decimal::from_units((x * 1e9).round() as i64)
}

#[test]
fn interpolation_on_a_line() {
    // 0.818 + (97.3 - 97) * (0.792 - 0.818) / (98 - 97)
    assert_eq!(
        interpolate_linear(dec(97.3), dec(97.0), dec(98.0), dec(0.818), dec(0.792)),
        dec(0.8102)
    );
    assert_eq!(
        interpolate_linear(dec(97.0), dec(97.0), dec(98.0), dec(0.818), dec(0.792)),
        dec(0.818)
    );
    assert_eq!(
        interpolate_linear(dec(98.0), dec(97.0), dec(98.0), dec(0.818), dec(0.792)),
        dec(0.792)
    );
}

#[test]
fn interpolation_outside_the_bracket() {
    assert_eq!(
        interpolate_linear(dec(3.0), dec(1.0), dec(2.0), dec(10.0), dec(20.0)),
        dec(30.0)
    );
    assert_eq!(
        interpolate_linear(dec(0.0), dec(1.0), dec(2.0), dec(10.0), dec(20.0)),
        dec(0.0)
    );
    // the bracket may be given from right to left
    assert_eq!(
        interpolate_linear(dec(1.5), dec(2.0), dec(1.0), dec(20.0), dec(10.0)),
        dec(15.0)
    );
}

#[test]
fn interpolation_on_a_bracket_without_width() {
    assert_eq!(
        interpolate_linear(dec(5.0), dec(1.0), dec(1.0), dec(10.0), dec(20.0)),
        dec(10.0)
    );
    assert_eq!(
        interpolate_linear(dec(1.0), dec(1.0), dec(1.0), dec(10.0), dec(20.0)),
        dec(10.0)
    );
}

#[test]
fn interpolation_rounds_down() {
    let u = Decimal::from_units;
    assert_eq!(interpolate_linear(u(1), u(0), u(3), u(0), u(1)), u(0));
    assert_eq!(interpolate_linear(u(2), u(0), u(3), u(0), u(1)), u(0));
    assert_eq!(interpolate_linear(u(1), u(0), u(3), u(0), u(-1)), u(-1));
    assert_eq!(interpolate_linear(u(2), u(0), u(3), u(0), u(-2)), u(-2));
    assert_eq!(interpolate_linear(u(1), u(0), u(3), u(0), u(-3)), u(-1));
    assert_eq!(
        interpolate_linear(u(0), u(i64::MIN), u(i64::MAX), u(i64::MIN), u(i64::MAX)),
        u(0)
    );
    assert_eq!(
        interpolate_linear(u(i64::MAX), u(i64::MIN), u(i64::MAX), u(i64::MAX), u(i64::MIN)),
        u(i64::MIN)
    );
}

#[test]
fn products_and_quotients_round_down() {
    let u = Decimal::from_units;
    assert_eq!(dec(0.9206).checked_mul(dec(2.5)), Some(dec(2.3015)));
    assert_eq!(u(1).checked_mul(u(1)), Some(u(0)));
    assert_eq!(u(-1).checked_mul(u(1)), Some(u(-1)));
    assert_eq!(u(i64::MAX).checked_mul(dec(1.0)), Some(u(i64::MAX)));
    assert_eq!(u(i64::MIN).checked_mul(dec(1.0)), Some(u(i64::MIN)));
    assert_eq!(u(i64::MAX).checked_mul(dec(1.000000001)), None);
    assert_eq!(u(i64::MIN).checked_mul(dec(-1.0)), None);
    assert_eq!(dec(1.0).checked_div(dec(3.0)), Some(u(333_333_333)));
    assert_eq!(dec(-1.0).checked_div(dec(3.0)), Some(u(-333_333_334)));
    assert_eq!(dec(1.0).checked_div(dec(-3.0)), Some(u(-333_333_334)));
    assert_eq!(dec(-1.0).checked_div(dec(-3.0)), Some(u(333_333_333)));
    assert_eq!(dec(1.0).checked_div(Decimal::zero()), None);
    assert_eq!(u(i64::MIN).checked_div(dec(-1.0)), None);
    assert_eq!(u(i64::MIN).checked_div(dec(1.0)), Some(u(i64::MIN)));
    assert!(Decimal::zero().is_zero());
    assert!(!u(1).is_zero());
}

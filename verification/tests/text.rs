use emu_check::{parse_decimal, parse_index, Decimal, EmuError};

fn units(text: &str) -> Option<i64> {
    parse_decimal(text).map(|d| d.units())
}

#[test]
fn decimal_texts_are_read_exactly() {
    assert_eq!(units("12"), Some(12_000_000_000));
    assert_eq!(units("0.865"), Some(865_000_000));
    assert_eq!(units("99.2"), Some(99_200_000_000));
    assert_eq!(units("-1.5"), Some(-1_500_000_000));
    assert_eq!(units("+2"), Some(2_000_000_000));
    assert_eq!(units("0"), Some(0));
    assert_eq!(units("-0"), Some(0));
    assert_eq!(units("007.50"), Some(7_500_000_000));
    assert_eq!(units("0.000000001"), Some(1));
    assert_eq!(units("1.123456789"), Some(1_123_456_789));
    assert_eq!(Decimal::parse("95.5"), Some(Decimal::from_units(95_500_000_000)));
}

#[test]
fn decimal_texts_with_a_bare_point_or_many_digits() {
    assert_eq!(units("5."), Some(5_000_000_000));
    assert_eq!(units(".5"), Some(500_000_000));
    assert_eq!(units("-.5"), Some(-500_000_000));
    assert_eq!(units("+5."), Some(5_000_000_000));
    assert_eq!(units("0."), Some(0));
    assert_eq!(units(".0"), Some(0));
    assert_eq!(units("00000000000000000000012.5"), Some(12_500_000_000));
    assert_eq!(units("1.50000000000000000000000000000"), Some(1_500_000_000));
    assert_eq!(
        units("0.00000000000000000000000000000000000000000000000000001"),
        Some(0)
    );
}

#[test]
fn digits_beyond_a_billionth_are_rounded_down() {
    assert_eq!(units("1.1234567891"), Some(1_123_456_789));
    assert_eq!(units("1.1234567899999"), Some(1_123_456_789));
    assert_eq!(units("-1.1234567891"), Some(-1_123_456_790));
    assert_eq!(units("-1.1234567890"), Some(-1_123_456_789));
    assert_eq!(units("-1.12345678900000000000000000000000000001"), Some(-1_123_456_790));
    assert_eq!(units("0.0000000009"), Some(0));
    assert_eq!(units("-0.0000000001"), Some(-1));
    assert_eq!(units("-0.0000000000"), Some(0));
}

#[test]
fn decimal_texts_that_are_refused() {
    assert_eq!(units(""), None);
    assert_eq!(units("-"), None);
    assert_eq!(units("+"), None);
    assert_eq!(units("."), None);
    assert_eq!(units("-."), None);
    assert_eq!(units("1e2"), None);
    assert_eq!(units("1E2"), None);
    assert_eq!(units("1.5e-3"), None);
    assert_eq!(units("inf"), None);
    assert_eq!(units("-infinity"), None);
    assert_eq!(units("NaN"), None);
    assert_eq!(units(" 1"), None);
    assert_eq!(units("1 "), None);
    assert_eq!(units("1,5"), None);
    assert_eq!(units("1.2.3"), None);
    assert_eq!(units("1..2"), None);
    assert_eq!(units("--1"), None);
    assert_eq!(units("+-1"), None);
    assert_eq!(units("1-"), None);
    assert_eq!(units("1.5-"), None);
    assert_eq!(units("\u{ff11}"), None);
    assert_eq!(units("1\u{e9}"), None);
    assert_eq!(units("abc"), None);
}

#[test]
fn decimal_texts_at_the_limits() {
    assert_eq!(units("9223372036.854775807"), Some(i64::MAX));
    assert_eq!(units("9223372036.8547758079"), Some(i64::MAX));
    assert_eq!(units("9223372036.854775808"), None);
    assert_eq!(units("-9223372036.854775808"), Some(i64::MIN));
    assert_eq!(units("-9223372036.8547758080"), Some(i64::MIN));
    assert_eq!(units("-9223372036.8547758081"), None);
    assert_eq!(units("-9223372036.854775809"), None);
    assert_eq!(units("9999999999"), None);
    assert_eq!(units("12345678901"), None);
    assert_eq!(units("9223372036"), Some(9_223_372_036_000_000_000));
    assert_eq!(units("9223372037"), None);
    assert_eq!(units("100000000000000000000000000000000000000000000000000"), None);
    assert_eq!(units("-100000000000000000000000000000000000000000000000000.5"), None);
}

#[test]
fn index_texts() {
    assert_eq!(parse_index("10"), Some(10));
    assert_eq!(parse_index("0"), Some(0));
    assert_eq!(parse_index("007"), Some(7));
    assert_eq!(parse_index("+5"), Some(5));
    assert_eq!(parse_index("+0"), Some(0));
    assert_eq!(parse_index("000000000000000000000000000000000000000000007"), Some(7));
    assert_eq!(parse_index("1234567890123456789"), Some(1234567890123456789));
    assert_eq!(
        parse_index(&usize::MAX.to_string()),
        Some(usize::MAX)
    );
    assert_eq!(parse_index("18446744073709551616"), None);
    assert_eq!(
        parse_index("100000000000000000000000000000000000000000000000000"),
        None
    );
    assert_eq!(parse_index(""), None);
    assert_eq!(parse_index("+"), None);
    assert_eq!(parse_index("-1"), None);
    assert_eq!(parse_index("-0"), None);
    assert_eq!(parse_index("++1"), None);
    assert_eq!(parse_index("1.0"), None);
    assert_eq!(parse_index("ten"), None);
    assert_eq!(parse_index("1\u{663}"), None);
}

#[test]
fn decimals_in_decimal_notation() {
    assert_eq!(Decimal::from_units(12_000_000_000).to_text(), "12");
    assert_eq!(Decimal::from_units(865_000_000).to_text(), "0.865");
    assert_eq!(Decimal::from_units(-1_500_000_000).to_text(), "-1.5");
    assert_eq!(Decimal::from_units(1).to_text(), "0.000000001");
    assert_eq!(Decimal::from_units(-1).to_text(), "-0.000000001");
    assert_eq!(Decimal::from_units(0).to_text(), "0");
    assert_eq!(Decimal::from_units(100_000_000).to_text(), "0.1");
    assert_eq!(Decimal::from_units(10_000_000_010).to_text(), "10.00000001");
    assert_eq!(Decimal::from_units(i64::MAX).to_text(), "9223372036.854775807");
    assert_eq!(Decimal::from_units(i64::MIN).to_text(), "-9223372036.854775808");
}

#[test]
fn what_is_written_is_read_back() {
    for u in [
        0,
        1,
        -1,
        999_999_999,
        1_000_000_000,
        -1_000_000_001,
        110_841_642_761,
        i64::MAX,
        i64::MIN,
    ] {
        let d = Decimal::from_units(u);
        assert_eq!(parse_decimal(&d.to_text()), Some(d));
    }
}

#[test]
fn messages() {
    let d = |u: i64| Decimal::from_units(u);
    let s = |t: &str| t.to_string();
    assert_eq!(
        EmuError::MachineNotFound(s("Synergy2")).message(),
        "Machine [Synergy2] was not found"
    );
    assert_eq!(
        EmuError::EnergyNotFound(d(12_500_000_000)).message(),
        "Energy [12.5] not found"
    );
    assert_eq!(
        EmuError::SSDNotFound(d(94_900_000_000)).message(),
        "SSD [94.9] is out of range"
    );
    assert_eq!(EmuError::FdaIDNotFound(4).message(), "FDA id[4] not found");
    assert_eq!(
        EmuError::ApplicatorNotFound(s("6x6")).message(),
        "Applicator [6x6] not found"
    );
    assert_eq!(EmuError::OFTableNotFound.message(), "OFTable not found");
    assert_eq!(
        EmuError::CorrectionDataNotFound(s("M"), s("A")).message(),
        "No correction data found for [machine: M, applicator: A]"
    );
    assert_eq!(
        EmuError::AmbiguousMatch(s("M"), s("A")).message(),
        "Multiple correction data matches found for [machine: M, applicator: A]"
    );
    assert_eq!(
        EmuError::ShapeMismatch {
            expected: 5,
            found: 12
        }
        .message(),
        "Mismatch between the number of energies [5] and the number of values [12]"
    );
    assert_eq!(
        EmuError::DuplicateId(3).message(),
        "FDA id[3] occurs more than once"
    );
    assert_eq!(
        EmuError::CountMismatch {
            of_files: 2,
            fda_files: 1
        }
        .message(),
        "The number of files with output factors [2] must be identical to the number of files with field defining apertures [1]"
    );
    assert_eq!(
        EmuError::TableMismatch(s("M"), s("A")).message(),
        "No field defining aperture table with the energies of the output factor table for [machine: M, applicator: A]"
    );
    assert_eq!(
        EmuError::EmptyResult.message(),
        "No configuration data was loaded."
    );
    assert_eq!(
        EmuError::ZeroCorrectionFactor.message(),
        "The correction factor is zero"
    );
    assert_eq!(EmuError::OutOfRange.message(), "The result is out of range");
    assert_eq!(
        EmuError::Terminal(s("closed")).message(),
        "Terminal registered an error: closed"
    );
    assert_eq!(EmuError::Logic(s("no")).message(), "no");
    assert_eq!(EmuError::Str(s("words")).message(), "words");
    assert_eq!(
        EmuError::Format(s("bad")).message(),
        "Invalid format: bad"
    );
    assert_eq!(
        EmuError::DirNotFound(s("/data")).message(),
        "Directory not found or does not exist: /data"
    );
    assert_eq!(
        EmuError::IO(s("gone")).message(),
        "Input / output error: gone"
    );
}

use virtuallet::amount::{format_amount, parse_amount, read_amount, TypedAmount};

#[test]
fn parse_amount_reads_whole_numbers() {
    assert_eq!(parse_amount("100"), Some(10000));
    assert_eq!(parse_amount("200"), Some(20000));
    assert_eq!(parse_amount("0"), Some(0));
    assert_eq!(parse_amount("007"), Some(700));
}

#[test]
fn parse_amount_reads_fractions() {
    assert_eq!(parse_amount("12.5"), Some(1250));
    assert_eq!(parse_amount("12.34"), Some(1234));
    assert_eq!(parse_amount("0.01"), Some(1));
    assert_eq!(parse_amount(".5"), Some(50));
    assert_eq!(parse_amount("5."), Some(500));
}

#[test]
fn parse_amount_rounds_half_away_from_zero() {
    assert_eq!(parse_amount("12.345"), Some(1235));
    assert_eq!(parse_amount("12.344"), Some(1234));
    assert_eq!(parse_amount("12.3449999"), Some(1234));
    assert_eq!(parse_amount("0.005"), Some(1));
    assert_eq!(parse_amount("0.004"), Some(0));
    assert_eq!(parse_amount("-12.345"), Some(-1235));
    assert_eq!(parse_amount("-0.005"), Some(-1));
    assert_eq!(parse_amount("0.999"), Some(100));
    assert_eq!(parse_amount("1.995"), Some(200));
}

#[test]
fn parse_amount_reads_signs() {
    assert_eq!(parse_amount("+7"), Some(700));
    assert_eq!(parse_amount("-7"), Some(-700));
    assert_eq!(parse_amount("-0"), Some(0));
    assert_eq!(parse_amount("-.25"), Some(-25));
}

#[test]
fn parse_amount_refuses_what_is_no_decimal_number() {
    for text in [
        "", "+", "-", ".", "-.", "abc", "12a", "a12", "1.2.3", "1,5", " 1", "1 ", "--1", "+-1",
        "inf", "infinity", "NaN", "1.-5", "\u{0661}", "e5", "1e", "1e+", "1e-", ".e5", "1e5.0",
        "1e5e5", "1ee5", "e", "1e 5", "0x10", "1_000", "-e1", "1e++1",
    ] {
        assert_eq!(parse_amount(text), None, "{:?}", text);
    }
}

#[test]
fn parse_amount_knows_the_range_of_amounts() {
    assert_eq!(parse_amount("92233720368547758.07"), Some(i64::MAX));
    assert_eq!(parse_amount("92233720368547758.08"), None);
    assert_eq!(parse_amount("92233720368547758.074"), Some(i64::MAX));
    assert_eq!(parse_amount("92233720368547758.075"), None);
    assert_eq!(parse_amount("-92233720368547758.08"), Some(i64::MIN));
    assert_eq!(parse_amount("-92233720368547758.09"), None);
    assert_eq!(parse_amount("-92233720368547758.084"), Some(i64::MIN));
    assert_eq!(parse_amount("-92233720368547758.085"), None);
    assert_eq!(parse_amount("100000000000000000000000000000000000000000000"), None);
    assert_eq!(parse_amount("000000000000000000000000000000000000000000001"), Some(100));
}

#[test]
fn format_amount_writes_two_digits_behind_the_point() {
    assert_eq!(format_amount(0), "0.00");
    assert_eq!(format_amount(1), "0.01");
    assert_eq!(format_amount(10), "0.10");
    assert_eq!(format_amount(100), "1.00");
    assert_eq!(format_amount(10000), "100.00");
    assert_eq!(format_amount(-15000), "-150.00");
    assert_eq!(format_amount(-5), "-0.05");
    assert_eq!(format_amount(123456789), "1234567.89");
}

#[test]
fn format_amount_writes_the_ends_of_the_range() {
    assert_eq!(format_amount(i64::MAX), "92233720368547758.07");
    assert_eq!(format_amount(i64::MIN), "-92233720368547758.08");
}

#[test]
fn parse_amount_reads_back_what_format_amount_writes() {
    for amount in [0i64, 1, -1, 99, 100, -100, 101, 12345, -987654321, i64::MAX, i64::MIN] {
        assert_eq!(parse_amount(&format_amount(amount)), Some(amount));
    }
}

#[test]
fn read_amount_keeps_the_number_as_typed() {
    let typed = |negative, cut, more, round_up| Some(TypedAmount { negative, cut, more, round_up });
    assert_eq!(read_amount("12.34"), typed(false, 1234, false, false));
    assert_eq!(read_amount("12.345"), typed(false, 1234, true, true));
    assert_eq!(read_amount("12.3401"), typed(false, 1234, true, false));
    assert_eq!(read_amount("12.3400"), typed(false, 1234, false, false));
    assert_eq!(read_amount("-0.004"), typed(true, 0, true, false));
    assert_eq!(read_amount("+.5"), typed(false, 50, false, false));
    assert_eq!(read_amount("-0"), typed(true, 0, false, false));
    assert_eq!(read_amount("7."), typed(false, 700, false, false));
    assert_eq!(read_amount("abc"), None);
    assert_eq!(read_amount(""), None);
}

#[test]
fn read_amount_marks_what_is_beyond_every_amount() {
    let cap: u128 = (1u128 << 64) * 100 + 99;
    assert_eq!(read_amount("18446744073709551616.99").unwrap().cut, cap);
    assert_eq!(read_amount("18446744073709551617").unwrap().cut, cap + 1);
    let huge = read_amount("99999999999999999999999999999999999999999999.995").unwrap();
    assert_eq!(huge, TypedAmount { negative: false, cut: cap + 1, more: true, round_up: true });
    assert!(huge.is_positive());
    assert!(huge.exceeds(i128::MAX / 2) || huge.cut == cap + 1);
    assert_eq!(huge.rounded(), None);
}

#[test]
fn typed_amounts_know_their_sign_and_their_limit() {
    let small = read_amount("0.004").unwrap();
    assert!(small.is_positive() && !small.is_negative());
    assert_eq!(small.rounded(), Some(0));
    assert!(small.exceeds(0));
    assert!(!small.exceeds(1));
    assert!(small.exceeds(-1));
    let zero = read_amount("-0.000").unwrap();
    assert!(!zero.is_positive() && !zero.is_negative());
    let negative = read_amount("-0.0001").unwrap();
    assert!(negative.is_negative() && !negative.is_positive());
    let rent = read_amount("300.004").unwrap();
    assert!(rent.exceeds(30000));
    assert!(!rent.exceeds(30001));
    assert_eq!(rent.rounded(), Some(30000));
    let even = read_amount("300.00").unwrap();
    assert!(!even.exceeds(30000));
    assert!(even.exceeds(29999));
    assert_eq!(read_amount("-1.005").unwrap().rounded(), Some(-101));
}

#[test]
fn parse_amount_reads_exponents() {
    assert_eq!(parse_amount("1e3"), Some(100000));
    assert_eq!(parse_amount("1E3"), Some(100000));
    assert_eq!(parse_amount("1e+3"), Some(100000));
    assert_eq!(parse_amount("1.5e1"), Some(1500));
    assert_eq!(parse_amount("1.5e0"), Some(150));
    assert_eq!(parse_amount("15e-1"), Some(150));
    assert_eq!(parse_amount("-2.5E-1"), Some(-25));
    assert_eq!(parse_amount("12345e-4"), Some(123));
    assert_eq!(parse_amount("12355e-4"), Some(124));
    assert_eq!(parse_amount(".5e1"), Some(500));
    assert_eq!(parse_amount("5.e2"), Some(50000));
    assert_eq!(parse_amount("5e-3"), Some(1));
    assert_eq!(parse_amount("4e-3"), Some(0));
    assert_eq!(parse_amount("5e-4"), Some(0));
    assert_eq!(parse_amount("9.99e-3"), Some(1));
    assert_eq!(parse_amount("1e-400"), Some(0));
    assert_eq!(parse_amount("1e-99999999999999999999999999999999999999999"), Some(0));
    assert_eq!(parse_amount("0e99999999999999999999999999999999999999999"), Some(0));
    assert_eq!(parse_amount("0.000e30"), Some(0));
    assert_eq!(parse_amount("1e16"), Some(1_000_000_000_000_000_000));
    assert_eq!(parse_amount("9.223372036854775807e16"), Some(i64::MAX));
    assert_eq!(parse_amount("9.223372036854775808e16"), None);
    assert_eq!(parse_amount("1e17"), None);
    assert_eq!(parse_amount("1e22"), None);
    assert_eq!(parse_amount("1e400"), None);
    assert_eq!(parse_amount("1e99999999999999999999999999999999999999999"), None);
    assert_eq!(parse_amount("0.0000000000000000000000001e25"), Some(100));
    assert_eq!(parse_amount("100000000000000000000000000e-25"), Some(1000));
    assert_eq!(parse_amount("00001e0002"), Some(10000));
}

#[test]
fn parse_amount_agrees_with_the_parse_of_floats_on_exponents() {
    for text in [
        "1e3", "2.5e2", "125e-2", "1.25e0", "7E1", "-3.75e1", "0.5e1", "12.5e-1", "+4e2", "1e-2",
        "100e-4", "3.125e2", "6.4e1", "0.015625e6",
    ] {
        let float: f64 = text.parse().unwrap();
        assert_eq!(parse_amount(text), Some((float * 100.0).round() as i64), "{}", text);
    }
}

#[test]
fn read_amount_moves_the_point_by_the_exponent() {
    let typed = |negative, cut, more, round_up| Some(TypedAmount { negative, cut, more, round_up });
    assert_eq!(read_amount("4e-3"), typed(false, 0, true, false));
    assert_eq!(read_amount("5e-3"), typed(false, 0, true, true));
    assert_eq!(read_amount("1e-3"), typed(false, 0, true, false));
    assert_eq!(read_amount("1e-4"), typed(false, 0, true, false));
    assert_eq!(read_amount("-1e-400"), typed(true, 0, true, false));
    assert_eq!(read_amount("0e-400"), typed(false, 0, false, false));
    assert_eq!(read_amount("0e400"), typed(false, 0, false, false));
    assert_eq!(read_amount("123456e-3"), typed(false, 12345, true, true));
    assert_eq!(read_amount("123450e-3"), typed(false, 12345, false, false));
    assert_eq!(read_amount("1.2345e2"), typed(false, 12345, false, false));
    assert_eq!(read_amount("1.2e19"), typed(false, 1_200_000_000_000_000_000_000, false, false));
    let cap: u128 = (1u128 << 64) * 100 + 99;
    assert_eq!(read_amount("1.2e21"), typed(false, cap + 1, false, false));
    assert_eq!(read_amount("1.2e22"), typed(false, cap + 1, false, false));
    assert_eq!(read_amount("1e23"), typed(false, cap + 1, false, false));
    assert_eq!(read_amount("1e400"), typed(false, cap + 1, false, false));
    assert_eq!(read_amount("0.001e400"), typed(false, cap + 1, false, false));
}

use weather_mail::fixed::{
    fmt_fixed1, fmt_fixed2, fmt_fixed_int, fmt_fixed_min, fmt_signed1, parse_fixed,
};

#[test]
fn parse_accepts_plain_integers() {
    assert_eq!(parse_fixed("25"), Some(2500));
    assert_eq!(parse_fixed("0"), Some(0));
    assert_eq!(parse_fixed("-3"), Some(-300));
    assert_eq!(parse_fixed("9999999"), Some(999999900));
}

#[test]
fn parse_accepts_fractions() {
    assert_eq!(parse_fixed("25.5"), Some(2550));
    assert_eq!(parse_fixed("10.0"), Some(1000));
    assert_eq!(parse_fixed("1.25"), Some(125));
    assert_eq!(parse_fixed("-0.5"), Some(-50));
    // digits beyond the hundredth are beyond the resolution
    assert_eq!(parse_fixed("1.239"), Some(123));
}

#[test]
fn parse_rejects_malformed_text() {
    assert_eq!(parse_fixed(""), None);
    assert_eq!(parse_fixed("-"), None);
    assert_eq!(parse_fixed("25."), None);
    assert_eq!(parse_fixed(".5"), None);
    assert_eq!(parse_fixed("12345678"), None);
    assert_eq!(parse_fixed("2a"), None);
    assert_eq!(parse_fixed("1.2.3"), None);
    assert_eq!(parse_fixed("+5"), None);
}

#[test]
fn canonical_form_has_two_fraction_digits() {
    assert_eq!(fmt_fixed2(2500), "25.00");
    assert_eq!(fmt_fixed2(-350), "-3.50");
    assert_eq!(fmt_fixed2(7), "0.07");
    assert_eq!(fmt_fixed2(0), "0.00");
}

#[test]
fn canonical_form_round_trips() {
    for v in [0i64, 1, -1, 99, -100, 2500, -999999999, 999999999] {
        let text = fmt_fixed2(v);
        assert_eq!(parse_fixed(text.as_str()), Some(v));
    }
}

#[test]
fn one_decimal_form_truncates_towards_zero() {
    assert_eq!(fmt_fixed1(1633), "16.3");
    assert_eq!(fmt_fixed1(-29), "-0.2");
    assert_eq!(fmt_fixed1(2000), "20.0");
}

#[test]
fn whole_degree_form_truncates_towards_zero() {
    assert_eq!(fmt_fixed_int(2290), "22");
    assert_eq!(fmt_fixed_int(-50), "0");
    assert_eq!(fmt_fixed_int(-150), "-1");
}

#[test]
fn minimal_form_drops_trailing_zeros() {
    assert_eq!(fmt_fixed_min(3000), "30");
    assert_eq!(fmt_fixed_min(3050), "30.5");
    assert_eq!(fmt_fixed_min(-325), "-3.25");
}

#[test]
fn signed_form_always_carries_a_sign() {
    assert_eq!(fmt_signed1(200), "+2.0");
    assert_eq!(fmt_signed1(-50), "-0.5");
    assert_eq!(fmt_signed1(0), "+0.0");
}

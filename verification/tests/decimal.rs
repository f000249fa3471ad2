use pa_strategy::decimal::Decimal;

fn dec(text: &str) -> Decimal {
    let digits: String = text.chars().filter(|c| *c != '.').collect();
    let scale = text.split('.').nth(1).map_or(0, |part| part.len());
    Decimal::from_parts(digits.parse::<i128>().unwrap(), scale as u32).unwrap()
}

#[test]
fn quotients_are_rounded_to_the_last_digit() {
    assert_eq!(dec("1") / dec("3"), dec("0.3333333333333333333333333333"));
    assert_eq!(dec("2") / dec("3"), dec("0.6666666666666666666666666667"));
    assert_eq!(dec("-2") / dec("3"), dec("-0.6666666666666666666666666667"));
    assert_eq!(dec("10") / dec("4"), dec("2.5"));
}

#[test]
fn products_are_rounded_to_the_last_digit() {
    let tiny = dec("0.0000000000000000000000000001");
    assert_eq!(tiny * dec("0.4"), dec("0"));
    assert_eq!(tiny * dec("0.6"), tiny);
    // a tie goes to the even digit
    assert_eq!(tiny * dec("0.5"), dec("0"));
    assert_eq!(dec("0.0000000000000000000000000003") * dec("0.5"), tiny + tiny);
    assert_eq!(dec("1.5") * dec("1.5"), dec("2.25"));
}

#[test]
fn sums_keep_as_many_digits_as_fit() {
    assert_eq!(dec("0.1") + dec("0.02"), dec("0.12"));
    let large = Decimal::max_value() - dec("1");
    assert_eq!(large + dec("0.4"), large);
    assert_eq!(large + dec("0.6"), Decimal::max_value());
    assert_eq!(dec("0.3") - dec("0.5"), dec("-0.2"));
}

#[test]
fn whole_numbers_around_a_number() {
    assert_eq!(dec("2.7").floor(), dec("2"));
    assert_eq!(dec("-2.2").floor(), dec("-3"));
    assert_eq!(dec("2.2").ceil(), dec("3"));
    assert_eq!(dec("-2.7").ceil(), dec("-2"));
    assert_eq!(dec("3").floor(), dec("3"));
    assert_eq!(dec("3.00").ceil(), dec("3"));
}

#[test]
fn rounding_to_places_takes_ties_to_even() {
    assert_eq!(dec("0.125").round_dp(2), dec("0.12"));
    assert_eq!(dec("0.135").round_dp(2), dec("0.14"));
    assert_eq!(dec("0.1251").round_dp(2), dec("0.13"));
    assert_eq!(dec("-0.135").round_dp(2), dec("-0.14"));
    assert_eq!(dec("0.1").round_dp(2), dec("0.1"));
}

#[test]
fn comparison_ignores_the_scale() {
    assert_eq!(dec("0.5"), dec("0.500"));
    assert!(dec("0.49") < dec("0.5"));
    assert!(dec("-1") < dec("0.0001"));
    assert!(dec("0.50") <= dec("0.5"));
    assert_eq!(dec("0.30").min(dec("0.4")), dec("0.3"));
    assert_eq!(dec("0.30").max(dec("0.4")), dec("0.4"));
}

#[test]
fn counts_drop_the_fraction() {
    assert_eq!(dec("3.99").to_u32(), Some(3));
    assert_eq!(dec("-0.5").to_u32(), None);
    assert_eq!(dec("4294967295.9").to_u32(), Some(u32::MAX));
    assert_eq!(dec("4294967296").to_u32(), None);
    assert_eq!(dec("3.01").ceil_to_u32(), Some(4));
    assert_eq!(dec("18446744073709551615.5").to_u64(), Some(u64::MAX));
    assert_eq!(dec("18446744073709551616").to_u64(), None);
}

#[test]
fn only_what_fits_is_a_decimal() {
    assert!(Decimal::from_parts(79_228_162_514_264_337_593_543_950_335, 28).is_some());
    assert!(Decimal::from_parts(79_228_162_514_264_337_593_543_950_336, 0).is_none());
    assert!(Decimal::from_parts(1, 29).is_none());
    assert_eq!(Decimal::from_parts(-15, 1), Some(dec("-1.5")));
    assert_eq!(dec("-1.5").abs(), dec("1.5"));
    assert!(dec("0.00").is_zero());
}

#[test]
fn exact_results_are_kept() {
    assert_eq!(dec("0.07") + dec("0.93"), dec("1"));
    assert_eq!(dec("0.07") - dec("0.93"), dec("-0.86"));
    assert_eq!(dec("-0.07") * dec("0.5"), dec("-0.035"));
    assert_eq!(dec("-0.035") / dec("-0.5"), dec("0.07"));
    // as far as the range goes
    let whole = Decimal::from_parts(39_614_081_257_132_168_796_771_975_167, 0).unwrap();
    assert_eq!(whole + whole + dec("1"), Decimal::max_value());
    assert_eq!(Decimal::max_value() / dec("1"), Decimal::max_value());
}

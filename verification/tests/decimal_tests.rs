use fundbot::decimal::{format_decimal, parse_decimal, DataError, Decimal};

#[test]
fn parse_whole_numbers() {
    assert_eq!(parse_decimal("0").unwrap().units, 0);
    assert_eq!(parse_decimal("1").unwrap().units, 10_000);
    assert_eq!(parse_decimal("100").unwrap().units, 1_000_000);
    assert_eq!(parse_decimal("40").unwrap().units, 400_000);
}

#[test]
fn parse_fractions() {
    assert_eq!(parse_decimal("1.5").unwrap().units, 15_000);
    assert_eq!(parse_decimal("0.0001").unwrap().units, 1);
    assert_eq!(parse_decimal("60.0001").unwrap().units, 600_001);
    assert_eq!(parse_decimal("0.99").unwrap().units, 9_900);
    assert_eq!(parse_decimal("1.01").unwrap().units, 10_100);
}

#[test]
fn parse_truncates_extra_fraction_digits() {
    assert_eq!(parse_decimal("12.34567").unwrap().units, 123_456);
    assert_eq!(parse_decimal("0.00009").unwrap().units, 0);
}

#[test]
fn parse_rejects_malformed_text() {
    assert_eq!(parse_decimal(""), Err(DataError::MalformedNumber));
    assert_eq!(parse_decimal("abc"), Err(DataError::MalformedNumber));
    assert_eq!(parse_decimal(".5"), Err(DataError::MalformedNumber));
    assert_eq!(parse_decimal("5."), Err(DataError::MalformedNumber));
    assert_eq!(parse_decimal("1..2"), Err(DataError::MalformedNumber));
    assert_eq!(parse_decimal("1.2.3"), Err(DataError::MalformedNumber));
    assert_eq!(parse_decimal("-1"), Err(DataError::MalformedNumber));
    assert_eq!(parse_decimal("1 "), Err(DataError::MalformedNumber));
}

#[test]
fn parse_rejects_out_of_range_values() {
    assert_eq!(
        parse_decimal("99999999999999999999"),
        Err(DataError::NumberTooLarge)
    );
    // largest representable value: u64::MAX units
    assert_eq!(
        parse_decimal("1844674407370955.1615").unwrap().units,
        u64::MAX
    );
    assert_eq!(
        parse_decimal("1844674407370955.1616"),
        Err(DataError::NumberTooLarge)
    );
}

#[test]
fn format_canonical() {
    assert_eq!(format_decimal(&Decimal { units: 0 }), "0");
    assert_eq!(format_decimal(&Decimal { units: 10_000 }), "1");
    assert_eq!(format_decimal(&Decimal { units: 15_000 }), "1.5");
    assert_eq!(format_decimal(&Decimal { units: 123_456 }), "12.3456");
    assert_eq!(format_decimal(&Decimal { units: 50 }), "0.005");
    assert_eq!(format_decimal(&Decimal { units: 310_000 }), "31");
}

#[test]
fn format_then_parse_is_identity() {
    for units in [0u64, 1, 9, 10, 10_000, 15_000, 310_000, 600_001, u64::MAX] {
        let text = format_decimal(&Decimal { units });
        assert_eq!(parse_decimal(&text).unwrap().units, units);
    }
}

#[test]
fn whole_part_truncates_to_currency_units() {
    assert_eq!(Decimal { units: 12_345_678 }.whole_part(), 1_234);
    assert_eq!(Decimal { units: 9_999 }.whole_part(), 0);
}

#[test]
fn checked_add_is_exact_and_guards_overflow() {
    let a = Decimal { units: 105_000 };
    let b = Decimal { units: 202_500 };
    assert_eq!(a.checked_add(&b).unwrap().units, 307_500);
    let max = Decimal { units: u64::MAX };
    assert!(max.checked_add(&Decimal { units: 1 }).is_none());
}

#[test]
fn truncate_frac_keeps_the_leading_digits() {
    let d = Decimal { units: 123_456 };
    assert_eq!(d.truncate_frac(3).units, 123_450);
    assert_eq!(d.truncate_frac(2).units, 123_400);
    assert_eq!(d.truncate_frac(0).units, 120_000);
    assert_eq!(format_decimal(&d.truncate_frac(3)), "12.345");
}

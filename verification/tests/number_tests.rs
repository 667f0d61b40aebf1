use minilang::number::Number;

fn literal(text: &str) -> Option<Number> {
    let chars: Vec<char> = text.chars().collect();
    Number::from_literal(&chars, 0, chars.len())
}

fn units(u: i64) -> Number {
    Number::from_units(u)
}

#[test]
fn literal_with_places() {
    assert_eq!(literal("3.14"), Some(units(3_140_000)));
    assert_eq!(literal("0.123"), Some(units(123_000)));
    assert_eq!(literal("42"), Some(units(42_000_000)));
    assert_eq!(literal("42."), Some(units(42_000_000)));
    assert_eq!(literal("42.0"), Some(units(42_000_000)));
    assert_eq!(literal("007"), Some(units(7_000_000)));
}

#[test]
fn literal_goes_to_the_nearest_millionth() {
    assert_eq!(literal("1.0000005"), Some(units(1_000_001)));
    assert_eq!(literal("1.00000049"), Some(units(1_000_000)));
    assert_eq!(literal("0.9999995"), Some(units(1_000_000)));
    assert_eq!(literal("0.1234567"), Some(units(123_457)));
}

#[test]
fn literal_inside_a_longer_text() {
    let chars: Vec<char> = "x = 12.5;".chars().collect();
    assert_eq!(Number::from_literal(&chars, 4, 8), Some(units(12_500_000)));
}

#[test]
fn literal_at_the_limit() {
    assert_eq!(literal("9223372036854.775807"), Some(units(i64::MAX)));
    assert_eq!(literal("9223372036854.775808"), None);
    assert_eq!(literal("9223372036854.7758069"), Some(units(i64::MAX)));
    assert_eq!(literal("9223372036855"), None);
    assert_eq!(literal("99999999999999999999999999999999999999999"), None);
}

#[test]
fn whole_numbers() {
    assert_eq!(Number::from_whole(7), units(7_000_000));
    assert_eq!(Number::from_whole(-3), units(-3_000_000));
    assert_eq!(Number::from_whole(i32::MIN).units(), -2_147_483_648_000_000);
    assert!(units(0).is_zero());
    assert!(!units(1).is_zero());
}

#[test]
fn sums_and_differences() {
    assert_eq!(units(5_000_000).checked_add(units(3_000_000)), Some(units(8_000_000)));
    assert_eq!(units(10_000_000).checked_sub(units(4_000_000)), Some(units(6_000_000)));
    assert_eq!(units(100_000).checked_add(units(200_000)), Some(units(300_000)));
    assert_eq!(units(i64::MAX).checked_add(units(1)), None);
    assert_eq!(units(i64::MIN).checked_sub(units(1)), None);
    assert_eq!(units(i64::MAX).checked_add(units(-1)), Some(units(i64::MAX - 1)));
}

#[test]
fn negation() {
    assert_eq!(units(5).checked_neg(), Some(units(-5)));
    assert_eq!(units(-5).checked_neg(), Some(units(5)));
    assert_eq!(units(i64::MAX).checked_neg(), Some(units(-i64::MAX)));
    assert_eq!(units(i64::MIN).checked_neg(), None);
}

#[test]
fn products() {
    assert_eq!(units(3_000_000).checked_mul(units(4_000_000)), Some(units(12_000_000)));
    assert_eq!(units(1_500_000).checked_mul(units(1_500_000)), Some(units(2_250_000)));
    assert_eq!(units(-1_500_000).checked_mul(units(1_500_000)), Some(units(-2_250_000)));
    assert_eq!(units(-2_000_000).checked_mul(units(-2_000_000)), Some(units(4_000_000)));
    assert_eq!(units(0).checked_mul(units(-2_000_000)), Some(units(0)));
}

#[test]
fn products_go_to_the_nearest_millionth() {
    // 0.000001 * 0.5 lies halfway between two neighbours: away from zero.
    assert_eq!(units(1).checked_mul(units(500_000)), Some(units(1)));
    assert_eq!(units(-1).checked_mul(units(500_000)), Some(units(-1)));
    assert_eq!(units(1).checked_mul(units(499_999)), Some(units(0)));
    assert_eq!(units(333_333).checked_mul(units(3_000_000)), Some(units(999_999)));
}

#[test]
fn products_out_of_range() {
    assert_eq!(units(9_000_000_000_000_000_000).checked_mul(units(2_000_000)), None);
    assert_eq!(units(i64::MIN).checked_mul(units(-1_000_000)), None);
    assert_eq!(units(i64::MIN).checked_mul(units(1_000_000)), Some(units(i64::MIN)));
    assert_eq!(units(i64::MAX).checked_mul(units(1_000_000)), Some(units(i64::MAX)));
}

#[test]
fn quotients() {
    assert_eq!(units(15_000_000).checked_div(units(3_000_000)), Some(units(5_000_000)));
    assert_eq!(units(1_000_000).checked_div(units(3_000_000)), Some(units(333_333)));
    assert_eq!(units(2_000_000).checked_div(units(3_000_000)), Some(units(666_667)));
    assert_eq!(units(-2_000_000).checked_div(units(3_000_000)), Some(units(-666_667)));
    assert_eq!(units(2_000_000).checked_div(units(-3_000_000)), Some(units(-666_667)));
    assert_eq!(units(-2_000_000).checked_div(units(-3_000_000)), Some(units(666_667)));
    assert_eq!(units(1_000_000).checked_div(units(2_000_000)), Some(units(500_000)));
    assert_eq!(units(1).checked_div(units(2_000_000)), Some(units(1)));
    assert_eq!(units(0).checked_div(units(-7)), Some(units(0)));
}

#[test]
fn quotients_out_of_range() {
    assert_eq!(units(i64::MAX).checked_div(units(1)), None);
    assert_eq!(units(i64::MIN).checked_div(units(-1_000_000)), None);
    assert_eq!(units(i64::MIN).checked_div(units(1_000_000)), Some(units(i64::MIN)));
}

#[test]
fn rounding_to_whole_numbers() {
    assert_eq!(units(3_700_000).checked_round(), Some(units(4_000_000)));
    assert_eq!(units(3_140_000).checked_round(), Some(units(3_000_000)));
    assert_eq!(units(2_500_000).checked_round(), Some(units(3_000_000)));
    assert_eq!(units(-2_500_000).checked_round(), Some(units(-3_000_000)));
    assert_eq!(units(-2_499_999).checked_round(), Some(units(-2_000_000)));
    assert_eq!(units(42_000_000).checked_round(), Some(units(42_000_000)));
    assert_eq!(units(499_999).checked_round(), Some(units(0)));
    assert_eq!(units(i64::MAX).checked_round(), None);
    assert_eq!(units(i64::MIN).checked_round(), None);
}

#[test]
fn rounding_keeps_whole_literals() {
    for text in ["0", "1", "42", "42.", "42.000", "1200", "9223372036854"] {
        let n = literal(text).unwrap();
        assert_eq!(n.checked_round(), Some(n));
    }
    let n = literal("3.14").unwrap();
    assert_ne!(n.checked_round(), Some(n));
}

#[test]
fn order_and_equality() {
    assert!(units(3_000_000).less_than(units(5_000_000)));
    assert!(!units(5_000_000).less_than(units(3_000_000)));
    assert!(!units(5).less_than(units(5)));
    assert!(units(-1).less_than(units(0)));
    assert!(units(5).same(units(5)));
    assert!(!units(5).same(units(6)));
}

#[test]
fn text_of_numbers() {
    assert_eq!(units(42_000_000).to_text(), "42");
    assert_eq!(units(3_140_000).to_text(), "3.14");
    assert_eq!(units(-500_000).to_text(), "-0.5");
    assert_eq!(units(1).to_text(), "0.000001");
    assert_eq!(units(-1).to_text(), "-0.000001");
    assert_eq!(units(0).to_text(), "0");
    assert_eq!(units(120_000_000).to_text(), "120");
    assert_eq!(units(1_000_100).to_text(), "1.0001");
    assert_eq!(units(123_456_789).to_text(), "123.456789");
    assert_eq!(units(i64::MAX).to_text(), "9223372036854.775807");
    assert_eq!(units(i64::MIN).to_text(), "-9223372036854.775808");
}

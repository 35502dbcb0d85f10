use bank_budget::dates::{current_month_window, current_month_window_now};
use bank_budget::digits::{i64_to_string, two_digit_string, u64_to_string};
use bank_budget::money::{format_cents, parse_cents};

#[test]
fn renders_unsigned_decimals() {
    assert_eq!(u64_to_string(0).as_str(), "0");
    assert_eq!(u64_to_string(7).as_str(), "7");
    assert_eq!(u64_to_string(2024).as_str(), "2024");
    assert_eq!(u64_to_string(1000000).as_str(), "1000000");
}

#[test]
fn renders_signed_decimals() {
    assert_eq!(i64_to_string(-45).as_str(), "-45");
    assert_eq!(i64_to_string(45).as_str(), "45");
    assert_eq!(i64_to_string(0).as_str(), "0");
}

#[test]
fn renders_two_digit_padding() {
    assert_eq!(two_digit_string(5).as_str(), "05");
    assert_eq!(two_digit_string(12).as_str(), "12");
    assert_eq!(two_digit_string(0).as_str(), "00");
}

#[test]
fn parses_plain_amounts() {
    assert_eq!(parse_cents("30.00"), 3000);
    assert_eq!(parse_cents("-50.00"), -5000);
    assert_eq!(parse_cents("0.00"), 0);
    assert_eq!(parse_cents("7"), 700);
    assert_eq!(parse_cents("12.3"), 1230);
    assert_eq!(parse_cents("-0.05"), -5);
}

#[test]
fn malformed_amounts_default_to_zero() {
    assert_eq!(parse_cents(""), 0);
    assert_eq!(parse_cents("abc"), 0);
    assert_eq!(parse_cents("-"), 0);
    assert_eq!(parse_cents("1.2.3"), 0);
    assert_eq!(parse_cents("12."), 0);
    assert_eq!(parse_cents(".5"), 0);
    assert_eq!(parse_cents("1.234"), 0);
    assert_eq!(parse_cents("12345678901234"), 0);
}

#[test]
fn formats_cents_for_display() {
    assert_eq!(format_cents(3000).as_str(), "30.00");
    assert_eq!(format_cents(-5000).as_str(), "-50.00");
    assert_eq!(format_cents(0).as_str(), "0.00");
    assert_eq!(format_cents(305).as_str(), "3.05");
    assert_eq!(format_cents(-7).as_str(), "-0.07");
}

#[test]
fn amount_strings_round_trip() {
    for cents in [-123456_i64, -100, -1, 0, 1, 99, 100, 250099] {
        assert_eq!(parse_cents(format_cents(cents).as_str()), cents);
    }
}

#[test]
fn window_of_an_ordinary_month() {
    let w = current_month_window(2024, 5);
    assert_eq!(w.start.as_str(), "2024-05-01T00:00:00Z");
    assert_eq!(w.end.as_str(), "2024-06-01T00:00:00Z");
}

#[test]
fn december_rolls_the_year_forward() {
    let w = current_month_window(2024, 12);
    assert_eq!(w.start.as_str(), "2024-12-01T00:00:00Z");
    assert_eq!(w.end.as_str(), "2025-01-01T00:00:00Z");
}

#[test]
fn window_from_the_clock_has_month_shape() {
    let w = current_month_window_now();
    assert!(w.start.ends_with("-01T00:00:00Z"));
    assert!(w.end.ends_with("-01T00:00:00Z"));
    assert_ne!(w.start, w.end);
}

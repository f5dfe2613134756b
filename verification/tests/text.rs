use tracing_profile::text::{push_decimal, push_duration, push_fixed2, push_signed, rounded_div, str_eq, str_lt};

fn decimal(n: u128) -> String {
    let mut s = String::new();
    push_decimal(&mut s, n);
    s
}

fn duration(n: u64) -> String {
    let mut s = String::new();
    push_duration(&mut s, n);
    s
}

fn fixed2(n: u128) -> String {
    let mut s = String::new();
    push_fixed2(&mut s, n);
    s
}

#[test]
fn decimal_digits_of_small_and_large_numbers() {
    assert_eq!(decimal(0), "0");
    assert_eq!(decimal(7), "7");
    assert_eq!(decimal(10), "10");
    assert_eq!(decimal(1234567890), "1234567890");
    assert_eq!(decimal(u64::MAX as u128), "18446744073709551615");
    assert_eq!(decimal(u128::MAX), "340282366920938463463374607431768211455");
}

#[test]
fn decimal_appends_to_what_is_there() {
    let mut s = String::from("n=");
    push_decimal(&mut s, 42);
    assert_eq!(s, "n=42");
}

#[test]
fn signed_numbers_carry_a_minus() {
    let mut s = String::new();
    push_signed(&mut s, -15);
    assert_eq!(s, "-15");
    let mut s = String::new();
    push_signed(&mut s, 15);
    assert_eq!(s, "15");
    let mut s = String::new();
    push_signed(&mut s, 0);
    assert_eq!(s, "0");
    let mut s = String::new();
    push_signed(&mut s, i64::MIN);
    assert_eq!(s, "-9223372036854775808");
    let mut s = String::new();
    push_signed(&mut s, i64::MAX);
    assert_eq!(s, "9223372036854775807");
}

#[test]
fn fixed_point_has_two_places() {
    assert_eq!(fixed2(0), "0.00");
    assert_eq!(fixed2(7), "0.07");
    assert_eq!(fixed2(70), "0.70");
    assert_eq!(fixed2(12345), "123.45");
    assert_eq!(fixed2(10000), "100.00");
}

#[test]
fn durations_pick_their_unit() {
    assert_eq!(duration(0), "0.00ns");
    assert_eq!(duration(5), "5.00ns");
    assert_eq!(duration(999), "999.00ns");
    assert_eq!(duration(1_000), "1.00µs");
    assert_eq!(duration(2_880), "2.88µs");
    assert_eq!(duration(123_790), "123.79µs");
    assert_eq!(duration(51_000), "51.00µs");
    assert_eq!(duration(1_000_000), "1.00ms");
    assert_eq!(duration(100_000_000), "100.00ms");
    assert_eq!(duration(1_000_000_000), "1.00s");
    assert_eq!(duration(1_500_000_000), "1.50s");
}

#[test]
fn durations_round_to_the_nearest_and_ties_to_even() {
    assert_eq!(duration(1_234), "1.23µs");
    assert_eq!(duration(1_235), "1.24µs");
    assert_eq!(duration(1_236), "1.24µs");
    assert_eq!(duration(1_005), "1.00µs");
    assert_eq!(duration(1_015), "1.02µs");
    assert_eq!(duration(1_025), "1.02µs");
    assert_eq!(duration(999_999), "1000.00µs");
    assert_eq!(duration(999_994), "999.99µs");
    assert_eq!(duration(1_999_999_999), "2.00s");
    assert_eq!(duration(u64::MAX), "18446744073.71s");
}

#[test]
fn durations_agree_with_the_standard_library() {
    for n in [0u64, 1, 999, 1_000, 1_004, 1_005, 12_345, 999_999, 1_000_000, 1_234_567, 999_995_000,
        999_999_999, 1_000_000_000, 1_994_999_999, 1_995_000_000, 59_999_999_999, u64::MAX]
    {
        let expected = format!("{:.2?}", std::time::Duration::from_nanos(n));
        assert_eq!(duration(n), expected);
    }
}

#[test]
fn strings_are_ordered_by_character() {
    assert!(str_lt("a", "b"));
    assert!(!str_lt("b", "a"));
    assert!(!str_lt("a", "a"));
    assert!(str_lt("", "a"));
    assert!(!str_lt("a", ""));
    assert!(!str_lt("", ""));
    assert!(str_lt("ab", "abc"));
    assert!(!str_lt("abc", "ab"));
    assert!(str_lt("Z", "a"));
    assert!(str_lt("z", "é"));
    assert!(str_lt("é", "€"));
}

#[test]
fn string_order_agrees_with_the_standard_library() {
    let words = ["", "a", "ab", "abc", "b", "index", "Index", "é", "€", "z", "field1", "field10", "field2"];
    for a in words {
        for b in words {
            assert_eq!(str_lt(a, b), a < b);
            assert_eq!(str_eq(a, b), a == b);
        }
    }
}

#[test]
fn division_rounds_to_the_nearest_and_ties_to_even() {
    assert_eq!(rounded_div(0, 7), 0);
    assert_eq!(rounded_div(10, 4), 2);
    assert_eq!(rounded_div(14, 4), 4);
    assert_eq!(rounded_div(11, 4), 3);
    assert_eq!(rounded_div(9, 4), 2);
    assert_eq!(rounded_div(12, 4), 3);
    assert_eq!(rounded_div(5, 1), 5);
}

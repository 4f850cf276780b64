use dex_trades::numeric::{parse_i128_or_zero, sat_add, sat_sub};
use dex_trades::text::{i128_to_string, str_eq, to_ascii_lower};

#[test]
fn parses_plain_decimals() {
    assert_eq!(parse_i128_or_zero("0"), 0);
    assert_eq!(parse_i128_or_zero("123"), 123);
    assert_eq!(parse_i128_or_zero("-45"), -45);
    assert_eq!(parse_i128_or_zero("+7"), 7);
}

#[test]
fn parses_extreme_values() {
    assert_eq!(
        parse_i128_or_zero("170141183460469231731687303715884105727"),
        i128::MAX
    );
    assert_eq!(
        parse_i128_or_zero("-170141183460469231731687303715884105728"),
        i128::MIN
    );
}

#[test]
fn non_numeric_yields_zero() {
    assert_eq!(parse_i128_or_zero(""), 0);
    assert_eq!(parse_i128_or_zero("abc"), 0);
    assert_eq!(parse_i128_or_zero("12x"), 0);
    assert_eq!(parse_i128_or_zero("-"), 0);
    assert_eq!(parse_i128_or_zero("+"), 0);
    assert_eq!(parse_i128_or_zero("1.5"), 0);
    assert_eq!(parse_i128_or_zero(" 12"), 0);
}

#[test]
fn overflowing_yields_zero() {
    assert_eq!(
        parse_i128_or_zero("170141183460469231731687303715884105728"),
        0
    );
    assert_eq!(
        parse_i128_or_zero("-170141183460469231731687303715884105729"),
        0
    );
    assert_eq!(
        parse_i128_or_zero("999999999999999999999999999999999999999999999999999"),
        0
    );
}

#[test]
fn delta_is_exact_in_wide_domain() {
    // post - pre, exact well past 10^30
    let pre = parse_i128_or_zero("1000000000000000000000000000000");
    let post = parse_i128_or_zero("999999999999999999999999999999");
    assert_eq!(sat_sub(post, pre), -1);
    assert_eq!(sat_sub(80, 100), -20);
    assert_eq!(sat_add(-100, 80), -20);
}

#[test]
fn saturation_at_the_edges() {
    assert_eq!(sat_add(i128::MAX, 1), i128::MAX);
    assert_eq!(sat_sub(i128::MIN, 1), i128::MIN);
    assert_eq!(sat_add(i128::MIN, -1), i128::MIN);
}

#[test]
fn renders_decimals() {
    assert_eq!(i128_to_string(0), "0");
    assert_eq!(i128_to_string(-20), "-20");
    assert_eq!(i128_to_string(20), "20");
    assert_eq!(i128_to_string(i128::MAX), "170141183460469231731687303715884105727");
    assert_eq!(i128_to_string(i128::MIN), "-170141183460469231731687303715884105728");
}

#[test]
fn formatted_amounts_parse_back() {
    for v in [0i128, 7, -20, 12345678901234567890, i128::MAX, i128::MIN] {
        assert_eq!(parse_i128_or_zero(&i128_to_string(v)), v);
    }
}

#[test]
fn string_helpers() {
    assert!(str_eq("abc", "abc"));
    assert!(!str_eq("abc", "abd"));
    assert!(!str_eq("abc", "ab"));
    assert_eq!(to_ascii_lower("0xAaBbF9"), "0xaabbf9");
    assert_eq!(to_ascii_lower("xyz-7"), "xyz-7");
}

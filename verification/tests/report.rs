use networking_basic::report::append_fixed;
use networking_basic::report::append_point;
use networking_basic::report::decimal_text;
use networking_basic::types::Vector2;

fn fixed(n: i64) -> String {
    let mut text = String::new();
    append_fixed(&mut text, n);
    text
}

#[test]
fn decimal_text_has_no_leading_zeros() {
    assert_eq!(decimal_text(0), "0");
    assert_eq!(decimal_text(7), "7");
    assert_eq!(decimal_text(10), "10");
    assert_eq!(decimal_text(1_234_567_890), "1234567890");
    assert_eq!(decimal_text(u64::MAX), "18446744073709551615");
}

#[test]
fn fixed_point_values_show_two_places() {
    assert_eq!(fixed(0), "0.00");
    assert_eq!(fixed(1_000_000), "1.00");
    assert_eq!(fixed(16_000), "0.02");
    assert_eq!(fixed(4_999), "0.00");
    assert_eq!(fixed(5_000), "0.01");
    assert_eq!(fixed(-5_000), "-0.01");
    assert_eq!(fixed(-1), "-0.00");
    assert_eq!(fixed(-123_456_789), "-123.46");
    assert_eq!(fixed(99_995_000), "100.00");
    assert_eq!(fixed(i64::MAX), "9223372036854.78");
    assert_eq!(fixed(i64::MIN), "-9223372036854.78");
}

#[test]
fn points_show_both_coordinates() {
    let mut text = String::from("at ");
    append_point(&mut text, Vector2 { x: 9_500_000, y: -500_000 });
    assert_eq!(text, "at (9.50, -0.50)");
}

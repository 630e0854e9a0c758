use issue_relay::color::{issue_color, parse_color, MAX_COLOR};
use issue_relay::github_dtos::Label;

fn label(color: &str) -> Label {
    Label { name: "bug".to_string(), color: color.to_string() }
}

#[test]
fn six_hex_digits_are_read_as_a_number() {
    assert_eq!(parse_color("d73a4a"), 0xd73a4a);
    assert_eq!(parse_color("d73a4a"), 14105162);
    assert_eq!(parse_color("D73A4A"), 14105162);
    assert_eq!(parse_color("000000"), 0);
    assert_eq!(parse_color("ffffff"), 0xFF_FFFF);
    assert_eq!(parse_color("0052cc"), 0x0052cc);
}

#[test]
fn shorter_and_padded_numbers_are_read_too() {
    assert_eq!(parse_color("f"), 15);
    assert_eq!(parse_color("10"), 16);
    assert_eq!(parse_color("0000000000ff"), 255);
    assert_eq!(parse_color("0ffffff"), MAX_COLOR);
}

#[test]
fn empty_and_non_hex_colors_are_zero() {
    assert_eq!(parse_color(""), 0);
    assert_eq!(parse_color("red"), 0);
    assert_eq!(parse_color("d73a4g"), 0);
    assert_eq!(parse_color("#d73a4a"), 0);
    assert_eq!(parse_color("0xd73a4a"), 0);
    assert_eq!(parse_color(" d73a4a"), 0);
    assert_eq!(parse_color("d73a4a "), 0);
    assert_eq!(parse_color("+ff"), 0);
    assert_eq!(parse_color("-1"), 0);
    assert_eq!(parse_color("ｆｆ"), 0);
    assert_eq!(parse_color("d7é"), 0);
    assert_eq!(parse_color("/"), 0);
    assert_eq!(parse_color(":"), 0);
    assert_eq!(parse_color("@"), 0);
    assert_eq!(parse_color("G"), 0);
    assert_eq!(parse_color("`"), 0);
    assert_eq!(parse_color("g"), 0);
}

#[test]
fn numbers_above_the_greatest_color_are_zero() {
    assert_eq!(parse_color("1000000"), 0);
    assert_eq!(parse_color("ffffffff"), 0);
    assert_eq!(parse_color("ffffffffffffffffffffffffffffffffffffffff"), 0);
}

#[test]
fn every_digit_has_its_value() {
    let digits = "0123456789abcdef";
    for (value, digit) in digits.chars().enumerate() {
        assert_eq!(parse_color(&digit.to_string()), value as i64);
        assert_eq!(parse_color(&digit.to_uppercase().to_string()), value as i64);
    }
}

#[test]
fn color_agrees_with_the_standard_reading_of_six_digits() {
    let mut seed: u32 = 0x2545_f491;
    for _ in 0..500 {
        seed = seed.wrapping_mul(1_664_525).wrapping_add(1_013_904_223);
        let text = format!("{:06x}", seed >> 8);
        assert_eq!(parse_color(&text), i64::from_str_radix(&text, 16).unwrap());
    }
}

#[test]
fn an_issue_has_the_color_of_its_first_label() {
    assert_eq!(issue_color(&vec![]), 0);
    assert_eq!(issue_color(&vec![label("d73a4a")]), 14105162);
    assert_eq!(issue_color(&vec![label("0000ff"), label("d73a4a")]), 255);
    assert_eq!(issue_color(&vec![label("nothing"), label("d73a4a")]), 0);
    assert_eq!(issue_color(&vec![label("")]), 0);
}

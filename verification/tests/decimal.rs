use std::str::FromStr;

use calculator::entities::literal::decimal::Decimal;
use calculator::entities::literal::Literal;
use rust_decimal::MathematicalOps;

fn decimal(mantissa: i128, scale: u32) -> Decimal {
    Decimal::from_parts(mantissa, scale).unwrap()
}

fn outside(value: Decimal) -> rust_decimal::Decimal {
    rust_decimal::Decimal::from_i128_with_scale(value.mantissa(), value.scale())
}

fn read(text: &str) -> rust_decimal::Decimal {
    rust_decimal::Decimal::from_str(text).unwrap()
}

#[test]
fn parts_are_kept() {
    let value = decimal(-3141, 3);
    assert_eq!(value.mantissa(), -3141);
    assert_eq!(value.scale(), 3);
    assert_eq!(outside(value), read("-3.141"));
}

#[test]
fn parts_out_of_range_are_refused() {
    let bound: i128 = 1 << 96;
    assert!(Decimal::from_parts(bound - 1, 0).is_some());
    assert!(Decimal::from_parts(1 - bound, 28).is_some());
    assert!(Decimal::from_parts(bound, 0).is_none());
    assert!(Decimal::from_parts(-bound, 0).is_none());
    assert!(Decimal::from_parts(i128::MAX, 0).is_none());
    assert!(Decimal::from_parts(i128::MIN, 0).is_none());
    assert!(Decimal::from_parts(1, 28).is_some());
    assert!(Decimal::from_parts(1, 29).is_none());
    assert!(Decimal::from_parts(0, u32::MAX).is_none());
}

#[test]
fn parse_plain_numerals() {
    assert_eq!(Decimal::parse("65279"), Some(decimal(65279, 0)));
    assert_eq!(Decimal::parse("3.1415927"), Some(decimal(31415927, 7)));
    assert_eq!(Decimal::parse("-5"), Some(decimal(-5, 0)));
    assert_eq!(Decimal::parse("4.50"), Some(decimal(450, 2)));
    assert_eq!(Decimal::parse("0"), Some(decimal(0, 0)));
}

#[test]
fn parse_scientific_numerals() {
    assert_eq!(outside(Decimal::parse("1e10").unwrap()), read("10000000000"));
    assert_eq!(outside(Decimal::parse("1e-10").unwrap()), read("0.0000000001"));
    assert_eq!(outside(Decimal::parse("3.1415927e10").unwrap()), read("31415927000"));
    assert_eq!(outside(Decimal::parse("-2.5e-3").unwrap()), read("-0.0025"));
    assert_eq!(
        outside(Decimal::parse("1e10").unwrap()),
        rust_decimal::Decimal::from_scientific("1e10").unwrap()
    );
}

#[test]
fn parse_numerals_with_a_capital_exponent_letter() {
    assert_eq!(outside(Decimal::parse("1E10").unwrap()), read("10000000000"));
    assert_eq!(outside(Decimal::parse("-2.5E-3").unwrap()), read("-0.0025"));
    assert_eq!(
        Decimal::parse("1E10").map(outside),
        rust_decimal::Decimal::from_scientific("1E10").ok()
    );
    for numeral in ["1e10", "1e-10", "3.1415927e10", "-2.5e-3", "1.5e-27", "7e0"] {
        assert_eq!(Decimal::parse(&numeral.to_uppercase()), Decimal::parse(numeral));
    }
}

#[test]
fn both_exponent_letters_are_read_in_the_same_way() {
    // One place too many for the scale: refused, not rounded.
    assert_eq!(Decimal::parse("1.5e-28"), None);
    assert_eq!(Decimal::parse("1.5E-28"), None);
    assert_eq!(Decimal::parse("1e29"), None);
    assert_eq!(Decimal::parse("1E29"), None);
    assert_eq!(Decimal::parse("1.5e-27"), Some(decimal(15, 28)));
    assert_eq!(Decimal::parse("1.5E-27"), Some(decimal(15, 28)));
}

#[test]
fn parse_refuses_what_is_no_decimal_number() {
    assert_eq!(Decimal::parse(""), None);
    assert_eq!(Decimal::parse("abc"), None);
    assert_eq!(Decimal::parse("1e"), None);
    assert_eq!(Decimal::parse("e5"), None);
    assert_eq!(Decimal::parse("1e100"), None);
    assert_eq!(Decimal::parse("1e-100"), None);
    assert_eq!(Decimal::parse("1e29"), None);
}

#[test]
fn abs_is_that_of_rust_decimal() {
    for value in [decimal(-5, 0), decimal(5, 3), decimal(0, 7), decimal(1 - (1 << 96), 28)] {
        let theirs = outside(value).abs();
        let ours = value.abs().unwrap();
        assert_eq!((ours.mantissa(), ours.scale()), (theirs.mantissa(), theirs.scale()));
    }
}

#[test]
fn abs_clears_the_sign() {
    assert_eq!(decimal(-5, 0).abs(), Some(decimal(5, 0)));
    assert_eq!(decimal(5, 0).abs(), Some(decimal(5, 0)));
    assert_eq!(decimal(-3141, 3).abs(), Some(decimal(3141, 3)));
    assert_eq!(decimal(0, 2).abs(), Some(decimal(0, 2)));
}

#[test]
fn arithmetic_is_that_of_rust_decimal() {
    let pairs = [
        (decimal(2, 0), decimal(2, 0)),
        (decimal(45, 1), decimal(2, 0)),
        (decimal(100, 0), decimal(12, 0)),
        (decimal(-7, 0), decimal(3, 0)),
        (decimal(1, 28), decimal(3, 0)),
    ];
    for (a, b) in pairs {
        assert_eq!(a.add(&b).map(outside), outside(a).checked_add(outside(b)));
        assert_eq!(a.sub(&b).map(outside), outside(a).checked_sub(outside(b)));
        assert_eq!(a.mul(&b).map(outside), outside(a).checked_mul(outside(b)));
        assert_eq!(a.div(&b).map(outside), outside(a).checked_div(outside(b)));
    }
}

#[test]
fn arithmetic_on_small_numbers_is_exact() {
    assert_eq!(decimal(2, 0).add(&decimal(2, 0)), Some(decimal(4, 0)));
    assert_eq!(decimal(45, 1).sub(&decimal(2, 0)), Some(decimal(25, 1)));
    assert_eq!(decimal(100, 0).mul(&decimal(12, 0)), Some(decimal(1200, 0)));
    assert_eq!(outside(decimal(1, 0).div(&decimal(4, 0)).unwrap()), read("0.25"));
}

#[test]
fn overflow_has_no_result() {
    let largest = decimal((1 << 96) - 1, 0);
    assert_eq!(largest.add(&decimal(1, 0)), None);
    assert_eq!(largest.mul(&decimal(2, 0)), None);
    assert_eq!(decimal(1 - (1 << 96), 0).sub(&decimal(1, 0)), None);
    assert_eq!(largest.div(&decimal(1, 1)), None);
}

#[test]
fn division_by_zero_has_no_result() {
    assert_eq!(decimal(1, 0).div(&decimal(0, 0)), None);
    assert_eq!(decimal(-1, 0).div(&decimal(0, 0)), None);
    assert_eq!(decimal(0, 0).div(&decimal(0, 0)), None);
    assert_eq!(decimal(1, 0).div(&decimal(0, 5)), None);
}

#[test]
fn square_root() {
    assert_eq!(outside(decimal(9, 0).sqrt().unwrap()), read("3"));
    assert_eq!(decimal(0, 0).sqrt(), Some(decimal(0, 0)));
    assert_eq!(decimal(0, 5).sqrt(), Some(decimal(0, 0)));
    assert_eq!(outside(decimal(4, 0).sqrt().unwrap()), read("2"));
    assert_eq!(outside(decimal(225, 2).sqrt().unwrap()), read("1.5"));
    assert_eq!(decimal(-1, 0).sqrt(), None);
    assert_eq!(decimal(-1, 28).sqrt(), None);
}

#[test]
fn square_root_is_that_of_rust_decimal_where_it_has_one() {
    let values = [
        decimal(1000, 0),
        decimal(2, 0),
        decimal(1, 0),
        decimal(1, 28),
        decimal(3, 28),
        decimal(123456789, 4),
        decimal((1 << 96) - 1, 0),
        decimal((1 << 96) - 1, 28),
        decimal(31415926535897932384626433833, 28),
    ];
    for value in values {
        let root = value.sqrt().unwrap();
        let theirs = outside(value).sqrt().unwrap();
        assert_eq!(outside(root), theirs);
        assert_eq!((root.mantissa(), root.scale()), (theirs.mantissa(), theirs.scale()));
    }
}

#[test]
fn square_root_that_does_not_settle_has_no_result() {
    // The estimates go back and forth between 2 and 2.0000000000000000000000000001.
    let value = decimal(40000000000000000000000000003, 28);
    assert_eq!(value.sqrt(), None);
}

#[test]
fn power() {
    let eight = outside(decimal(2, 0).pow(&decimal(3, 0)).unwrap());
    assert_eq!(eight.round_dp(6), read("8"));
    assert_eq!(
        eight,
        (rust_decimal::Decimal::from(3) * rust_decimal::Decimal::from(2).ln()).exp()
    );
    let root = outside(decimal(4, 0).pow(&decimal(5, 1)).unwrap());
    assert_eq!(root.round_dp(6), read("2"));
}

#[test]
fn power_without_a_result() {
    // A negative base.
    assert_eq!(decimal(-2, 0).pow(&decimal(2, 0)), None);
    // A base of zero, which has no logarithm.
    assert_eq!(decimal(0, 0).pow(&decimal(2, 0)), None);
    // An overflow.
    assert_eq!(decimal(5, 0).pow(&decimal(512, 0)), None);
}

#[test]
fn degrees_to_radians() {
    assert_eq!(outside(decimal(180, 0).to_radians().unwrap()), rust_decimal::Decimal::PI);
    assert_eq!(outside(decimal(0, 0).to_radians().unwrap()), read("0"));
    assert_eq!(
        outside(decimal(45, 0).to_radians().unwrap()),
        read("0.25") * rust_decimal::Decimal::PI
    );
    assert_eq!(
        outside(decimal(-90, 0).to_radians().unwrap()),
        read("-0.5") * rust_decimal::Decimal::PI
    );
}

#[test]
fn trigonometric_functions_go_through_floating_point() {
    let one = decimal(1, 0);
    assert_eq!(
        one.sin().map(outside),
        rust_decimal::Decimal::try_from(1_f64.sin()).ok()
    );
    assert_eq!(
        one.cos().map(outside),
        rust_decimal::Decimal::try_from(1_f64.cos()).ok()
    );
    assert_eq!(
        one.tg().map(outside),
        rust_decimal::Decimal::try_from(1_f64.tan()).ok()
    );
    assert_eq!(
        one.ctg().map(outside),
        rust_decimal::Decimal::try_from(1_f64.tan().powi(-1)).ok()
    );
    assert_eq!(outside(decimal(0, 0).sin().unwrap()), read("0"));
    assert_eq!(outside(decimal(0, 0).cos().unwrap()), read("1"));
    assert_eq!(outside(decimal(0, 0).tg().unwrap()), read("0"));
}

#[test]
fn cotangent_of_zero_has_no_result() {
    assert_eq!(decimal(0, 0).ctg(), None);
}

#[test]
fn text_of_a_value() {
    assert_eq!(decimal(-3141, 3).to_text(), "-3.141");
    assert_eq!(decimal(5, 0).to_text(), "5");
    assert_eq!(decimal(450, 2).to_text(), "4.50");
    assert_eq!(decimal(1, 10).to_text(), "0.0000000001");
}

#[test]
fn text_of_a_parsed_numeral_parses_to_the_same_value() {
    let numerals = [
        "0", "65279", "-5", "3.1415927", "-0.5", "4.50", "1e10", "1e-10", "3.1415927e10",
        "-2.5e-3", "0.0000000000000000000000000001", "79228162514264337593543950335",
    ];
    for numeral in numerals {
        let value = Decimal::parse(numeral).unwrap();
        let again = Decimal::parse(&value.to_text()).unwrap();
        assert_eq!(outside(again), outside(value));
    }
}

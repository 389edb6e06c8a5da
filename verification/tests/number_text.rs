use kg::number_text::{display_number, fixed6_number};

#[test]
fn numbers_print_plainly() {
    assert_eq!(display_number("0.50"), "0.5");
    assert_eq!(display_number("5.0"), "5");
    assert_eq!(display_number("007"), "7");
    assert_eq!(display_number("-0.0"), "-0");
    assert_eq!(display_number("+.25"), "0.25");
    assert_eq!(display_number("Infinity"), "inf");
    assert_eq!(display_number("-inf"), "-inf");
    assert_eq!(display_number("nan"), "NaN");
    assert_eq!(display_number("1e3"), "1e3");
}

#[test]
fn numbers_print_with_six_decimals() {
    assert_eq!(fixed6_number("0.11"), "0.110000");
    assert_eq!(fixed6_number("0.2"), "0.200000");
    assert_eq!(fixed6_number("3"), "3.000000");
    assert_eq!(fixed6_number("0.1234567"), "0.123457");
    assert_eq!(fixed6_number("0.1234564"), "0.123456");
    assert_eq!(fixed6_number("9.9999996"), "10.000000");
    assert_eq!(fixed6_number("-1.5"), "-1.500000");
    assert_eq!(fixed6_number("inf"), "inf");
}

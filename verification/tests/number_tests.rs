use fieldparse::number::{is_real, parse_i32, parse_u8};

const SAMPLES: [&str; 74] = [
    "", " ", "0", "7", "23", "007", "+5", "-5", "+", "-", "+-5", "-+5", "--5", "++5", " 23", "23 ",
    "2 3", "12a", "a12", "1_000", "0x10", "2147483647", "2147483648", "-2147483648", "-2147483649",
    "+2147483647", "+2147483648", "00000000000000000000000000000042", "99999999999999999999999",
    "-99999999999999999999999", "255", "256", "+255", "+256", "-0", "+0", "-1", "1.0", "1.", ".5",
    ".", "+.5", "-.5e3", "1e5", "1E5", "1e+5", "1e-5", "1e", "1e+", "e5", "1.e5", "1.5e", ".e5",
    "58.836", "39.331", "40.265", "inf", "+inf", "-inf", "INF", "Infinity", "-INFINITY", "infinit",
    "infinityy", "nan", "NaN", "-nan", "+NAN", "nana", "in", "1.2.3", "1e5.0", "１２", "٣",
];

#[test]
fn parse_i32_reads_decimal_integers() {
    assert_eq!(parse_i32("23"), Some(23));
    assert_eq!(parse_i32("007"), Some(7));
    assert_eq!(parse_i32("+5"), Some(5));
    assert_eq!(parse_i32("-5"), Some(-5));
    assert_eq!(parse_i32("-0"), Some(0));
    assert_eq!(parse_i32("2147483647"), Some(i32::MAX));
    assert_eq!(parse_i32("-2147483648"), Some(i32::MIN));
}

#[test]
fn parse_i32_refuses_anything_else() {
    assert_eq!(parse_i32(""), None);
    assert_eq!(parse_i32("+"), None);
    assert_eq!(parse_i32("-"), None);
    assert_eq!(parse_i32("   23"), None);
    assert_eq!(parse_i32("23 "), None);
    assert_eq!(parse_i32("12a"), None);
    assert_eq!(parse_i32("1.0"), None);
    assert_eq!(parse_i32("2147483648"), None);
    assert_eq!(parse_i32("-2147483649"), None);
    assert_eq!(parse_i32("99999999999999999999999"), None);
}

#[test]
fn parse_i32_agrees_with_std() {
    for s in SAMPLES {
        assert_eq!(parse_i32(s), s.parse::<i32>().ok(), "on {:?}", s);
    }
}

#[test]
fn parse_u8_reads_decimal_integers() {
    assert_eq!(parse_u8("0"), Some(0));
    assert_eq!(parse_u8("255"), Some(255));
    assert_eq!(parse_u8("+7"), Some(7));
    assert_eq!(parse_u8("0000255"), Some(255));
}

#[test]
fn parse_u8_refuses_anything_else() {
    assert_eq!(parse_u8(""), None);
    assert_eq!(parse_u8(" "), None);
    assert_eq!(parse_u8("+"), None);
    assert_eq!(parse_u8("256"), None);
    assert_eq!(parse_u8("-0"), None);
    assert_eq!(parse_u8("-1"), None);
    assert_eq!(parse_u8("1a"), None);
}

#[test]
fn parse_u8_agrees_with_std() {
    for s in SAMPLES {
        assert_eq!(parse_u8(s), s.parse::<u8>().ok(), "on {:?}", s);
    }
}

#[test]
fn is_real_accepts_numerals() {
    for s in ["0", "58.836", "-39.331", "+40.265", "1.", ".5", "1e5", "1E-5", "1.5e+10", "inf",
        "-Infinity", "NaN"] {
        assert!(is_real(s), "on {:?}", s);
    }
}

#[test]
fn is_real_refuses_anything_else() {
    for s in ["", " ", ".", "+", "-", "e5", "1e", "1e+", "1.2.3", " 1.0", "1.0 ", "1,0", "infinit",
        "nana", "0x10"] {
        assert!(!is_real(s), "on {:?}", s);
    }
}

#[test]
fn is_real_agrees_with_std() {
    for s in SAMPLES {
        assert_eq!(is_real(s), s.parse::<f64>().is_ok(), "on {:?}", s);
    }
}

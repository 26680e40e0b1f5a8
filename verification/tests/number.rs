use toml_example_derive::number::{is_digit, is_float_text, is_signed_text, is_unsigned_text};

const TEXTS: [&str; 60] = [
    "", "+", "-", "0", "00", "7", "+7", "-7", "-0", "+0", "++1", "--1", "+-1", "12a", "a", " 1", "1 ",
    "1_0", "340282366920938463463374607431768211455", "340282366920938463463374607431768211456",
    "0340282366920938463463374607431768211455", "999999999999999999999999999999999999999999",
    "170141183460469231731687303715884105727", "170141183460469231731687303715884105728",
    "-170141183460469231731687303715884105728", "-170141183460469231731687303715884105729",
    "1.5", "1.", ".5", ".", "+.5", "-.", "1e5", "1E5", "1e+5", "1e-5", "1e", "e5", "1.e5", ".5e5",
    ".e5", "1.5.5", "1e5.5", "inf", "-inf", "+inf", "INF", "Infinity", "infinit", "nan", "NaN",
    "-nan", "nane", "1e+", "0x10", "1e5e5", "\u{661}", "1\u{661}", "in", "infinityy",
];

#[test]
fn reads_unsigned_integers() {
    for text in TEXTS {
        assert_eq!(is_unsigned_text(text), text.parse::<u128>().is_ok(), "{}", text);
    }
}

#[test]
fn reads_signed_integers() {
    for text in TEXTS {
        assert_eq!(is_signed_text(text), text.parse::<i128>().is_ok(), "{}", text);
    }
}

#[test]
fn reads_floats() {
    for text in TEXTS {
        assert_eq!(is_float_text(text), text.parse::<f64>().is_ok(), "{}", text);
    }
}

#[test]
fn integers_are_floats() {
    for text in TEXTS {
        assert!(!(is_unsigned_text(text) || is_signed_text(text)) || is_float_text(text));
    }
}

#[test]
fn small_unsigned_integers_are_signed() {
    assert!(is_unsigned_text("170141183460469231731687303715884105727"));
    assert!(is_signed_text("170141183460469231731687303715884105727"));
    assert!(!is_signed_text("170141183460469231731687303715884105728"));
}

#[test]
fn digits_are_those_of_ascii() {
    assert!(is_digit('0') && is_digit('9'));
    assert!(!is_digit('/') && !is_digit(':') && !is_digit('\u{661}'));
}

use toml_example_derive::text::{
    chars_of, is_white_space, replace, same_text, split_once, starts_with, starts_with_char,
    to_lower, to_upper, trim, trim_matches, trim_start, trim_start_matches,
};

#[test]
fn white_space_is_that_of_unicode() {
    for code in 0..=0x10ffffu32 {
        if let Some(c) = char::from_u32(code) {
            assert_eq!(is_white_space(c), c.is_whitespace());
        }
    }
}

#[test]
fn trims_white_space() {
    for text in ["", "  ", " a ", "\t\u{2003}a b\n\u{a0}", "a", "\u{3000}"] {
        assert_eq!(trim(text), text.trim());
        assert_eq!(trim_start(text), text.trim_start());
        assert_eq!(trim(trim(text)), trim(text));
    }
}

#[test]
fn trims_a_character() {
    for text in ["", "\"", "\"\"", "\"a\"", "\"\"a\"b\"\"\"", "a\"b"] {
        assert_eq!(trim_matches(text, '"'), text.trim_matches('"'));
    }
}

#[test]
fn trims_repeated_prefixes() {
    assert_eq!(trim_start_matches("r#type", "r#"), "type");
    assert_eq!(trim_start_matches("r#r#type", "r#"), "type");
    assert_eq!(trim_start_matches("r#", "r#"), "");
    assert_eq!(trim_start_matches("rtype", "r#"), "rtype");
    assert_eq!(trim_start_matches("", "r#"), "");
    assert_eq!(trim_start_matches("r#type", ""), "r#type");
}

#[test]
fn replaces_characters() {
    assert_eq!(replace("a.b.c", '.', "-"), "a-b-c");
    assert_eq!(replace("a b c", ' ', ""), "abc");
    assert_eq!(replace("1\n2\n", '\n', "\n# "), "1\n# 2\n# ");
    assert_eq!(replace("\u{e4} b", ' ', "__"), "\u{e4}__b");
    assert!(!replace("a.b.c", '.', "-").contains('.'));
}

#[test]
fn replaces_nothing_in_a_text_without_the_character() {
    assert_eq!(replace("abc", '_', "x"), "abc");
}

#[test]
fn cuts_once() {
    assert_eq!(split_once("a = b = c", '='), Some(("a ", " b = c")));
    assert_eq!(split_once("\u{e4}=\u{f6}", '='), Some(("\u{e4}", "\u{f6}")));
    assert_eq!(split_once("abc", '='), None);
    assert_eq!(split_once("", '='), None);
}

#[test]
fn compares_texts() {
    assert!(same_text("abc", "abc"));
    assert!(!same_text("abc", "abd"));
    assert!(starts_with("rename_all", "rename"));
    assert!(starts_with("rename", "rename"));
    assert!(!starts_with("renam", "rename"));
    assert!(!starts_with("xrename", "rename"));
    assert!(starts_with("x", ""));
    assert!(starts_with_char("[1]", '['));
    assert!(!starts_with_char("1]", ']'));
    assert!(!starts_with_char("", '['));
}

#[test]
fn changes_case_of_ascii_alone() {
    for code in 0..0x300u32 {
        if let Some(c) = char::from_u32(code) {
            assert_eq!(to_lower(c), c.to_ascii_lowercase());
            assert_eq!(to_upper(c), c.to_ascii_uppercase());
        }
    }
}

#[test]
fn takes_characters() {
    assert_eq!(chars_of("a\u{e4}\u{1f600}"), vec!['a', '\u{e4}', '\u{1f600}']);
}

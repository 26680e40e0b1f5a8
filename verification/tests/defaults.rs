use toml_example_derive::abort::Abort;
use toml_example_derive::attrs::DefaultSource;
use toml_example_derive::defaults::{
    inline_table_body, is_string_ty, normalize_type, parse_inline_table, validate_default_source,
    validate_default_value,
};
use toml_example_derive::types::FieldKind;

fn value(text: &str) -> DefaultSource<String> {
    DefaultSource::DefaultValue(text.to_string())
}

fn dict(key: &str, value: &str) -> FieldKind<String> {
    FieldKind::Dict { key_ty: Some(key.to_string()), value_ty: Some(value.to_string()) }
}

#[test]
fn normalizes_types() {
    assert_eq!(normalize_type("std :: string :: String"), "String");
    assert_eq!(normalize_type("u8"), "u8");
    assert_eq!(normalize_type(":: u8"), "u8");
    assert_eq!(normalize_type("a:::b"), "b");
    assert_eq!(normalize_type("a :: "), "");
    assert_eq!(normalize_type(""), "");
    assert_eq!(normalize_type("a : b"), "a:b");
}

#[test]
fn normalized_types_are_their_own_names() {
    for ty in ["std :: string :: String", "a:::b", ":::", "u 8", ""] {
        let name = normalize_type(ty);
        assert_eq!(normalize_type(&name), name);
    }
}

#[test]
fn string_types() {
    assert!(is_string_ty(Some("String")));
    assert!(is_string_ty(Some("std :: string :: String")));
    assert!(is_string_ty(Some("str")));
    assert!(!is_string_ty(Some("u8")));
    assert!(!is_string_ty(None));
}

#[test]
fn string_values_are_quoted() {
    assert!(validate_default_value(" \"a\"", Some("String")).is_ok());
    assert!(validate_default_value("'a'", Some("str")).is_ok());
    assert!(matches!(validate_default_value("a", Some("String")), Err(Abort::NotQuoted)));
    assert!(matches!(validate_default_value("", Some("String")), Err(Abort::NotQuoted)));
}

#[test]
fn bool_values_are_true_or_false() {
    assert!(validate_default_value("true", Some("bool")).is_ok());
    assert!(validate_default_value(" false ", Some("bool")).is_ok());
    assert!(matches!(validate_default_value("\"\"", Some("bool")), Err(Abort::NotBool)));
}

#[test]
fn integer_values_are_integers() {
    assert!(validate_default_value("1_000", Some("u8")).is_ok());
    assert!(matches!(validate_default_value("-1", Some("usize")), Err(Abort::NotUnsigned)));
    assert!(matches!(validate_default_value("\"1\"", Some("u128")), Err(Abort::NotUnsigned)));
    assert!(validate_default_value("-1_0", Some("std :: i64")).is_ok());
    assert!(matches!(validate_default_value("1.5", Some("i8")), Err(Abort::NotSigned)));
}

#[test]
fn float_values_are_floats() {
    assert!(validate_default_value("1_0.5", Some("f32")).is_ok());
    assert!(validate_default_value("nan", Some("f64")).is_ok());
    assert!(matches!(validate_default_value("x", Some("f64")), Err(Abort::NotFloat)));
}

#[test]
fn values_of_other_types_are_free() {
    assert!(validate_default_value("anything", Some("Inner")).is_ok());
    assert!(validate_default_value("anything", None).is_ok());
}

#[test]
fn parses_inline_tables() {
    let table = parse_inline_table(" { a = 1, \"b=c\" = [ 2, 3 ], , d = { e = 4 } , } ");
    match table {
        Ok(entries) => assert_eq!(
            entries,
            vec![
                ("a".to_string(), "1".to_string()),
                ("\"b=c\"".to_string(), "[ 2, 3 ]".to_string()),
                ("d".to_string(), "{ e = 4 }".to_string()),
            ]
        ),
        Err(_) => panic!(),
    }
    assert!(matches!(parse_inline_table("{}"), Ok(entries) if entries.is_empty()));
    assert!(matches!(parse_inline_table("{ }"), Ok(entries) if entries.is_empty()));
}

#[test]
fn rejects_what_is_no_inline_table() {
    for text in ["", "a = 1", "{", "}", "{ a = 1", "[a = 1]"] {
        assert!(matches!(parse_inline_table(text), Err(Abort::NotInlineTable)));
    }
}

#[test]
fn rejects_entries_without_value() {
    assert!(matches!(parse_inline_table("{ a }"), Err(Abort::EntryWithoutValue)));
    assert!(matches!(parse_inline_table("{ a = 1, (b = 2) }"), Err(Abort::EntryWithoutValue)));
}

#[test]
fn writes_the_lines_of_inline_tables() {
    match inline_table_body("{ a = 1, b = \"x, y\" }") {
        Ok(lines) => assert_eq!(lines, "a = 1\nb = \"x, y\"\n"),
        Err(_) => panic!(),
    }
    assert!(matches!(inline_table_body("{}"), Ok(lines) if lines.is_empty()));
    assert!(matches!(inline_table_body("1"), Err(Abort::NotInlineTable)));
}

#[test]
fn list_defaults_are_arrays() {
    assert!(validate_default_source(&value(" [ 1 ]"), &FieldKind::List, Some("u8")).is_ok());
    assert!(matches!(
        validate_default_source(&value("1"), &FieldKind::List, Some("u8")),
        Err(Abort::NotArray)
    ));
    assert!(matches!(
        validate_default_source(&value(""), &FieldKind::List, None),
        Err(Abort::NotArray)
    ));
}

#[test]
fn map_defaults_are_tables_of_fitting_values() {
    let fits = |text: &str, kind: FieldKind<String>| validate_default_source(&value(text), &kind, None);
    assert!(fits("{ a = 1 }", dict("String", "u8")).is_ok());
    assert!(fits(" ", dict("String", "u8")).is_ok());
    assert!(fits("{}", dict("String", "u8")).is_ok());
    assert!(matches!(fits("{}", dict("u8", "u8")), Err(Abort::MapKeyNotString)));
    assert!(matches!(fits("{ a = 1, b = x }", dict("String", "u8")), Err(Abort::NotUnsigned)));
    assert!(matches!(fits("{ a }", dict("String", "u8")), Err(Abort::EntryWithoutValue)));
    assert!(matches!(fits("1", dict("String", "u8")), Err(Abort::NotInlineTable)));
    let untyped = FieldKind::Dict { key_ty: None, value_ty: None };
    assert!(matches!(fits("{}", untyped), Err(Abort::MapKeyNotString)));
}

#[test]
fn scalar_defaults_fit_their_type() {
    assert!(validate_default_source(&value("1"), &FieldKind::Scalar, Some("u8")).is_ok());
    assert!(matches!(
        validate_default_source(&value("x"), &FieldKind::Scalar, Some("u8")),
        Err(Abort::NotUnsigned)
    ));
}

#[test]
fn defaults_of_functions_are_free() {
    let source = DefaultSource::DefaultFn(None);
    assert!(validate_default_source(&source, &dict("u8", "u8"), None).is_ok());
    let source = DefaultSource::SerdeDefaultFn("f".to_string());
    assert!(validate_default_source(&source, &FieldKind::List, None).is_ok());
}

#[test]
fn accepted_tables_have_lines() {
    let kind = dict("String", "u8");
    for text in ["{}", "{ a = 1 }", " {a=1,} ", "{ \"a=b\" = 2, c = 3 }"] {
        assert!(validate_default_source(&value(text), &kind, None).is_ok());
        assert!(inline_table_body(text).is_ok());
    }
    assert!(validate_default_source(&value(" "), &kind, None).is_ok());
    assert!(matches!(inline_table_body(" "), Err(Abort::NotInlineTable)));
}

#[test]
fn tables_make_a_round_trip() {
    for text in [
        "{}",
        "{ , }",
        "{ a = 1, b = [1, 2] , }",
        " { \"x,y\" = '=', c.d = { e = 1, f = 2 }, = , g = }",
        "{ a = 1, b = \"open , c = 2 }",
        "{a=]1,b=2}",
    ] {
        let entries = parse_inline_table(text).ok().unwrap();
        let body = inline_table_body(text).ok().unwrap();
        let lines: Vec<&str> = body.lines().collect();
        assert_eq!(lines.len(), entries.len());
        let again = format!("{{{}}}", lines.join(","));
        assert_eq!(parse_inline_table(&again).ok().unwrap(), entries);
    }
    let entries = parse_inline_table("{ a = x\\ , b = 1 }").ok().unwrap();
    assert_eq!(entries.len(), 2);
    assert_eq!(parse_inline_table("{a = x\\,b = 1}").ok().unwrap().len(), 1);
}

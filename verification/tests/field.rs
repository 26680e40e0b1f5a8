use toml_example_derive::abort::Abort;
use toml_example_derive::ast::{
    Attr, GenericArgument, ItemField, Meta, PathArguments, PathSegment, TypeExpr, TypePath,
};
use toml_example_derive::attrs::{DefaultSource, NestingFormat, NestingType};
use toml_example_derive::case::RenameRule;
use toml_example_derive::field::{parse_field, push_doc_string, ParsedField};
use toml_example_derive::types::FieldKind;

fn parsed() -> ParsedField {
    ParsedField {
        docs: vec![],
        default: DefaultSource::DefaultValue("0".to_string()),
        explicit_default: false,
        kind: FieldKind::Scalar,
        nesting_format: None,
        skip: false,
        is_enum: false,
        flatten: false,
        name: "name".to_string(),
        optional: false,
        ty: Some("u8".to_string()),
    }
}

fn section(nesting: NestingType) -> Option<NestingFormat> {
    Some(NestingFormat::Section(nesting))
}

fn label_of(part: &str) -> String {
    format!(
        "
                if label.is_empty() {{
                    \"{part}\".to_string()
                }} else {{
                    label.to_string() + \".\" + \"{part}\"
                }}
            "
    )
}

fn path(ident: &str, arguments: PathArguments) -> TypeExpr {
    let segments = vec![PathSegment { ident: ident.to_string(), arguments }];
    TypeExpr::Path(TypePath { text: ident.to_string(), segments })
}

fn field(ident: Option<&str>, tokens: &[&str], ty: TypeExpr) -> ItemField {
    let attr = |tokens: &&str| Attr {
        outer: true,
        meta: Meta::List { path: vec!["toml_example".to_string()], tokens: tokens.to_string() },
    };
    ItemField { ident: ident.map(String::from), attrs: tokens.iter().map(attr).collect(), ty }
}

fn plain(ident: &str) -> TypeExpr {
    path(ident, PathArguments::Absent)
}

fn of(ident: &str, args: Vec<TypeExpr>) -> TypeExpr {
    path(ident, PathArguments::AngleBracketed(args.into_iter().map(GenericArgument::Of).collect()))
}

fn parse(field: &ItemField) -> ParsedField {
    match parse_field(None, field, RenameRule::Unchanged, true) {
        Ok(parsed) => parsed,
        Err(fault) => panic!("{}", fault.abort.message()),
    }
}

fn abort(field: &ItemField) -> Abort<String> {
    match parse_field(None, field, RenameRule::Unchanged, true) {
        Ok(_) => panic!(),
        Err(fault) => fault.abort,
    }
}

#[test]
fn docs_become_comment_lines() {
    let mut text = "x\n".to_string();
    push_doc_string(&mut text, &vec![" one".to_string(), "".to_string(), " two".to_string()]);
    assert_eq!(text, "x\n# one\n#\n# two\n");
    let mut f = parsed();
    f.docs = vec![" a".to_string()];
    let mut text = String::new();
    f.push_doc_to_string(&mut text);
    assert_eq!(text, "# a\n");
    assert!(text.lines().all(|line| line.starts_with('#')) && text.ends_with('\n'));
}

#[test]
fn default_keys() {
    let mut f = parsed();
    assert_eq!(f.default_key(), "example");
    f.explicit_default = true;
    f.default = DefaultSource::DefaultValue("\" a b.c \"".to_string());
    assert_eq!(f.default_key(), "ab-c");
    f.default = DefaultSource::DefaultValue("\" \"".to_string());
    assert_eq!(f.default_key(), "example");
    f.default = DefaultSource::DefaultFn(None);
    assert_eq!(f.default_key(), "example");
    f.explicit_default = false;
    f.default = DefaultSource::DefaultValue("a".to_string());
    assert_eq!(f.default_key(), "example");
}

#[test]
fn default_keys_are_bare() {
    let mut f = parsed();
    f.explicit_default = true;
    for text in ["", "a.b c", "...", "\"\"", " . "] {
        f.default = DefaultSource::DefaultValue(text.to_string());
        let key = f.default_key();
        assert!(!key.is_empty() && !key.contains(' ') && !key.contains('.'));
    }
}

#[test]
fn explicit_default_values() {
    let mut f = parsed();
    assert!(!f.has_explicit_default_value());
    f.explicit_default = true;
    assert!(f.has_explicit_default_value());
    f.default = DefaultSource::DefaultFn(None);
    assert!(!f.has_explicit_default_value());
}

#[test]
fn labels() {
    let mut f = parsed();
    assert_eq!(f.label(), label_of("name"));
    f.flatten = true;
    assert_eq!(f.label(), "label");
    f.nesting_format = section(NestingType::Dict);
    assert_eq!(f.label(), label_of("example"));
    f.flatten = false;
    assert_eq!(f.label(), label_of("name.example"));
    f.nesting_format = Some(NestingFormat::Prefix);
    assert_eq!(f.label(), "label");
    f.nesting_format = section(NestingType::List);
    assert_eq!(f.label(), label_of("name"));
}

#[test]
fn label_formats() {
    let mut f = parsed();
    f.nesting_format = section(NestingType::List);
    assert!(matches!(f.label_format(), Ok(("[[", "]]"))));
    f.nesting_format = section(NestingType::Dict);
    assert!(matches!(f.label_format(), Ok(("[", "]"))));
    f.nesting_format = section(NestingType::Single);
    assert!(matches!(f.label_format(), Ok(("[", "]"))));
    f.nesting_format = Some(NestingFormat::Prefix);
    assert!(matches!(f.label_format(), Ok(("", ""))));
    f.flatten = true;
    f.nesting_format = section(NestingType::Single);
    assert!(matches!(f.label_format(), Ok(("", ""))));
    f.nesting_format = section(NestingType::List);
    match f.label_format() {
        Err(abort) => assert_eq!(
            abort.message(),
            "Only structs and maps can be flattened! (But field `name` is a collection)"
        ),
        Ok(_) => panic!(),
    }
}

#[test]
fn prefixes() {
    let mut f = parsed();
    assert_eq!(f.prefix(), "");
    f.optional = true;
    assert_eq!(f.prefix(), "# ");
    f.nesting_format = Some(NestingFormat::Prefix);
    assert_eq!(f.prefix(), "# name.");
    f.optional = false;
    assert_eq!(f.prefix(), "name.");
}

#[test]
fn fields_without_attributes() {
    let f = parse(&field(Some("a"), &[], plain("u8")));
    assert_eq!(f.name, "a");
    assert!(matches!(f.default, DefaultSource::DefaultValue(v) if v == "0"));
    assert!(!f.explicit_default && !f.skip && f.nesting_format.is_none());
    for ty in [
        plain("String"),
        plain("f64"),
        plain("Inner"),
        TypeExpr::Other,
        of("Option", vec![plain("i8")]),
        of("Vec", vec![plain("bool")]),
        of("HashMap", vec![plain("String"), plain("bool")]),
        of("Box", vec![plain("bool")]),
    ] {
        assert_eq!(parse(&field(Some("a"), &[], ty)).name, "a");
    }
}

#[test]
fn bool_fields_need_a_default() {
    assert!(matches!(abort(&field(Some("a"), &[], plain("bool"))), Abort::NotBool));
    let f = parse(&field(Some("a"), &["default = true"], plain("bool")));
    assert!(matches!(f.default, DefaultSource::DefaultValue(v) if v == "true"));
}

#[test]
fn unnested_fields_have_a_fitting_default() {
    assert!(matches!(abort(&field(Some("a"), &["default = x"], plain("u8"))), Abort::NotUnsigned));
    let f = field(Some("a"), &["default = x, nesting"], plain("u8"));
    assert!(matches!(parse(&f).default, DefaultSource::DefaultValue(v) if v == "x"));
}

#[test]
fn sources_of_defaults() {
    let explicit = parse(&field(Some("a"), &["default = 7"], plain("u8")));
    assert!(explicit.explicit_default);
    assert!(matches!(explicit.default, DefaultSource::DefaultValue(v) if v == "7"));
    let of_type = parse(&field(Some("a"), &["default"], plain("u8")));
    assert!(!of_type.explicit_default);
    assert!(matches!(of_type.default, DefaultSource::DefaultFn(Some(ty)) if ty == "u8"));
    let of_struct = DefaultSource::DefaultFn(None);
    let f = field(Some("a"), &[], plain("bool"));
    match parse_field(Some(&of_struct), &f, RenameRule::Unchanged, true) {
        Ok(f) => assert!(matches!(f.default, DefaultSource::DefaultFn(None))),
        Err(_) => panic!(),
    }
    let f = field(Some("a"), &[], of("HashMap", vec![plain("String"), plain("u8")]));
    match parse_field(Some(&of_struct), &f, RenameRule::Unchanged, true) {
        Ok(f) => assert!(matches!(f.default, DefaultSource::DefaultValue(v) if v == "{}")),
        Err(_) => panic!(),
    }
}

#[test]
fn names_of_fields() {
    let f = field(Some("a_b"), &[], plain("u8"));
    match parse_field(None, &f, RenameRule::CamelCase, true) {
        Ok(f) => assert_eq!(f.name, "aB"),
        Err(_) => panic!(),
    }
    let mut f = field(Some("a_b"), &[], plain("u8"));
    let path = vec!["serde".to_string()];
    let tokens = "rename = \"c_d\"".to_string();
    f.attrs.push(Attr { outer: true, meta: Meta::List { path, tokens } });
    match parse_field(None, &f, RenameRule::CamelCase, true) {
        Ok(f) => assert_eq!(f.name, "c_d"),
        Err(_) => panic!(),
    }
    match parse_field(None, &f, RenameRule::CamelCase, false) {
        Ok(f) => assert_eq!(f.name, "aB"),
        Err(_) => panic!(),
    }
}

#[test]
fn required_fields_are_not_optional() {
    let ty = || of("Option", vec![plain("u8")]);
    assert!(parse(&field(Some("a"), &[], ty())).optional);
    assert!(!parse(&field(Some("a"), &["require"], ty())).optional);
}

#[test]
fn aborts_of_fields() {
    assert!(matches!(abort(&field(None, &[], plain("u8"))), Abort::UnnamedField));
    assert!(matches!(abort(&field(None, &["x"], plain("u8"))), Abort::NotAllowedAttribute(a) if a == "x"));
    assert!(matches!(abort(&field(None, &["default = x"], plain("u8"))), Abort::UnnamedField));
}

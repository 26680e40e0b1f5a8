use toml_example_derive::ast::{
    GenericArgument, PathArguments, PathSegment, TypeExpr, TypePath,
};
use toml_example_derive::attrs::{NestingFormat, NestingType};
use toml_example_derive::types::{default_value, parse_type, type_to_string, FieldKind};

fn plain(text: &str, ident: &str) -> TypeExpr {
    path(text, ident, PathArguments::Absent)
}

fn path(text: &str, ident: &str, arguments: PathArguments) -> TypeExpr {
    let segments = vec![PathSegment { ident: ident.to_string(), arguments }];
    TypeExpr::Path(TypePath { text: text.to_string(), segments })
}

fn of(ident: &str, args: Vec<TypeExpr>) -> TypeExpr {
    let list = args.into_iter().map(GenericArgument::Of).collect();
    path(&format!("{} < .. >", ident), ident, PathArguments::AngleBracketed(list))
}

struct Read {
    default: String,
    optional: bool,
    nesting: Option<NestingFormat>,
    kind: FieldKind<String>,
    ty: Option<String>,
}

fn read(ty: &TypeExpr, nesting: Option<NestingFormat>) -> Read {
    let mut r = Read {
        default: String::new(),
        optional: false,
        nesting,
        kind: FieldKind::Scalar,
        ty: None,
    };
    r.ty = parse_type(ty, &mut r.default, &mut r.optional, &mut r.nesting, &mut r.kind);
    r
}

const SECTION: Option<NestingFormat> = Some(NestingFormat::Section(NestingType::Single));

#[test]
fn default_values_of_types() {
    for ty in ["usize", "u8", "u16", "u32", "u64", "u128", "isize", "i8", "i16", "i32", "i64", "i128"] {
        assert_eq!(default_value(ty.to_string()), "0");
    }
    assert_eq!(default_value("f32".to_string()), "0.0");
    assert_eq!(default_value("f64".to_string()), "0.0");
    assert_eq!(default_value("String".to_string()), "\"\"");
    assert_eq!(default_value("bool".to_string()), "\"\"");
    assert_eq!(default_value("".to_string()), "\"\"");
}

#[test]
fn plain_types_are_read() {
    let r = read(&plain("std :: primitive :: u8", "u8"), None);
    assert_eq!(r.default, "0");
    assert_eq!(r.ty.as_deref(), Some("std :: primitive :: u8"));
    assert!(!r.optional);
    assert!(matches!(r.kind, FieldKind::Scalar));
    let r = read(&plain("Inner", "Inner"), SECTION);
    assert_eq!(r.ty.as_deref(), Some("Inner"));
    assert_eq!(r.nesting, SECTION);
}

#[test]
fn options_are_unwrapped() {
    let r = read(&of("Option", vec![plain("f64", "f64")]), None);
    assert!(r.optional);
    assert_eq!(r.default, "0.0");
    assert_eq!(r.ty.as_deref(), Some("f64"));
    let r = read(&of("Option", vec![of("Option", vec![plain("u8", "u8")])]), None);
    assert!(r.optional);
    assert_eq!(r.default, "0");
    let r = read(&of("Option", vec![]), None);
    assert!(r.optional);
    assert_eq!(r.ty, None);
    let r = read(&path("Option (u8)", "Option", PathArguments::Parenthesized), None);
    assert!(r.optional);
    assert_eq!(r.ty, None);
}

#[test]
fn lists_are_unwrapped() {
    for ident in ["Vec", "HashSet", "BTreeSet"] {
        let r = read(&of(ident, vec![plain("u8", "u8")]), None);
        assert_eq!(r.default, "[ 0, ]");
        assert_eq!(r.ty.as_deref(), Some("u8"));
        assert!(matches!(r.kind, FieldKind::List));
        assert_eq!(r.nesting, None);
    }
    let r = read(&of("Vec", vec![TypeExpr::Other]), None);
    assert_eq!(r.default, "[  ]");
    assert_eq!(r.ty, None);
    let r = read(&of("Vec", vec![of("Vec", vec![plain("u8", "u8")])]), None);
    assert_eq!(r.default, "[ [ 0, ], ]");
    assert_eq!(r.ty.as_deref(), Some("u8"));
    let r = read(&of("Vec", vec![plain("Inner", "Inner")]), SECTION);
    assert_eq!(r.nesting, Some(NestingFormat::Section(NestingType::List)));
    let r = read(&of("Option", vec![of("Vec", vec![plain("u8", "u8")])]), Some(NestingFormat::Prefix));
    assert!(r.optional);
    assert_eq!(r.nesting, Some(NestingFormat::Section(NestingType::List)));
    let r = read(&of("Vec", vec![]), None);
    assert_eq!(r.default, "");
}

#[test]
fn maps_give_the_type_of_their_values() {
    for ident in ["HashMap", "BTreeMap"] {
        let r = read(&of(ident, vec![plain("String", "String"), of("Option", vec![plain("u8", "u8")])]), None);
        assert_eq!(r.default, "{}");
        assert_eq!(r.ty.as_deref(), Some("u8"));
        assert!(!r.optional);
        match r.kind {
            FieldKind::Dict { key_ty, value_ty } => {
                assert_eq!(key_ty.as_deref(), Some("String"));
                assert_eq!(value_ty.as_deref(), Some("u8"));
            }
            _ => panic!(),
        }
    }
    let r = read(&of("HashMap", vec![plain("String", "String"), plain("Inner", "Inner")]), SECTION);
    assert_eq!(r.nesting, Some(NestingFormat::Section(NestingType::Dict)));
    assert_eq!(r.default, "");
    for nesting in [None, SECTION] {
        let args = vec![plain("String", "String"), plain("u32", "u32"), plain("RandomState", "RandomState")];
        let r = read(&of("HashMap", args), nesting);
        assert_eq!(r.ty.as_deref(), Some("u32"));
        match r.kind {
            FieldKind::Dict { key_ty, value_ty } => {
                assert_eq!(key_ty.as_deref(), Some("String"));
                assert_eq!(value_ty.as_deref(), Some("u32"));
            }
            _ => panic!(),
        }
    }
    let types = |args: Vec<Option<&str>>| {
        let list = args.into_iter().map(|arg| match arg {
            Some(ident) => GenericArgument::Of(plain(ident, ident)),
            None => GenericArgument::Other,
        });
        let list = PathArguments::AngleBracketed(list.collect());
        read(&path("HashMap < .. >", "HashMap", list), SECTION).ty
    };
    assert_eq!(types(vec![None, Some("String"), Some("Inner")]).as_deref(), Some("Inner"));
    assert_eq!(types(vec![None, Some("K"), None, Some("V"), Some("S")]).as_deref(), Some("V"));
    assert_eq!(types(vec![Some("K"), Some("V"), None]).as_deref(), Some("V"));
    assert_eq!(types(vec![None, Some("K")]).as_deref(), Some("K"));
    assert_eq!(types(vec![Some("K"), None]), None);
    let r = read(&of("BTreeMap", vec![plain("u8", "u8")]), None);
    assert_eq!(r.ty.as_deref(), Some("u8"));
    let r = read(&path("HashMap (u8)", "HashMap", PathArguments::Parenthesized), None);
    assert_eq!(r.default, "{}");
    assert!(matches!(r.kind, FieldKind::Scalar));
    let list = vec![GenericArgument::Other, GenericArgument::Other];
    let r = read(&path("HashMap", "HashMap", PathArguments::AngleBracketed(list)), None);
    assert!(matches!(r.kind, FieldKind::Dict { key_ty: None, value_ty: None }));
}

#[test]
fn other_types_are_not_read() {
    let r = read(&TypeExpr::Other, SECTION);
    assert_eq!(r.ty, None);
    assert_eq!(r.default, "");
    assert_eq!(r.nesting, SECTION);
    let r = read(&of("Box", vec![plain("u8", "u8")]), None);
    assert_eq!(r.ty, None);
    assert_eq!(r.default, "");
    let r = read(&TypeExpr::Path(TypePath { text: "x".to_string(), segments: vec![] }), None);
    assert_eq!(r.ty, None);
}

#[test]
fn texts_of_types() {
    assert_eq!(type_to_string(&plain("a :: B", "B")).as_deref(), Some("a :: B"));
    assert_eq!(type_to_string(&TypeExpr::Other), None);
}

#[test]
fn held_types_are_found_through_all_layers() {
    let inner = || of("Option", vec![of("Vec", vec![plain("a :: Inner", "Inner")])]);
    let layered = [
        inner(),
        of("Option", vec![inner()]),
        of("BTreeSet", vec![inner()]),
        of("HashMap", vec![plain("String", "String"), inner()]),
    ];
    for ty in layered.iter() {
        for nesting in [None, SECTION, Some(NestingFormat::Prefix)] {
            assert_eq!(read(ty, nesting).ty.as_deref(), Some("a :: Inner"));
        }
    }
}

#[test]
fn the_last_segment_decides() {
    let segments = vec![
        PathSegment { ident: "Option".to_string(), arguments: PathArguments::AngleBracketed(vec![]) },
        PathSegment { ident: "u8".to_string(), arguments: PathArguments::Absent },
    ];
    let r = read(&TypeExpr::Path(TypePath { text: "Option < > :: u8".to_string(), segments }), None);
    assert!(!r.optional);
    assert_eq!(r.default, "0");
    assert_eq!(r.ty.as_deref(), Some("Option < > :: u8"));
}

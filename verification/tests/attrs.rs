use toml_example_derive::abort::Abort;
use toml_example_derive::ast::{Attr, Meta};
use toml_example_derive::attrs::{parse_attrs, AttrMeta, DefaultSource, NestingFormat, NestingType};
use toml_example_derive::case::RenameRule;

fn list(name: &str, tokens: &str) -> Attr {
    let path = name.split("::").map(String::from).collect();
    Attr { outer: true, meta: Meta::List { path, tokens: tokens.to_string() } }
}

fn doc(path: &str, value: Option<&str>) -> Attr {
    let path = path.split("::").map(String::from).collect();
    Attr { outer: true, meta: Meta::NameValue { path, value: value.map(String::from) } }
}

fn said(attrs: Vec<Attr>) -> AttrMeta {
    match parse_attrs(&attrs, true) {
        Ok(meta) => meta,
        Err(fault) => panic!("{}", fault.abort.message()),
    }
}

fn abort(attrs: Vec<Attr>) -> String {
    match parse_attrs(&attrs, true) {
        Ok(_) => panic!(),
        Err(fault) => fault.abort.message(),
    }
}

fn example(tokens: &str) -> AttrMeta {
    said(vec![list("toml_example", tokens)])
}

fn serde(tokens: &str) -> AttrMeta {
    said(vec![list("serde", tokens)])
}

#[test]
fn no_attributes_say_nothing() {
    let meta = said(vec![]);
    assert!(meta.docs.is_empty() && meta.default_source.is_none() && meta.nesting_format.is_none());
    assert!(!meta.require && !meta.skip && !meta.is_enum && !meta.flatten);
    assert!(meta.rename.is_none());
    assert_eq!(meta.rename_rule, RenameRule::Unchanged);
}

#[test]
fn docs_are_collected() {
    let meta = said(vec![
        doc("doc", Some(" one")),
        doc("other", Some(" two")),
        doc("doc::doc", Some(" three")),
        doc("doc", None),
    ]);
    assert_eq!(meta.docs, vec![" one", " three", " three"]);
}

#[test]
fn inner_attributes_and_paths_are_ignored() {
    let mut inner = doc("doc", Some(" one"));
    inner.outer = false;
    let path = Attr { outer: true, meta: Meta::Path };
    assert!(said(vec![inner, path, list("allow", "anything,")]).docs.is_empty());
}

#[test]
fn default_of_toml_example() {
    let meta = example("default = \"a, b\"");
    assert!(matches!(meta.default_source, Some(DefaultSource::DefaultValue(v)) if v == "\"a, b\""));
    let meta = example("default");
    assert!(matches!(meta.default_source, Some(DefaultSource::DefaultFn(None))));
    let meta = example("default = 1, default = [2, 3]");
    assert!(matches!(meta.default_source, Some(DefaultSource::DefaultValue(v)) if v == "[2, 3]"));
}

#[test]
fn nesting_of_toml_example() {
    let section = Some(NestingFormat::Section(NestingType::Single));
    assert_eq!(example("nesting").nesting_format, section);
    assert_eq!(example("nesting = section").nesting_format, section);
    assert_eq!(example("nesting = prefix").nesting_format, Some(NestingFormat::Prefix));
    assert_eq!(
        abort(vec![list("toml_example", "nesting = table")]),
        "please use prefix or section for nesting derive"
    );
}

#[test]
fn flags_of_toml_example() {
    let meta = example("require, skip, flatten");
    assert!(meta.require && meta.skip && meta.flatten && !meta.is_enum);
    assert!(example("is_enum").is_enum);
    assert!(example("enum").is_enum);
    assert!(said(vec![list("a::toml_example", "skip")]).skip);
    assert!(!said(vec![list("toml_example::a", "skip")]).skip);
}

#[test]
fn unknown_items_of_toml_example_abort() {
    assert_eq!(abort(vec![list("toml_example", "what")]), "what is not allowed attribute");
    assert_eq!(abort(vec![list("toml_example", "")]), " is not allowed attribute");
    assert_eq!(abort(vec![list("toml_example", "skip,")]), " is not allowed attribute");
}

#[test]
fn items_of_serde() {
    let meta = serde("default = \"a::b\"");
    assert!(matches!(meta.default_source, Some(DefaultSource::SerdeDefaultFn(f)) if f == "a::b"));
    assert!(matches!(serde("default").default_source, Some(DefaultSource::DefaultFn(None))));
    assert!(serde("skip").skip);
    assert!(serde("skip_deserializing").skip);
    assert!(!serde("skip_serializing").skip);
    assert!(serde("flatten").flatten);
    assert_eq!(serde("rename = \"x\"").rename.as_deref(), Some("x"));
    assert_eq!(serde("rename_all = \"kebab-case\"").rename_rule, RenameRule::KebabCase);
    assert_eq!(serde("rename_all").rename_rule, RenameRule::Unchanged);
    assert!(serde("rename").rename.is_none());
    assert!(!serde("anything, \"goes\",").skip);
}

#[test]
fn unknown_rename_rule_aborts() {
    assert_eq!(abort(vec![list("serde", "rename_all = \"x\"")]), "unsupported rename rule");
}

#[test]
fn serde_counts_only_if_asked_for() {
    let attrs = vec![list("serde", "skip, rename_all = \"x\"")];
    assert!(matches!(parse_attrs(&attrs, false), Ok(meta) if !meta.skip));
    match parse_attrs(&attrs, true) {
        Err(fault) => assert!(matches!(fault.abort, Abort::UnsupportedRenameRule)),
        Ok(_) => panic!(),
    }
}

#[test]
fn without_serde_attributes_serde_makes_no_difference() {
    let attrs = vec![list("toml_example", "skip"), doc("doc", Some("a"))];
    for serde in [false, true] {
        assert!(matches!(parse_attrs(&attrs, serde), Ok(meta) if meta.skip && meta.docs == vec!["a"]));
    }
}

#[test]
fn later_attributes_take_nothing_back() {
    let meta = said(vec![
        doc("doc", Some("a")),
        list("toml_example", "skip, nesting, default"),
        list("serde", "rename = \"x\""),
        list("toml_example", "require"),
        doc("doc", Some("b")),
    ]);
    assert_eq!(meta.docs, vec!["a", "b"]);
    assert!(meta.skip && meta.require && meta.nesting_format.is_some());
    assert!(meta.default_source.is_some() && meta.rename.is_some());
}

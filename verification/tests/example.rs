use std::str::FromStr;

use proc_macro2::TokenStream;
use toml_example_derive::example::{
    handle_default_fn_source, handle_serde_default_fn_source, Intermediate,
};
use toml_example_derive::reader::read_item;

fn parts(source: &str) -> Result<Intermediate, String> {
    let item = match read_item(TokenStream::from_str(source).unwrap()) {
        Ok(item) => item,
        Err(error) => panic!("{}", error),
    };
    Intermediate::from_ast(item, true).map_err(|fault| fault.abort.message())
}

fn example(fields: &str) -> String {
    parts(&format!("struct S {{ {} }}", fields)).unwrap().field_example
}

fn abort(source: &str) -> String {
    match parts(source) {
        Ok(_) => panic!(),
        Err(message) => message,
    }
}

fn nested(ty: &str, part: &str, format: (&str, &str), prefix: &str) -> String {
    let label = if part.is_empty() {
        "label".to_string()
    } else {
        format!(
            "
                if label.is_empty() {{
                    \"{part}\".to_string()
                }} else {{
                    label.to_string() + \".\" + \"{part}\"
                }}
            "
        )
    };
    format!(
        "\"##.to_string() + &{}::toml_example_with_prefix(&{}, (\"{}\", \"{}\"), \"{}\") + &r##\"",
        ty, label, format.0, format.1, prefix
    )
}

fn table(name: &str, body: &str, optional: bool) -> String {
    format!(
        "\"##.to_string() + &toml_example::format_table_example(label, prefix, \"{}\", {}, {}) + &r##\"",
        name, body, optional
    )
}

const START: &str = "r##\"";
const END: &str = "\"##.to_string()";
const PREFIX: &str = "\"##.to_string() + prefix + &r##\"";

#[test]
fn struct_without_fields() {
    for source in ["struct S;", "struct S(u8);", "struct S {}"] {
        let parts = parts(source).unwrap();
        assert_eq!(parts.struct_name, "S");
        assert_eq!(parts.struct_doc, "");
        assert_eq!(parts.field_example, "r##\"\"##.to_string()");
    }
}

#[test]
fn only_structs_have_examples() {
    for source in ["enum S { A }", "union S { a: u8 }"] {
        assert_eq!(abort(source), "TomlExample derive only use for struct");
    }
    assert_eq!(abort("#[toml_example(x)] enum S { A }"), "x is not allowed attribute");
}

#[test]
fn docs_of_structs() {
    let parts = parts("/// One\n/// \"Two\"\nstruct S { }").unwrap();
    assert_eq!(parts.struct_doc, "# One\n# \"Two\"\n");
}

#[test]
fn values() {
    assert_eq!(
        example("/// An int\n a: usize, b: String"),
        format!("{START}# An int\n{PREFIX}a = 0\n\n{PREFIX}b = \"\"\n\n{END}")
    );
    assert_eq!(example("r#type: f64"), format!("{START}{PREFIX}type = 0.0\n\n{END}"));
    assert_eq!(
        example("#[toml_example(default = 7)] a: usize"),
        format!("{START}{PREFIX}a = 7\n\n{END}")
    );
    assert_eq!(example("a: Vec<u8>"), format!("{START}{PREFIX}a = [ 0, ]\n\n{END}"));
    assert_eq!(example("a: [u8; 2]"), format!("{START}{PREFIX}a = \n\n{END}"));
}

#[test]
fn optional_values_are_comments() {
    assert_eq!(example("a: Option<u8>"), format!("{START}# {PREFIX}a = 0\n\n{END}"));
    assert_eq!(
        example("#[toml_example(require)] a: Option<u8>"),
        format!("{START}{PREFIX}a = 0\n\n{END}")
    );
    assert_eq!(
        example("#[toml_example(default = \"1\n2\")] a: Option<String>"),
        format!("{START}# {PREFIX}a = \"1\n# 2\"\n\n{END}")
    );
    assert_eq!(
        example("#[toml_example(default = \"1\n2\")] a: String"),
        format!("{START}{PREFIX}a = \"1\n2\"\n\n{END}")
    );
}

#[test]
fn values_of_functions() {
    assert_eq!(
        example("#[toml_example(default)] a: u8"),
        format!("{START}{PREFIX}a = \"##.to_string() + &format!(\"{{:?}}\",  u8::default()) + &r##\"\n\n{END}")
    );
    assert_eq!(
        example("#[toml_example(default, enum)] a: E"),
        format!("{START}{PREFIX}a = \"##.to_string() + &format!(\"\\\"{{:?}}\\\"\",  E::default()) + &r##\"\n\n{END}")
    );
    assert_eq!(
        example("#[serde(default = \"f\")] a: u8"),
        format!("{START}{PREFIX}a = \"##.to_string() + &format!(\"{{:?}}\",  f())+ &r##\"\n\n{END}")
    );
}

#[test]
fn values_of_the_default_of_the_struct() {
    let text = |source: &str| parts(source).unwrap().field_example;
    assert_eq!(
        text("#[toml_example(default)] struct S { a: bool }"),
        format!("{START}{PREFIX}a = \"##.to_string() + &format!(\"{{:?}}\",  S::default().a) + &r##\"\n\n{END}")
    );
    assert_eq!(
        text("#[serde(default = \"f\")] struct S { a: bool }"),
        format!("{START}{PREFIX}a = \"##.to_string() + &format!(\"{{:?}}\",  f().a)+ &r##\"\n\n{END}")
    );
    assert_eq!(
        text("#[toml_example(default)] struct S { r#type: u8 }"),
        format!("{START}{PREFIX}type = \"##.to_string() + &format!(\"{{:?}}\",  S::default().r#type) + &r##\"\n\n{END}")
    );
    assert_eq!(
        text("struct S { #[toml_example(default)] a: [u8; 2] }"),
        format!("{START}{PREFIX}a = \"\"\n\n{END}")
    );
    assert_eq!(
        abort("#[toml_example(default = 1)] struct S { a: u8 }"),
        "Setting a default value on a struct is not supported!"
    );
}

#[test]
fn handles_sources_of_defaults() {
    let mut text = "a".to_string();
    handle_default_fn_source(&mut text, false, "T".to_string(), Some(".b".to_string()));
    assert_eq!(text, "a = \"##.to_string() + &format!(\"{:?}\",  T::default().b) + &r##\"\n");
    let mut text = "a".to_string();
    handle_default_fn_source(&mut text, true, "T".to_string(), None);
    assert_eq!(text, "a = \"##.to_string() + &format!(\"\\\"{:?}\\\"\",  T::default()) + &r##\"\n");
    let mut text = "a".to_string();
    handle_serde_default_fn_source(&mut text, false, &"f".to_string(), Some(".b".to_string()));
    assert_eq!(text, "a = \"##.to_string() + &format!(\"{:?}\",  f().b)+ &r##\"\n");
    let mut text = "a".to_string();
    handle_serde_default_fn_source(&mut text, true, &"f".to_string(), None);
    assert_eq!(text, "a = \"##.to_string() + &format!(\"\\\"{:?}\\\"\",  f())+ &r##\"\n");
}

#[test]
fn nested_sections_stand_behind_the_values() {
    assert_eq!(
        example("/// In\n #[toml_example(nesting)] a: Inner, b: u8, #[toml_example(nesting)] c: Vec<Inner>"),
        format!(
            "{START}{PREFIX}b = 0\n\n# In\n{}{}{END}",
            nested("Inner", "a", ("[", "]\n"), ""),
            nested("Inner", "c", ("[[", "]]\n"), "")
        )
    );
    assert_eq!(
        example("#[toml_example(nesting)] a: Option<Inner>"),
        format!("{START}{}{END}", nested("Inner", "a", ("# [", "]\n"), "# "))
    );
}

#[test]
fn nested_prefixes_stand_among_the_values() {
    assert_eq!(
        example("#[toml_example(nesting = prefix)] a: Inner, b: u8"),
        format!("{START}{}{PREFIX}b = 0\n\n{END}", nested("Inner", "", ("", ""), "a."))
    );
    assert_eq!(
        example("#[toml_example(nesting = prefix)] a: Option<Inner>"),
        format!("{START}{}{END}", nested("Inner", "", ("", ""), "# a."))
    );
}

#[test]
fn flattened_fields_stand_among_the_values() {
    assert_eq!(
        example("#[toml_example(nesting, flatten)] a: Inner, b: u8"),
        format!("{START}{}{PREFIX}b = 0\n\n{END}", nested("Inner", "", ("", ""), ""))
    );
    assert_eq!(
        example("#[toml_example(nesting, flatten, default = k)] a: HashMap<String, Inner>"),
        format!("{START}{}{END}", nested("Inner", "k", ("[", "]\n"), ""))
    );
    assert_eq!(
        example("#[toml_example(nesting, flatten)] a: HashMap<String, Inner>"),
        format!("{START}{END}")
    );
    assert_eq!(
        abort("struct S { #[toml_example(nesting, flatten)] a: Vec<Inner> }"),
        "Only structs and maps can be flattened! (But field `a` is a collection)"
    );
}

#[test]
fn nested_maps() {
    assert_eq!(
        example("#[toml_example(nesting)] a: HashMap<String, Inner>"),
        format!("{START}{}{END}", table("a", "\"\"", false))
    );
    assert_eq!(
        example("#[toml_example(nesting, default = \"my.key\")] a: HashMap<String, Inner>"),
        format!("{START}{}{END}", nested("Inner", "a.my-key", ("[", "]\n"), ""))
    );
}

#[test]
fn nesting_needs_a_named_type() {
    assert_eq!(
        abort("struct S { #[toml_example(nesting)] a: [Inner; 2] }"),
        "nesting only work on inner structure"
    );
}

#[test]
fn maps_are_tables() {
    assert_eq!(
        example("/// M\n r#m: Option<BTreeMap<String, u8>>, b: u8"),
        format!("{START}{PREFIX}b = 0\n\n# M\n{}{END}", table("m", "r##\"\"##", true))
    );
    assert_eq!(
        example("#[toml_example(default = { x = 1, y = 2 })] m: HashMap<String, u8>"),
        format!("{START}{}{END}", table("m", "r##\"x = 1\ny = 2\n\"##", false))
    );
    assert_eq!(
        abort("struct S { #[toml_example(default)] m: HashMap<String, u8> }"),
        "non-nesting HashMap/BTreeMap fields require a literal default"
    );
    assert_eq!(
        abort("struct S { m: HashMap<u8, u8> }"),
        "non-nesting HashMap/BTreeMap TOML examples require String keys"
    );
    assert_eq!(
        abort("struct S { #[toml_example(default = )] m: HashMap<String, u8> }"),
        "default value for non-nesting HashMap/BTreeMap fields must be an inline TOML table"
    );
}

#[test]
fn skipped_fields_add_nothing() {
    assert_eq!(
        example("/// A\n #[toml_example(skip)] a: u8, b: u8, #[serde(skip)] c: u8"),
        example("b: u8")
    );
}

#[test]
fn names_follow_the_rule_of_the_struct() {
    let parts = parts("#[serde(rename_all = \"kebab-case\")] struct S { a_b: u8, #[serde(rename = \"x_y\")] c_d: u8 }");
    assert_eq!(
        parts.unwrap().field_example,
        format!("{START}{PREFIX}a-b = 0\n\n{PREFIX}x_y = 0\n\n{END}")
    );
}

#[test]
fn texts_of_fields_are_put_together() {
    let inside = |fields: &str| -> String {
        let text = example(fields);
        text[START.len()..text.len() - END.len()].to_string()
    };
    let a = "a: u8, b: Option<String>";
    let b = "c: Vec<u8>, #[toml_example(nesting = prefix)] d: Inner";
    assert_eq!(inside(&format!("{}, {}", a, b)), inside(a) + &inside(b));
}

#[test]
fn first_abort_decides() {
    assert_eq!(
        abort("struct S { a: u8, b: bool, #[toml_example(x)] c: u8 }"),
        "default value for bool fields must be true or false"
    );
    assert_eq!(
        abort("struct S { a: u8, #[toml_example(x)] c: u8, b: bool }"),
        "x is not allowed attribute"
    );
}

#[test]
fn plain_structs_have_examples() {
    let parts = parts(
        "struct S { a: u8, b: Option<String>, c: Vec<bool>, d: HashMap<String, bool>, e: (u8, u8), \
         f: Inner, g: std::primitive::f32, h: &'static str }",
    );
    assert!(parts.is_ok());
}

#[test]
fn values_are_read() {
    let text = example("/// A\n /// \"#\n a: u8, #[toml_example(default = \"x\")] r#b: Option<String>, c: Vec<f32>");
    let raw = text.strip_prefix(START).unwrap().strip_suffix(END).unwrap();
    let lines = "# A\n# \"#\np.a = 0\n\n# p.b = \"x\"\n\np.c = [ 0.0, ]\n\n";
    assert_eq!(raw.split(PREFIX).collect::<Vec<_>>().join("p."), lines);
}

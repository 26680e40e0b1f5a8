use std::str::FromStr;

use proc_macro2::TokenStream;
use toml_example_derive::abort::Spot;
use toml_example_derive::example::Intermediate;
use toml_example_derive::DeriveError;

fn derived(source: &str) -> String {
    match toml_example_derive::derive(TokenStream::from_str(source).unwrap(), true) {
        Ok(text) => text,
        Err(DeriveError::Syntax(error)) => panic!("{}", error),
        Err(DeriveError::Abort(fault)) => panic!("{}", fault.abort.message()),
        Err(DeriveError::Lex(error)) => panic!("{}", error),
    }
}

fn implementation(name: &str, doc: &str, example: &str) -> String {
    format!(
        "impl toml_example::TomlExample for {name} {{
            fn toml_example() -> String {{
                {name}::toml_example_with_prefix(\"\", (\"\", \"\"), \"\")
            }}
            fn toml_example_with_prefix(label: &str, label_format: (&str, &str), prefix: &str)
                -> String {{
                let wrapped_label = if label_format.0.is_empty() {{
                    String::new()
                }} else {{
                    label_format.0.to_string() + label + label_format.1
                }};
                {doc}.to_string() + &wrapped_label + &{example}
            }}
        }}"
    )
}

fn tokens(text: &str) -> String {
    TokenStream::from_str(text).unwrap().to_string()
}

#[test]
fn derives_the_implementation() {
    let text = derived(
        "/// Config is \"it\"\nstruct Config { /// A number\n a: usize, b: Option<std::string::String>, \
         #[toml_example(default = [1, 2])] c: Vec<u8> }",
    );
    let example = "r##\"# A number
\"##.to_string() + prefix + &r##\"a = 0

# \"##.to_string() + prefix + &r##\"b = \"\"

\"##.to_string() + prefix + &r##\"c = [1 , 2]

\"##.to_string()";
    assert_eq!(
        tokens(&text),
        tokens(&implementation("Config", "\"# Config is \\\"it\\\"\\n\"", example))
    );
}

#[test]
fn derived_implementations_are_tokens() {
    for source in [
        "struct S { a: u8, m: HashMap<String, u8> }",
        "struct S { #[toml_example(nesting)] a: Option<Inner>, #[toml_example(nesting = prefix)] b: Inner }",
        "#[toml_example(default)] struct r#S { r#type: bool, #[toml_example(enum)] e: E }",
        "struct S;",
    ] {
        assert!(tokens(&derived(source)).starts_with("impl toml_example"));
    }
}

#[test]
fn names_of_raw_identifiers_are_kept() {
    assert!(derived("struct r#struct;").contains("for r#struct {"));
}

#[test]
fn docs_of_structs_are_literals() {
    let text = derived("/// a \\ \u{7}\n/// b\nstruct S;");
    let start = text.find("};").unwrap() + 2;
    let end = text.find(".to_string() + &wrapped_label").unwrap();
    let literal: syn::LitStr = syn::parse_str(text[start..end].trim()).unwrap();
    assert_eq!(literal.value(), "# a \\ \u{7}\n# b\n");
}

#[test]
fn tokens_that_are_no_item_are_an_error() {
    for source in ["", "fn f() {}", "struct", "struct S { a: u8 } struct T;"] {
        let stream = TokenStream::from_str(source).unwrap();
        assert!(matches!(toml_example_derive::derive(stream, true), Err(DeriveError::Syntax(_))));
    }
}

#[test]
fn aborts_are_errors() {
    let stream = TokenStream::from_str("enum E { A }").unwrap();
    match toml_example_derive::derive(stream, true) {
        Err(DeriveError::Abort(fault)) => {
            assert_eq!(fault.abort.message(), "TomlExample derive only use for struct")
        }
        _ => panic!(),
    }
}

#[test]
fn serde_attributes_count_only_if_asked_for() {
    let source = "struct S { #[serde(rename = \"x\")] a: u8 }";
    let text = |serde: bool| {
        match toml_example_derive::derive(TokenStream::from_str(source).unwrap(), serde) {
            Ok(text) => text,
            Err(_) => panic!(),
        }
    };
    assert!(text(true).contains("x = 0") && !text(true).contains("a = 0"));
    assert!(text(false).contains("a = 0") && !text(false).contains("x = 0"));
}

#[test]
fn expressions_that_are_no_tokens_are_an_error() {
    let parts = Intermediate {
        struct_name: "S".to_string(),
        struct_doc: String::new(),
        field_example: "r##\"".to_string(),
    };
    assert!(parts.to_token_stream().is_err());
    let stream = TokenStream::from_str("struct S { #[doc = \"a\\\"## (\"] a: u8 }").unwrap();
    assert!(matches!(toml_example_derive::derive(stream, true), Err(DeriveError::Lex(_))));
}

#[test]
fn implementations_are_assembled() {
    let parts = Intermediate {
        struct_name: "S".to_string(),
        struct_doc: "# d\n".to_string(),
        field_example: "e()".to_string(),
    };
    let text = parts.assemble(Ok(()), "L").unwrap();
    assert_eq!(tokens(&text), tokens(&implementation("S", "L", "e()")));
    let error = TokenStream::from_str("(").unwrap_err();
    assert!(parts.assemble(Err(error), "L").is_err());
    let text = parts.to_token_stream().unwrap();
    assert_eq!(tokens(&text), tokens(&implementation("S", "\"# d\\n\"", "e()")));
}

#[test]
fn types_are_read_with_their_arguments() {
    let text = derived("struct S { a: Option<Vec<std::collections::BTreeSet<u8>>> }");
    assert!(text.contains("a = [ [ 0, ], ]"));
    let text = derived("struct S { b: X<'a>, c: &'static str }");
    assert!(text.contains("b = \n") && text.contains("c = \n"));
}

#[test]
fn types_of_longer_paths_are_read() {
    let text = derived("struct S { a: std::vec::Vec<std::primitive::u8>, b: Vec<u8>::Item }");
    assert!(text.contains("a = [ 0, ]") && text.contains("b = \"\""));
    let text = derived("struct S { #[toml_example(nesting, default = \"k\")] m: HashMap<String, Inner, RandomState> }");
    assert!(text.contains("Inner::toml_example_with_prefix"));
    let text = derived("struct S { #[toml_example(nesting, default = \"k\")] m: HashMap<'a, String, Inner> }");
    assert!(text.contains("Inner::toml_example_with_prefix"));
}

#[test]
fn faults_point_to_their_places() {
    let fault = |source: &str| {
        let stream = TokenStream::from_str(source).unwrap();
        match toml_example_derive::derive(stream, true) {
            Err(DeriveError::Abort(fault)) => (fault.field, fault.spot),
            _ => panic!(),
        }
    };
    assert!(matches!(fault("enum S { A }"), (None, Spot::Name)));
    assert!(matches!(fault("#[a] #[toml_example(x)] struct S { a: u8 }"), (None, Spot::Attr(1))));
    assert!(matches!(
        fault("struct S { a: u8, #[b] #[c] #[serde(rename_all = \"x\")] b: u8 }"),
        (Some(1), Spot::AttrTokens(2))
    ));
    assert!(matches!(
        fault("struct S { #[toml_example(nesting = x)] a: u8 }"),
        (Some(0), Spot::Attr(0))
    ));
    assert!(matches!(fault("struct S { a: u8, b: bool }"), (Some(1), Spot::Whole)));
    assert!(matches!(
        fault("struct S { a: u8, b: u8, #[toml_example(nesting)] c: [u8; 2] }"),
        (Some(2), Spot::Name)
    ));
    assert!(matches!(
        fault("struct S { #[toml_example(nesting, flatten)] a: Vec<Inner> }"),
        (Some(0), Spot::Nowhere)
    ));
}

use toml_example_derive::abort::Abort;

#[test]
fn messages() {
    let said = |abort: Abort<String>| abort.message();
    assert_eq!(said(Abort::NotAStruct), "TomlExample derive only use for struct");
    assert_eq!(said(Abort::UnnamedField), "The field should has name");
    assert_eq!(said(Abort::UnsupportedRenameRule), "unsupported rename rule");
    assert_eq!(said(Abort::UnknownNesting), "please use prefix or section for nesting derive");
    assert_eq!(said(Abort::NotAllowedAttribute("x".to_string())), "x is not allowed attribute");
    assert_eq!(
        said(Abort::FlattenedCollection("x".to_string())),
        "Only structs and maps can be flattened! (But field `x` is a collection)"
    );
    assert_eq!(said(Abort::NestingWithoutType), "nesting only work on inner structure");
    assert_eq!(
        said(Abort::DefaultValueOnStruct),
        "Setting a default value on a struct is not supported!"
    );
    assert_eq!(
        said(Abort::MapKeyNotString),
        "non-nesting HashMap/BTreeMap TOML examples require String keys"
    );
    assert_eq!(
        said(Abort::MapDefaultNotLiteral),
        "non-nesting HashMap/BTreeMap fields require a literal default"
    );
    assert_eq!(
        said(Abort::NotInlineTable),
        "default value for non-nesting HashMap/BTreeMap fields must be an inline TOML table"
    );
    assert_eq!(
        said(Abort::EntryWithoutValue),
        "inline TOML table default entries must use `key = value`"
    );
    assert_eq!(
        said(Abort::NotArray),
        "default value for Vec/HashSet/BTreeSet fields must be a TOML array"
    );
    assert_eq!(said(Abort::NotQuoted), "default value for String fields must be quoted");
    assert_eq!(said(Abort::NotBool), "default value for bool fields must be true or false");
    assert_eq!(
        said(Abort::NotUnsigned),
        "default value for unsigned integer fields must be an unsigned integer"
    );
    assert_eq!(
        said(Abort::NotSigned),
        "default value for signed integer fields must be a signed integer"
    );
    assert_eq!(said(Abort::NotFloat), "default value for float fields must be a float");
}

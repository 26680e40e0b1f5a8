use toml_example_derive::case::RenameRule;

fn rule(name: &str) -> RenameRule {
    RenameRule::from_str(name).unwrap()
}

#[test]
fn reads_rename_rules() {
    assert_eq!(rule("lowercase"), RenameRule::LowerCase);
    assert_eq!(rule("UPPERCASE"), RenameRule::UpperCase);
    assert_eq!(rule("PascalCase"), RenameRule::PascalCase);
    assert_eq!(rule("camelCase"), RenameRule::CamelCase);
    assert_eq!(rule("snake_case"), RenameRule::SnakeCase);
    assert_eq!(rule("SCREAMING_SNAKE_CASE"), RenameRule::ScreamingSnakeCase);
    assert_eq!(rule("kebab-case"), RenameRule::KebabCase);
    assert_eq!(rule("SCREAMING-KEBAB-CASE"), RenameRule::ScreamingKebabCase);
    assert!(RenameRule::from_str("Lowercase").is_err());
    assert!(RenameRule::from_str("").is_err());
}

#[test]
fn renames_fields() {
    for (name, field) in [
        ("lowercase", "very_tasty"),
        ("UPPERCASE", "VERY_TASTY"),
        ("PascalCase", "VeryTasty"),
        ("camelCase", "veryTasty"),
        ("snake_case", "very_tasty"),
        ("SCREAMING_SNAKE_CASE", "VERY_TASTY"),
        ("kebab-case", "very-tasty"),
        ("SCREAMING-KEBAB-CASE", "VERY-TASTY"),
    ] {
        assert_eq!(rule(name).apply_to_field("very_tasty"), field);
    }
    assert_eq!(RenameRule::Unchanged.apply_to_field("very_tasty"), "very_tasty");
}

#[test]
fn renames_short_fields() {
    assert_eq!(rule("PascalCase").apply_to_field("z42"), "Z42");
    assert_eq!(rule("camelCase").apply_to_field("z42"), "z42");
    assert_eq!(rule("camelCase").apply_to_field("_"), "");
    assert_eq!(rule("camelCase").apply_to_field("__a__b"), "aB");
    assert_eq!(rule("PascalCase").apply_to_field(""), "");
}

#[test]
fn pascal_and_kebab_names_have_no_underscore() {
    for name in ["PascalCase", "camelCase", "kebab-case", "SCREAMING-KEBAB-CASE"] {
        assert!(!rule(name).apply_to_field("_a__b_").contains('_'));
    }
}

//! The expression for the example of a struct.

use vstd::prelude::*;

use crate::abort::{at_field, in_field, outcome, points_into, Abort, Fault, Spot};
use crate::ast::{DataView, FieldView, Item, ItemData, ItemField, ItemView};
use crate::attrs::{law_fault_points_to_attr, parse_attrs, said_by};
use crate::attrs::{DefaultSource, NestingFormat, NestingType};
use crate::case::RenameRule;
use crate::defaults::{has_own_example, inline_table_body, law_accepted_table_has_lines, table_lines};
use crate::field::{doc_lines, field_of, law_field_without_attrs, parse_field, push_doc_string};
use crate::field::{ParsedField, ParsedFieldView};
use crate::parts::{expression_of, law_meaning_append, rendered, spliced, splicing, Part};
use crate::parts::{lemma_one_part, lemma_three_parts, lemma_two_parts};
use crate::parts::{RAW_AGAIN, RAW_END, RAW_START, RAW_STRING};
use crate::text::{replace, replaced, starts_at, trim_start_matches, trimmed};
use crate::text::without_repeated_prefix;
use crate::types::FieldKind;

verus! {

/// What a field adds to the expression for the example of a struct.
pub struct FieldParts {
    /// What stands among the values of the struct.
    pub inline: Seq<Part>,
    /// What stands among the sections, behind all values of the struct.
    pub section: Seq<Part>,
}

/// What a field adds that is left out: nothing.
pub open spec fn no_parts() -> FieldParts {
    FieldParts { inline: seq![], section: seq![] }
}

/// `true` or `false`.
pub open spec fn bool_text(b: bool) -> Seq<char> {
    if b {
        "true"@
    } else {
        "false"@
    }
}

/// What shows a value, an enum in quotes.
pub open spec fn shown(is_enum: bool, value: Seq<char>) -> Seq<char> {
    if is_enum {
        " + &format!(\"\\\"{:?}\\\"\",  "@ + value + ")"@
    } else {
        " + &format!(\"{:?}\",  "@ + value + ")"@
    }
}

/// The rest of the line of a field with the default of a type, or a part of it.
pub open spec fn default_fn_parts(is_enum: bool, ty: Seq<char>, suffix: Seq<char>) -> Seq<Part> {
    seq![
        Part::Text(" = "@),
        Part::Code(shown(is_enum, ty + "::default()"@ + suffix) + " "@),
        Part::Text("\n"@),
    ]
}

/// The rest of the line of a field with the result of a function, or a part of it.
pub open spec fn serde_fn_parts(is_enum: bool, name: Seq<char>, suffix: Seq<char>) -> Seq<Part> {
    seq![
        Part::Text(" = "@),
        Part::Code(shown(is_enum, name + "()"@ + suffix)),
        Part::Text("\n"@),
    ]
}

/// The name of a field without the mark of a raw identifier.
pub open spec fn bare_name(name: Seq<char>) -> Seq<char> {
    without_repeated_prefix(name, "r#"@)
}

/// A table, with the path of the struct in front of its name.
pub open spec fn table_parts(field: ParsedFieldView, body: Seq<char>) -> Seq<Part> {
    seq![
        Part::Text(doc_lines(field.docs)),
        Part::Code(
            " + &toml_example::format_table_example(label, prefix, \""@ + bare_name(field.name)
                + "\", "@ + body + ", "@ + bool_text(field.optional) + ") "@,
        ),
    ]
}

/// A nested field: the example of its type, under a header in this form.
pub open spec fn nested_parts(
    field: ParsedFieldView,
    ty: Seq<char>,
    before: Seq<char>,
    after: Seq<char>,
) -> Seq<Part> {
    seq![
        Part::Text(doc_lines(field.docs)),
        Part::Code(
            " + &"@ + ty + "::toml_example_with_prefix(&"@ + field.label() + ", (\""@ + before
                + "\", \""@ + after + "\"), \""@ + field.prefix() + "\") "@,
        ),
    ]
}

/// What a nested field adds: with a prefix or merged into the struct, it stands among the values,
/// else among the sections.
pub open spec fn nested_field(field: ParsedFieldView) -> Result<FieldParts, Abort<Seq<char>>> {
    match field.ty {
        Some(ty) => match field.label_format() {
            Ok((before, after)) => {
                let prefix = field.nesting_format == Some(NestingFormat::Prefix);
                let single = field.nesting_format == Some(
                    NestingFormat::Section(NestingType::Single),
                );
                let comment = if field.optional && !prefix {
                    "# "@
                } else {
                    seq![]
                };
                let newline = if prefix || (field.flatten && single) {
                    seq![]
                } else {
                    "\n"@
                };
                let parts = nested_parts(field, ty, comment + before, after + newline);
                if prefix || field.flatten {
                    Ok(FieldParts { inline: parts, ..no_parts() })
                } else {
                    Ok(FieldParts { section: parts, ..no_parts() })
                }
            },
            Err(abort) => Err(abort),
        },
        None => Err(Abort::NestingWithoutType),
    }
}

/// What a map adds that is not nested: a section with the entries of its default.
pub open spec fn table_field(field: ParsedFieldView) -> Result<FieldParts, Abort<Seq<char>>> {
    match field.default {
        DefaultSource::DefaultValue(default) => {
            let body = if field.explicit_default {
                table_lines(default)
            } else {
                Ok(seq![])
            };
            match body {
                Ok(body) => Ok(
                    FieldParts {
                        section: table_parts(field, "r##\""@ + body + "\"##"@),
                        ..no_parts()
                    },
                ),
                Err(abort) => Err(abort),
            }
        },
        _ => Err(Abort::MapDefaultNotLiteral),
    }
}

/// A value in the line of a field. That of an optional field is commented out.
pub open spec fn value_text(optional: bool, value: Seq<char>) -> Seq<char> {
    if optional {
        replaced(value, '\n', "\n# "@)
    } else {
        value
    }
}

/// The rest of the line of a field, with the default of the struct if the field has none.
pub open spec fn value_parts(
    struct_ty: Seq<char>,
    struct_default: Option<DefaultSource<Seq<char>>>,
    ident: Seq<char>,
    field: ParsedFieldView,
) -> Result<Seq<Part>, Abort<Seq<char>>> {
    match field.default {
        DefaultSource::DefaultValue(default) => Ok(
            seq![Part::Text(" = "@ + value_text(field.optional, default) + "\n"@)],
        ),
        DefaultSource::DefaultFn(Some(ty)) => Ok(default_fn_parts(field.is_enum, ty, seq![])),
        DefaultSource::DefaultFn(None) => match struct_default {
            Some(DefaultSource::DefaultFn(None)) => Ok(
                default_fn_parts(field.is_enum, struct_ty, "."@ + ident),
            ),
            Some(DefaultSource::SerdeDefaultFn(name)) => Ok(
                serde_fn_parts(field.is_enum, name, "."@ + ident),
            ),
            Some(DefaultSource::DefaultValue(_)) => Err(Abort::DefaultValueOnStruct),
            _ => Ok(seq![Part::Text(" = \"\"\n"@)]),
        },
        DefaultSource::SerdeDefaultFn(name) => Ok(serde_fn_parts(field.is_enum, name, seq![])),
    }
}

/// The mark of a comment in front of an optional field.
pub open spec fn comment_mark(optional: bool) -> Seq<char> {
    if optional {
        "# "@
    } else {
        seq![]
    }
}

/// What a field adds that is a value: its line, behind its documentation and before an empty line.
pub open spec fn leaf_field(
    struct_ty: Seq<char>,
    struct_default: Option<DefaultSource<Seq<char>>>,
    ident: Seq<char>,
    field: ParsedFieldView,
) -> Result<FieldParts, Abort<Seq<char>>> {
    match value_parts(struct_ty, struct_default, ident, field) {
        Ok(value) => Ok(
            FieldParts {
                inline: seq![
                    Part::Text(doc_lines(field.docs) + comment_mark(field.optional)),
                    Part::Code(" + prefix "@),
                    Part::Text(bare_name(field.name)),
                ] + value + seq![Part::Text("\n"@)],
                ..no_parts()
            },
        ),
        Err(abort) => Err(abort),
    }
}

/// What a field adds to the expression for the example of a struct.
pub open spec fn field_parts(
    struct_ty: Seq<char>,
    struct_default: Option<DefaultSource<Seq<char>>>,
    ident: Seq<char>,
    field: ParsedFieldView,
) -> Result<FieldParts, Abort<Seq<char>>> {
    if field.skip {
        Ok(no_parts())
    } else if field.nesting_format == Some(NestingFormat::Section(NestingType::Dict))
        && !field.has_explicit_default_value() {
        if field.flatten {
            Ok(no_parts())
        } else {
            Ok(FieldParts { section: table_parts(field, "\"\""@), ..no_parts() })
        }
    } else if field.nesting_format is Some {
        nested_field(field)
    } else if field.kind is Dict {
        table_field(field)
    } else {
        leaf_field(struct_ty, struct_default, ident, field)
    }
}

/// What a field, given by its attributes, name and type, adds to the expression for the example of
/// a struct.
#[verifier::opaque]
pub open spec fn raw_field_parts(
    struct_ty: Seq<char>,
    struct_default: Option<DefaultSource<Seq<char>>>,
    field: FieldView,
    rename_rule: RenameRule,
    serde: bool,
) -> Result<FieldParts, Fault<Seq<char>, int>> {
    match field_of(struct_default is Some, field, rename_rule, serde) {
        Ok(parsed) => match field_parts(struct_ty, struct_default, field.ident->0, parsed) {
            Ok(parts) => Ok(parts),
            Err(abort) => Err(in_field(abort)),
        },
        Err(fault) => Err(fault),
    }
}

/// What the fields of a struct add, one after the other.
pub open spec fn fields_parts(
    struct_ty: Seq<char>,
    struct_default: Option<DefaultSource<Seq<char>>>,
    fields: Seq<FieldView>,
    rename_rule: RenameRule,
    serde: bool,
) -> Result<FieldParts, Fault<Seq<char>, int>>
    decreases fields.len(),
{
    if fields.len() == 0 {
        Ok(no_parts())
    } else {
        match fields_parts(struct_ty, struct_default, fields.drop_last(), rename_rule, serde) {
            Ok(before) => match raw_field_parts(
                struct_ty,
                struct_default,
                fields.last(),
                rename_rule,
                serde,
            ) {
                Ok(parts) => Ok(
                    FieldParts {
                        inline: before.inline + parts.inline,
                        section: before.section + parts.section,
                    },
                ),
                Err(fault) => Err(at_field(fault, fields.len() - 1)),
            },
            Err(fault) => Err(fault),
        }
    }
}

/// The named fields of a struct.
pub open spec fn named_fields(data: DataView) -> Seq<FieldView> {
    match data {
        DataView::NamedFields(fields) => fields,
        _ => seq![],
    }
}

/// The expression for the values and sections of a struct: the values first, to the bottom the
/// sections.
pub open spec fn example_of(
    struct_ty: Seq<char>,
    struct_default: Option<DefaultSource<Seq<char>>>,
    fields: Seq<FieldView>,
    rename_rule: RenameRule,
    serde: bool,
) -> Result<Seq<char>, Fault<Seq<char>, int>> {
    match fields_parts(struct_ty, struct_default, fields, rename_rule, serde) {
        Ok(parts) => Ok(expression_of(parts.inline + parts.section)),
        Err(fault) => Err(fault),
    }
}

/// Code between two raw strings.
fn splice(code: &str) -> (r: String)
    ensures
        r@ == spliced(code@),
{
    RAW_END.to_owned().concat(RAW_STRING).concat(code).concat(RAW_AGAIN)
}

/// What shows a value, an enum in quotes.
fn show(is_enum: bool, value: &str) -> (r: String)
    ensures
        r@ == shown(is_enum, value@),
{
    if is_enum {
        " + &format!(\"\\\"{:?}\\\"\",  ".to_owned().concat(value).concat(")")
    } else {
        " + &format!(\"{:?}\",  ".to_owned().concat(value).concat(")")
    }
}

/// The text, or none.
pub open spec fn text_or_none(text: Option<String>) -> Seq<char> {
    match text {
        Some(text) => text@,
        None => seq![],
    }
}

/// The text, or an empty one.
fn or_empty(text: Option<String>) -> (r: String)
    ensures
        r@ == text_or_none(text),
{
    match text {
        Some(text) => text,
        None => String::new(),
    }
}

/// Adds the rest of the line of a field with the default of a type, or a part of it.
pub fn handle_default_fn_source(
    field_example: &mut String,
    is_enum: bool,
    type_ident: String,
    suffix: Option<String>,
)
    ensures
        final(field_example)@ == old(field_example)@ + rendered(
            default_fn_parts(is_enum, type_ident@, text_or_none(suffix)),
        ),
{
    let suffix = or_empty(suffix);
    let value = type_ident.concat("::default()").concat(suffix.as_str());
    let code = show(is_enum, value.as_str()).concat(" ");
    let text = " = ".to_owned().concat(splice(code.as_str()).as_str()).concat("\n");
    proof {
        lemma_three_parts(Part::Text(" = "@), Part::Code(code@), Part::Text("\n"@), splicing());
    }
    field_example.append(text.as_str());
}

/// Adds the rest of the line of a field with the result of a function, or a part of it.
pub fn handle_serde_default_fn_source(
    field_example: &mut String,
    is_enum: bool,
    fn_str: &String,
    suffix: Option<String>,
)
    ensures
        final(field_example)@ == old(field_example)@ + rendered(
            serde_fn_parts(is_enum, fn_str@, text_or_none(suffix)),
        ),
{
    let suffix = or_empty(suffix);
    let value = fn_str.clone().concat("()").concat(suffix.as_str());
    let code = show(is_enum, value.as_str());
    let text = " = ".to_owned().concat(splice(code.as_str()).as_str()).concat("\n");
    proof {
        lemma_three_parts(Part::Text(" = "@), Part::Code(code@), Part::Text("\n"@), splicing());
    }
    field_example.append(text.as_str());
}

/// The comment lines of the documentation of a field.
fn doc_text(field: &ParsedField) -> (r: String)
    ensures
        r@ == doc_lines(field.deep_view().docs),
{
    let mut text = String::new();
    field.push_doc_to_string(&mut text);
    proof {
        assert(text@ =~= doc_lines(field.deep_view().docs));
    }
    text
}

/// The name of a field without the mark of a raw identifier.
fn name_text(field: &ParsedField) -> (r: &str)
    ensures
        r@ == bare_name(field.deep_view().name),
{
    trim_start_matches(field.name.as_str(), "r#")
}

/// Adds the text of a table.
fn push_table(example: &mut String, field: &ParsedField, body: &str)
    ensures
        final(example)@ == old(example)@ + rendered(table_parts(field.deep_view(), body@)),
{
    let optional = if field.optional {
        "true"
    } else {
        "false"
    };
    let code = " + &toml_example::format_table_example(label, prefix, \"".to_owned().concat(
        name_text(field),
    ).concat("\", ").concat(body).concat(", ").concat(optional).concat(") ");
    let docs = doc_text(field);
    proof {
        lemma_two_parts(Part::Text(docs@), Part::Code(code@), splicing());
    }
    example.append(docs.concat(splice(code.as_str()).as_str()).as_str());
}

/// Adds the text of a nested field.
fn push_nested(example: &mut String, field: &ParsedField, ty: &str, before: &str, after: &str)
    ensures
        final(example)@ == old(example)@ + rendered(
            nested_parts(field.deep_view(), ty@, before@, after@),
        ),
{
    let code = " + &".to_owned().concat(ty).concat("::toml_example_with_prefix(&").concat(
        field.label().as_str(),
    ).concat(", (\"").concat(before).concat("\", \"").concat(after).concat("\"), \"").concat(
        field.prefix().as_str(),
    ).concat("\") ");
    let docs = doc_text(field);
    proof {
        lemma_two_parts(Part::Text(docs@), Part::Code(code@), splicing());
    }
    example.append(docs.concat(splice(code.as_str()).as_str()).as_str());
}

/// Adds what a nested field adds to the values and to the sections.
fn push_nested_field(
    field_example: &mut String,
    nesting_field_example: &mut String,
    field: &ParsedField,
) -> (r: Result<(), Abort<String>>)
    ensures
        match r {
            Ok(_) => nested_field(field.deep_view()) matches Ok(parts) && {
                &&& final(field_example)@ == old(field_example)@ + rendered(parts.inline)
                &&& final(nesting_field_example)@ == old(nesting_field_example)@ + rendered(
                    parts.section,
                )
            },
            Err(abort) => nested_field(field.deep_view()) == Err::<FieldParts, _>(
                abort.deep_view(),
            ),
        },
{
    let Some(ty) = &field.ty else {
        return Err(Abort::NestingWithoutType);
    };
    let (before, after) = match field.label_format() {
        Ok(format) => format,
        Err(abort) => {
            return Err(abort);
        },
    };
    let prefix = field.nesting_format == Some(NestingFormat::Prefix);
    let single = field.nesting_format == Some(NestingFormat::Section(NestingType::Single));
    let start = if field.optional && !prefix {
        "# ".to_owned().concat(before)
    } else {
        before.to_owned()
    };
    let end = if prefix || (field.flatten && single) {
        after.to_owned()
    } else {
        after.to_owned().concat("\n")
    };
    proof {
        assert(Seq::<char>::empty() + before@ =~= before@);
        assert(after@ + Seq::<char>::empty() =~= after@);
        assert(field_example@ + Seq::<char>::empty() =~= field_example@);
        assert(nesting_field_example@ + Seq::<char>::empty() =~= nesting_field_example@);
    }
    if prefix || field.flatten {
        push_nested(field_example, field, ty.as_str(), start.as_str(), end.as_str());
    } else {
        push_nested(nesting_field_example, field, ty.as_str(), start.as_str(), end.as_str());
    }
    Ok(())
}

/// Adds what a map adds to the sections that is not nested.
fn push_table_field(nesting_field_example: &mut String, field: &ParsedField) -> (r: Result<
    (),
    Abort<String>,
>)
    ensures
        match r {
            Ok(_) => table_field(field.deep_view()) matches Ok(parts) && {
                &&& parts.inline == Seq::<Part>::empty()
                &&& final(nesting_field_example)@ == old(nesting_field_example)@ + rendered(
                    parts.section,
                )
            },
            Err(abort) => table_field(field.deep_view()) == Err::<FieldParts, _>(abort.deep_view()),
        },
{
    let DefaultSource::DefaultValue(default) = &field.default else {
        return Err(Abort::MapDefaultNotLiteral);
    };
    let lines = if field.explicit_default {
        match inline_table_body(default.as_str()) {
            Ok(lines) => lines,
            Err(abort) => {
                return Err(abort);
            },
        }
    } else {
        String::new()
    };
    let body = "r##\"".to_owned().concat(lines.as_str()).concat("\"##");
    push_table(nesting_field_example, field, body.as_str());
    Ok(())
}

/// Adds the rest of the line of a field, with the default of the struct if the field has none.
fn push_value(
    field_example: &mut String,
    struct_ty: &str,
    struct_default: Option<&DefaultSource<String>>,
    ident: &str,
    field: &ParsedField,
) -> (r: Result<(), Abort<String>>)
    ensures
        match r {
            Ok(_) => value_parts(struct_ty@, struct_default.deep_view(), ident@, field.deep_view())
                matches Ok(parts) && final(field_example)@ == old(field_example)@ + rendered(parts),
            Err(abort) => value_parts(
                struct_ty@,
                struct_default.deep_view(),
                ident@,
                field.deep_view(),
            ) == Err::<Seq<Part>, _>(abort.deep_view()),
        },
{
    match &field.default {
        DefaultSource::DefaultValue(default) => {
            let value = if field.optional {
                replace(default.as_str(), '\n', "\n# ")
            } else {
                default.clone()
            };
            let text = " = ".to_owned().concat(value.as_str()).concat("\n");
            proof {
                lemma_one_part(Part::Text(text@), splicing());
            }
            field_example.append(text.as_str());
        },
        DefaultSource::DefaultFn(None) => match struct_default {
            Some(DefaultSource::DefaultFn(None)) => {
                let suffix = ".".to_owned().concat(ident);
                handle_default_fn_source(
                    field_example,
                    field.is_enum,
                    struct_ty.to_owned(),
                    Some(suffix),
                );
            },
            Some(DefaultSource::SerdeDefaultFn(name)) => {
                let suffix = ".".to_owned().concat(ident);
                handle_serde_default_fn_source(field_example, field.is_enum, name, Some(suffix));
            },
            Some(DefaultSource::DefaultValue(_)) => {
                return Err(Abort::DefaultValueOnStruct);
            },
            _ => {
                proof {
                    lemma_one_part(Part::Text(" = \"\"\n"@), splicing());
                }
                field_example.append(" = \"\"\n");
            },
        },
        DefaultSource::DefaultFn(Some(ty)) => {
            handle_default_fn_source(field_example, field.is_enum, ty.clone(), None);
        },
        DefaultSource::SerdeDefaultFn(name) => {
            handle_serde_default_fn_source(field_example, field.is_enum, name, None);
        },
    }
    Ok(())
}

/// Adds the line of a field that is a value.
fn push_leaf_field(
    field_example: &mut String,
    struct_ty: &str,
    struct_default: Option<&DefaultSource<String>>,
    ident: &str,
    field: &ParsedField,
) -> (r: Result<(), Abort<String>>)
    ensures
        match r {
            Ok(_) => leaf_field(struct_ty@, struct_default.deep_view(), ident@, field.deep_view())
                matches Ok(parts) && {
                &&& final(field_example)@ == old(field_example)@ + rendered(parts.inline)
                &&& parts.section == Seq::<Part>::empty()
            },
            Err(abort) => leaf_field(
                struct_ty@,
                struct_default.deep_view(),
                ident@,
                field.deep_view(),
            ) == Err::<FieldParts, _>(abort.deep_view()),
        },
{
    let comment = if field.optional {
        "# ".to_owned()
    } else {
        String::new()
    };
    let start = doc_text(field).concat(comment.as_str());
    let name = name_text(field);
    let mut text = start.concat(splice(" + prefix ").as_str()).concat(name);
    proof {
        lemma_three_parts(
            Part::Text(start@),
            Part::Code(" + prefix "@),
            Part::Text(name@),
            splicing(),
        );
    }
    if let Err(abort) = push_value(&mut text, struct_ty, struct_default, ident, field) {
        return Err(abort);
    }
    text.append("\n");
    proof {
        let head = seq![Part::Text(start@), Part::Code(" + prefix "@), Part::Text(name@)];
        let value = value_parts(
            struct_ty@,
            struct_default.deep_view(),
            ident@,
            field.deep_view(),
        )->Ok_0;
        law_meaning_append(head, value, splicing());
        lemma_one_part(Part::Text("\n"@), splicing());
        law_meaning_append(head + value, seq![Part::Text("\n"@)], splicing());
    }
    field_example.append(text.as_str());
    Ok(())
}

/// Adds what a field adds to the values and to the sections.
fn push_field(
    field_example: &mut String,
    nesting_field_example: &mut String,
    struct_ty: &str,
    struct_default: Option<&DefaultSource<String>>,
    ident: &str,
    field: &ParsedField,
) -> (r: Result<(), Abort<String>>)
    ensures
        match r {
            Ok(_) => field_parts(struct_ty@, struct_default.deep_view(), ident@, field.deep_view())
                matches Ok(parts) && {
                &&& final(field_example)@ == old(field_example)@ + rendered(parts.inline)
                &&& final(nesting_field_example)@ == old(nesting_field_example)@ + rendered(
                    parts.section,
                )
            },
            Err(abort) => field_parts(
                struct_ty@,
                struct_default.deep_view(),
                ident@,
                field.deep_view(),
            ) == Err::<FieldParts, _>(abort.deep_view()),
        },
{
    proof {
        assert(field_example@ + Seq::<char>::empty() =~= field_example@);
        assert(nesting_field_example@ + Seq::<char>::empty() =~= nesting_field_example@);
    }
    if field.skip {
        return Ok(());
    }
    if field.nesting_format == Some(NestingFormat::Section(NestingType::Dict))
        && !field.has_explicit_default_value() {
        if !field.flatten {
            push_table(nesting_field_example, field, "\"\"");
        }
        Ok(())
    } else if field.nesting_format.is_some() {
        push_nested_field(field_example, nesting_field_example, field)
    } else if let FieldKind::Dict { .. } = field.kind {
        push_table_field(nesting_field_example, field)
    } else {
        push_leaf_field(field_example, struct_ty, struct_default, ident, field)
    }
}

/// Adds what a field, given by its attributes, name and type, adds to the values and to the
/// sections.
fn push_raw_field(
    field_example: &mut String,
    nesting_field_example: &mut String,
    struct_ty: &str,
    struct_default: Option<&DefaultSource<String>>,
    field: &ItemField,
    rename_rule: RenameRule,
    serde: bool,
) -> (r: Result<(), Fault<String, usize>>)
    ensures
        match r {
            Ok(_) => raw_field_parts(
                struct_ty@,
                struct_default.deep_view(),
                field.deep_view(),
                rename_rule,
                serde,
            ) matches Ok(parts) && {
                &&& final(field_example)@ == old(field_example)@ + rendered(parts.inline)
                &&& final(nesting_field_example)@ == old(nesting_field_example)@ + rendered(
                    parts.section,
                )
            },
            Err(fault) => raw_field_parts(
                struct_ty@,
                struct_default.deep_view(),
                field.deep_view(),
                rename_rule,
                serde,
            ) == Err::<FieldParts, _>(fault.deep_view()),
        },
{
    proof {
        reveal(raw_field_parts);
    }
    let parsed = match parse_field(struct_default, field, rename_rule, serde) {
        Ok(parsed) => parsed,
        Err(fault) => {
            return Err(fault);
        },
    };
    let Some(ident) = &field.ident else {
        return Err(Fault::in_field(Abort::UnnamedField));
    };
    match push_field(
        field_example,
        nesting_field_example,
        struct_ty,
        struct_default,
        ident.as_str(),
        &parsed,
    ) {
        Ok(_) => Ok(()),
        Err(abort) => Err(Fault::in_field(abort)),
    }
}

/// The first field that no example can be derived for decides, whatever fields follow.
pub proof fn law_first_abort_decides(
    struct_ty: Seq<char>,
    struct_default: Option<DefaultSource<Seq<char>>>,
    fields: Seq<FieldView>,
    rename_rule: RenameRule,
    serde: bool,
    n: int,
)
    requires
        0 <= n <= fields.len(),
        fields_parts(struct_ty, struct_default, fields.take(n), rename_rule, serde) is Err,
    ensures
        fields_parts(struct_ty, struct_default, fields, rename_rule, serde) == fields_parts(
            struct_ty,
            struct_default,
            fields.take(n),
            rename_rule,
            serde,
        ),
    decreases fields.len(),
{
    if n < fields.len() {
        assert(fields.drop_last().take(n) =~= fields.take(n));
        law_first_abort_decides(struct_ty, struct_default, fields.drop_last(), rename_rule, serde, n);
    } else {
        assert(fields.take(n) =~= fields);
    }
}

/// The text of fields is made of the texts of any two parts of them: first the values of the one,
/// then those of the other, and likewise their sections.
pub proof fn law_fields_append(
    struct_ty: Seq<char>,
    struct_default: Option<DefaultSource<Seq<char>>>,
    first: Seq<FieldView>,
    second: Seq<FieldView>,
    rename_rule: RenameRule,
    serde: bool,
)
    ensures
        fields_parts(struct_ty, struct_default, first + second, rename_rule, serde) == match (
            fields_parts(struct_ty, struct_default, first, rename_rule, serde),
            fields_parts(struct_ty, struct_default, second, rename_rule, serde),
        ) {
            (Ok(a), Ok(b)) => Ok::<_, Fault<Seq<char>, int>>(
                FieldParts { inline: a.inline + b.inline, section: a.section + b.section },
            ),
            (Err(fault), _) => Err(fault),
            (_, Err(fault)) => Err(at_field(fault, first.len() + fault.field->0)),
        },
    decreases second.len(),
{
    let all = first + second;
    let a = fields_parts(struct_ty, struct_default, first, rename_rule, serde);
    if second.len() == 0 {
        assert(all =~= first);
        if let Ok(parts) = a {
            assert(parts.inline + Seq::<Part>::empty() =~= parts.inline);
            assert(parts.section + Seq::<Part>::empty() =~= parts.section);
        }
    } else {
        let init = second.drop_last();
        assert(all.drop_last() =~= first + init);
        assert(all.last() == second.last());
        law_fields_append(struct_ty, struct_default, first, init, rename_rule, serde);
        let b = fields_parts(struct_ty, struct_default, init, rename_rule, serde);
        let c = raw_field_parts(struct_ty, struct_default, second.last(), rename_rule, serde);
        if a is Ok && b is Ok && c is Ok {
            assert(a->Ok_0.inline + b->Ok_0.inline + c->Ok_0.inline =~= a->Ok_0.inline + (
            b->Ok_0.inline + c->Ok_0.inline));
            assert(a->Ok_0.section + b->Ok_0.section + c->Ok_0.section =~= a->Ok_0.section + (
            b->Ok_0.section + c->Ok_0.section));
        }
    }
}

/// A field that is left out adds nothing.
pub proof fn law_skipped_field_adds_nothing(
    struct_ty: Seq<char>,
    struct_default: Option<DefaultSource<Seq<char>>>,
    field: FieldView,
    rename_rule: RenameRule,
    serde: bool,
)
    ensures
        field_of(struct_default is Some, field, rename_rule, serde) matches Ok(parsed) ==> (
        parsed.skip ==> raw_field_parts(struct_ty, struct_default, field, rename_rule, serde) == Ok::<
            _,
            Fault<Seq<char>, int>,
        >(no_parts())),
{
    reveal(raw_field_parts);
}

/// A field adds to the values or to the sections, never to both. To the sections it adds if it is
/// nested as a section of its own or is a map that is not nested, and else to the values.
pub proof fn law_values_before_sections(
    struct_ty: Seq<char>,
    struct_default: Option<DefaultSource<Seq<char>>>,
    ident: Seq<char>,
    field: ParsedFieldView,
)
    ensures
        field_parts(struct_ty, struct_default, ident, field) matches Ok(parts) ==> {
            let section = match field.nesting_format {
                Some(NestingFormat::Section(_)) => !field.flatten,
                Some(NestingFormat::Prefix) => false,
                None => field.kind is Dict,
            };
            if section {
                parts.inline.len() == 0
            } else {
                parts.section.len() == 0
            }
        },
{
}

/// A field that is neither nested nor a map always has a line, unless a default value stands on the
/// struct. A map that is not nested has a section, if its default is a value that was accepted for
/// it and is not empty.
pub proof fn law_accepted_field_has_parts(
    struct_ty: Seq<char>,
    struct_default: Option<DefaultSource<Seq<char>>>,
    field: FieldView,
    rename_rule: RenameRule,
    serde: bool,
)
    requires
        field_of(struct_default is Some, field, rename_rule, serde) matches Ok(parsed) && {
            &&& parsed.nesting_format is None
            &&& if parsed.kind is Dict {
                parsed.default matches DefaultSource::DefaultValue(value) && trimmed(value).len() > 0
            } else {
                !(struct_default matches Some(DefaultSource::DefaultValue(_)))
            }
        },
    ensures
        raw_field_parts(struct_ty, struct_default, field, rename_rule, serde) is Ok,
{
    reveal(raw_field_parts);
    let parsed = field_of(struct_default is Some, field, rename_rule, serde)->Ok_0;
    if let FieldKind::Dict { key_ty, value_ty } = parsed.kind {
        if let DefaultSource::DefaultValue(value) = parsed.default {
            law_accepted_table_has_lines(value, key_ty, value_ty, parsed.ty);
        }
    }
}

/// Each line end in the value of an optional field is followed by the mark of a comment.
pub proof fn law_optional_value_is_comment(value: Seq<char>, i: int)
    requires
        0 <= i < replaced(value, '\n', "\n# "@).len(),
        replaced(value, '\n', "\n# "@)[i] == '\n',
    ensures
        starts_at(replaced(value, '\n', "\n# "@), i + 1, "# "@),
    decreases value.len(),
{
    reveal_strlit("\n# ");
    reveal_strlit("# ");
    let all = replaced(value, '\n', "\n# "@);
    let before = replaced(value.drop_last(), '\n', "\n# "@);
    if i < before.len() {
        law_optional_value_is_comment(value.drop_last(), i);
        assert(all.subrange(i + 1, i + 3) =~= before.subrange(i + 1, i + 3));
    } else {
        assert(i == before.len());
        assert(all.subrange(i + 1, i + 3) =~= "# "@);
    }
}

/// What an example is derived from: the name of a struct, its documentation, and the expression
/// for its values and sections.
pub struct Intermediate {
    /// The name of the struct.
    pub struct_name: String,
    /// The comment lines of the documentation of the struct.
    pub struct_doc: String,
    /// The expression for the values and sections.
    pub field_example: String,
}

/// The content of what an example is derived from.
pub struct IntermediateView {
    pub struct_name: Seq<char>,
    pub struct_doc: Seq<char>,
    pub field_example: Seq<char>,
}

impl DeepView for Intermediate {
    type V = IntermediateView;

    open spec fn deep_view(&self) -> IntermediateView {
        IntermediateView {
            struct_name: self.struct_name@,
            struct_doc: self.struct_doc@,
            field_example: self.field_example@,
        }
    }
}

/// What the example of an item is derived from.
pub open spec fn derived_from(item: ItemView, serde: bool) -> Result<
    IntermediateView,
    Fault<Seq<char>, int>,
> {
    match said_by(item.attrs, serde) {
        Ok(meta) => if item.data is Other {
            Err(Fault { abort: Abort::NotAStruct, field: None, spot: Spot::Name })
        } else {
            match example_of(
                item.ident,
                meta.default_source,
                named_fields(item.data),
                meta.rename_rule,
                serde,
            ) {
                Ok(example) => Ok(
                    IntermediateView {
                        struct_name: item.ident,
                        struct_doc: doc_lines(meta.docs),
                        field_example: example,
                    },
                ),
                Err(fault) => Err(fault),
            }
        },
        Err(fault) => Err(fault),
    }
}

/// A fault points to an attribute or the name of the struct, or to one of its fields: to nothing of
/// it, all of it, its name or one of its attributes.
pub proof fn law_fault_points_into_item(item: ItemView, serde: bool)
    ensures
        derived_from(item, serde) matches Err(fault) ==> match fault.field {
            Some(i) => 0 <= i < named_fields(item.data).len() && points_into(
                fault.spot,
                named_fields(item.data)[i].attrs.len(),
            ),
            None => points_into(fault.spot, item.attrs.len()) && !(fault.spot is Whole) && !(
            fault.spot is Nowhere),
        },
{
    law_fault_points_to_attr(item.attrs, serde);
    if let Ok(meta) = said_by(item.attrs, serde) {
        lemma_fault_points_to_field(
            item.ident,
            meta.default_source,
            named_fields(item.data),
            meta.rename_rule,
            serde,
        );
    }
}

proof fn lemma_fault_points_to_field(
    struct_ty: Seq<char>,
    struct_default: Option<DefaultSource<Seq<char>>>,
    fields: Seq<FieldView>,
    rename_rule: RenameRule,
    serde: bool,
)
    ensures
        fields_parts(struct_ty, struct_default, fields, rename_rule, serde) matches Err(fault) ==> (
        fault.field matches Some(i) && 0 <= i < fields.len() && points_into(
            fault.spot,
            fields[i].attrs.len(),
        )),
    decreases fields.len(),
{
    if fields.len() > 0 {
        lemma_fault_points_to_field(
            struct_ty,
            struct_default,
            fields.drop_last(),
            rename_rule,
            serde,
        );
        lemma_fault_points_into_field(
            struct_ty,
            struct_default,
            fields.last(),
            rename_rule,
            serde,
        );
    }
}

proof fn lemma_fault_points_into_field(
    struct_ty: Seq<char>,
    struct_default: Option<DefaultSource<Seq<char>>>,
    field: FieldView,
    rename_rule: RenameRule,
    serde: bool,
)
    ensures
        raw_field_parts(struct_ty, struct_default, field, rename_rule, serde) matches Err(fault)
            ==> points_into(fault.spot, field.attrs.len()),
{
    reveal(raw_field_parts);
    match field_of(struct_default is Some, field, rename_rule, serde) {
        Ok(parsed) => {
            if let Err(abort) = field_parts(struct_ty, struct_default, field.ident->0, parsed) {
                assert(points_into(in_field(abort).spot, field.attrs.len()));
            }
        },
        Err(_) => {
            lemma_field_fault(struct_default is Some, field, rename_rule, serde);
        },
    }
}

proof fn lemma_field_fault(
    struct_default: bool,
    field: FieldView,
    rename_rule: RenameRule,
    serde: bool,
)
    ensures
        field_of(struct_default, field, rename_rule, serde) matches Err(fault) ==> points_into(
            fault.spot,
            field.attrs.len(),
        ),
{
    law_fault_points_to_attr(field.attrs, serde);
}

/// A struct without attributes, whose fields have none either, needs none: an example is derived
/// for it.
pub proof fn law_plain_struct_has_example(item: ItemView, serde: bool)
    requires
        item.attrs.len() == 0,
        item.data is NamedFields,
        forall|i: int|
            #![trigger named_fields(item.data)[i]]
            0 <= i < named_fields(item.data).len() ==> {
                let field = named_fields(item.data)[i];
                field.attrs.len() == 0 && field.ident is Some && has_own_example(field.ty)
            },
    ensures
        derived_from(item, serde) is Ok,
{
    lemma_plain_fields_have_parts(item.ident, named_fields(item.data), serde);
}

proof fn lemma_plain_fields_have_parts(struct_ty: Seq<char>, fields: Seq<FieldView>, serde: bool)
    requires
        forall|i: int|
            #![trigger fields[i]]
            0 <= i < fields.len() ==> fields[i].attrs.len() == 0 && fields[i].ident is Some
                && has_own_example(fields[i].ty),
    ensures
        fields_parts(struct_ty, None, fields, RenameRule::Unchanged, serde) is Ok,
    decreases fields.len(),
{
    if fields.len() > 0 {
        let init = fields.drop_last();
        let field = fields.last();
        assert(fields[fields.len() - 1] == field);
        assert forall|i: int| #![trigger init[i]] 0 <= i < init.len() implies init[i].attrs.len()
            == 0 && init[i].ident is Some && has_own_example(init[i].ty) by {
            assert(init[i] == fields[i]);
        }
        lemma_plain_fields_have_parts(struct_ty, init, serde);
        law_field_without_attrs(field, RenameRule::Unchanged, serde);
        reveal(raw_field_parts);
    }
}

impl Intermediate {
    /// What the example of an item is derived from. Attributes of `serde` count only if `serde`
    /// holds.
    pub fn from_ast(item: Item, serde: bool) -> (r: Result<Intermediate, Fault<String, usize>>)
        ensures
            outcome(r) == derived_from(item.deep_view(), serde),
    {
        let meta = match parse_attrs(&item.attrs, serde) {
            Ok(meta) => meta,
            Err(fault) => {
                return Err(fault);
            },
        };
        let mut struct_doc = String::new();
        push_doc_string(&mut struct_doc, &meta.docs);
        proof {
            assert(struct_doc@ =~= doc_lines(meta.docs.deep_view()));
        }
        if let ItemData::Other = item.data {
            return Err(Fault { abort: Abort::NotAStruct, field: None, spot: Spot::Name });
        }
        match Self::parse_field_examples(
            item.ident.as_str(),
            &meta.default_source,
            &item.data,
            meta.rename_rule,
            serde,
        ) {
            Ok(field_example) => Ok(
                Intermediate { struct_name: item.ident, struct_doc, field_example },
            ),
            Err(fault) => Err(fault),
        }
    }

    /// The expression for the values and sections of a struct.
    pub fn parse_field_examples(
        struct_ty: &str,
        struct_default: &Option<DefaultSource<String>>,
        fields: &ItemData,
        rename_rule: RenameRule,
        serde: bool,
    ) -> (r: Result<String, Fault<String, usize>>)
        ensures
            outcome(r) == example_of(
                struct_ty@,
                struct_default.deep_view(),
                named_fields(fields.deep_view()),
                rename_rule,
                serde,
            ),
    {
        let mut field_example = RAW_START.to_owned();
        let mut nesting_field_example = String::new();
        let default = struct_default.as_ref();
        let ghost given = struct_default.deep_view();
        if let ItemData::NamedFields(named_fields) = fields {
            let ghost all = named_fields.deep_view();
            let mut i: usize = 0;
            proof {
                assert(RAW_START@ + Seq::<char>::empty() =~= RAW_START@);
            }
            while i < named_fields.len()
                invariant
                    i <= named_fields@.len(),
                    all == named_fields.deep_view(),
                    *fields == ItemData::NamedFields(*named_fields),
                    given == struct_default.deep_view(),
                    given == default.deep_view(),
                    fields_parts(struct_ty@, given, all.take(i as int), rename_rule, serde) matches Ok(
                        parts,
                    ) && field_example@ == RAW_START@ + rendered(parts.inline)
                        && nesting_field_example@ == rendered(parts.section),
                decreases named_fields.len() - i,
            {
                proof {
                    assert(all.take(i + 1).drop_last() =~= all.take(i as int));
                }
                let ghost before = fields_parts(
                    struct_ty@,
                    given,
                    all.take(i as int),
                    rename_rule,
                    serde,
                )->Ok_0;
                if let Err(fault) = push_raw_field(
                    &mut field_example,
                    &mut nesting_field_example,
                    struct_ty,
                    default,
                    &named_fields[i],
                    rename_rule,
                    serde,
                ) {
                    proof {
                        law_first_abort_decides(struct_ty@, given, all, rename_rule, serde, i + 1);
                    }
                    return Err(fault.at_field(i));
                }
                proof {
                    let parts = raw_field_parts(
                        struct_ty@,
                        given,
                        all[i as int],
                        rename_rule,
                        serde,
                    )->Ok_0;
                    law_meaning_append(before.inline, parts.inline, splicing());
                    law_meaning_append(before.section, parts.section, splicing());
                    assert(RAW_START@ + rendered(before.inline) + rendered(parts.inline)
                        =~= RAW_START@ + (rendered(before.inline) + rendered(parts.inline)));
                }
                i += 1;
            }
            proof {
                assert(all.take(named_fields@.len() as int) =~= all);
            }
        }
        field_example.append(nesting_field_example.as_str());
        field_example.append(RAW_END);
        field_example.append(RAW_STRING);
        proof {
            let parts = fields_parts(
                struct_ty@,
                given,
                named_fields(fields.deep_view()),
                rename_rule,
                serde,
            )->Ok_0;
            law_meaning_append(parts.inline, parts.section, splicing());
            assert(field_example@ =~= expression_of(parts.inline + parts.section));
        }
        Ok(field_example)
    }
}

} // verus!

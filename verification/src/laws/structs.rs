//! The example of a struct.

use vstd::prelude::*;

use crate::ast::{DataView, FieldView, ItemView};
use crate::attrs::{said_by, DefaultSource};
use crate::case::RenameRule;
use crate::example::{derived_from, fields_parts, raw_field_parts, IntermediateView};
use crate::expansion::{impl_text, literal_of, unescaped};
use crate::field::doc_lines;
use crate::parts::{expression_of, law_meaning_append, lemma_one_part, rendered, splicing, Part};
use crate::reader::{item_of, parsed_attr, parsed_type, RawDataView, RawItemView};

verus! {

/// What is derived for a struct: its name, its documentation as comments, and the expression for all
/// values of its fields and then all sections, under the default and the rule of the struct.
///
/// A fault of its attributes comes first, then that it is no struct, which points to its name, then
/// that of a field.
pub proof fn law_struct(item: ItemView, serde: bool)
    ensures
        match said_by(item.attrs, serde) {
            Err(fault) => derived_from(item, serde) == Err::<IntermediateView, _>(fault),
            Ok(meta) => if item.data is Other {
                derived_from(item, serde) matches Err(fault) && fault.abort is NotAStruct
                    && fault.field is None && fault.spot is Name
            } else {
                let fields = match item.data {
                    DataView::NamedFields(fields) => fields,
                    _ => seq![],
                };
                match fields_parts(
                    item.ident,
                    meta.default_source,
                    fields,
                    meta.rename_rule,
                    serde,
                ) {
                    Err(fault) => derived_from(item, serde) == Err::<IntermediateView, _>(fault),
                    Ok(parts) => derived_from(item, serde) matches Ok(derived) && {
                        &&& derived.struct_name == item.ident
                        &&& derived.struct_doc == doc_lines(meta.docs)
                        &&& derived.field_example == "r##\""@ + rendered(parts.inline) + rendered(
                            parts.section,
                        ) + "\"##"@ + ".to_string()"@
                    },
                }
            },
        },
{
    if let Ok(meta) = said_by(item.attrs, serde) {
        let fields = match item.data {
            DataView::NamedFields(fields) => fields,
            _ => seq![],
        };
        if let Ok(parts) = fields_parts(
            item.ident,
            meta.default_source,
            fields,
            meta.rename_rule,
            serde,
        ) {
            law_meaning_append(parts.inline, parts.section, splicing());
            assert("r##\""@ + (rendered(parts.inline) + rendered(parts.section)) =~= "r##\""@
                + rendered(parts.inline) + rendered(parts.section));
        }
    }
}

/// A struct without fields adds nothing.
pub proof fn law_no_fields(
    struct_ty: Seq<char>,
    struct_default: Option<DefaultSource<Seq<char>>>,
    rename_rule: RenameRule,
    serde: bool,
)
    ensures
        fields_parts(struct_ty, struct_default, seq![], rename_rule, serde) matches Ok(parts)
            && parts.inline.len() == 0 && parts.section.len() == 0,
{
}

/// One more field adds its values behind those of the fields before, and its sections behind theirs.
/// Its fault is that of the struct and has the place of the field.
pub proof fn law_one_more_field(
    struct_ty: Seq<char>,
    struct_default: Option<DefaultSource<Seq<char>>>,
    fields: Seq<FieldView>,
    field: FieldView,
    rename_rule: RenameRule,
    serde: bool,
)
    requires
        fields_parts(struct_ty, struct_default, fields, rename_rule, serde) is Ok,
    ensures
        ({
            let before = fields_parts(struct_ty, struct_default, fields, rename_rule, serde)->Ok_0;
            let all = fields_parts(
                struct_ty,
                struct_default,
                fields.push(field),
                rename_rule,
                serde,
            );
            match raw_field_parts(struct_ty, struct_default, field, rename_rule, serde) {
                Ok(parts) => all matches Ok(after) && after.inline == before.inline + parts.inline
                    && after.section == before.section + parts.section,
                Err(fault) => all matches Err(found) && found.abort == fault.abort && found.spot
                    == fault.spot && found.field == Some(fields.len() as int),
            }
        }),
{
    assert(fields.push(field).drop_last() =~= fields);
}

/// A text is written as it is. Code ends the raw string before it and starts the next.
pub proof fn law_part_is_written(text: Seq<char>, code: Seq<char>)
    ensures
        rendered(seq![Part::Text(text)]) == text,
        rendered(seq![Part::Code(code)]) == "\"##"@ + ".to_string()"@ + code + "+ &r##\""@,
        expression_of(seq![]) == "r##\""@ + "\"##"@ + ".to_string()"@,
{
    lemma_one_part(Part::Text(text), splicing());
    lemma_one_part(Part::Code(code), splicing());
    assert("r##\""@ + Seq::<char>::empty() =~= "r##\""@);
}

/// The implementation gives the documentation of the struct, the header that is passed on, and the
/// expression for the values and sections, in this order.
pub proof fn law_implementation(parts: IntermediateView, doc_literal: Seq<char>)
    ensures
        impl_text(parts, doc_literal) == "impl toml_example::TomlExample for "@ + parts.struct_name
            + " {
    fn toml_example() -> String {
        "@ + parts.struct_name + "::toml_example_with_prefix(\"\", (\"\", \"\"), \"\")
    }
    fn toml_example_with_prefix(label: &str, label_format: (&str, &str), prefix: &str) -> String {
        let wrapped_label = if label_format.0.is_empty() {
            String::new()
        } else {
            label_format.0.to_string() + label + label_format.1
        };
        "@ + doc_literal + ".to_string() + &wrapped_label + &"@ + parts.field_example + "
    }
}
"@,
{
}

/// An item is read with its name, all of its attributes, and all of its named fields with their
/// names, attributes and types, each at its place.
pub proof fn law_item_is_read(raw: RawItemView, i: int, j: int)
    ensures
        ({
            let item = item_of(raw);
            &&& item.ident == raw.ident
            &&& item.attrs.len() == raw.attrs.len()
            &&& 0 <= i < raw.attrs.len() ==> item.attrs[i] == parsed_attr(raw.attrs[i])
            &&& match raw.data {
                RawDataView::NamedFields(fields) => item.data matches DataView::NamedFields(read) && {
                    &&& read.len() == fields.len()
                    &&& 0 <= i < fields.len() ==> {
                        &&& read[i].ident == fields[i].ident
                        &&& read[i].ty == parsed_type(fields[i].ty)
                        &&& read[i].attrs.len() == fields[i].attrs.len()
                        &&& 0 <= j < fields[i].attrs.len() ==> read[i].attrs[j] == parsed_attr(
                            fields[i].attrs[j],
                        )
                    }
                },
                RawDataView::OtherStruct => item.data is OtherStruct,
                RawDataView::Other => item.data is Other,
            }
        }),
{
}

/// A literal has one value.
pub proof fn law_literal_has_one_value(literal: Seq<char>, a: Seq<char>, b: Seq<char>)
    requires
        literal_of(literal, a),
        literal_of(literal, b),
    ensures
        a == b,
{
}

/// Between quotes, a character that is neither a quote nor a backslash stands for itself, and the
/// usual escapes for what they stand for.
pub proof fn law_literal_characters(c: char, s: Seq<char>)
    ensures
        unescaped(seq![]) == Some(Seq::<char>::empty()),
        c != '"' && c != '\\' ==> unescaped(seq![c] + s) == put_before(c, unescaped(s)),
        unescaped(seq!['\\', 'n'] + s) == put_before('\n', unescaped(s)),
        unescaped(seq!['\\', 'r'] + s) == put_before('\r', unescaped(s)),
        unescaped(seq!['\\', 't'] + s) == put_before('\t', unescaped(s)),
        unescaped(seq!['\\', '"'] + s) == put_before('"', unescaped(s)),
        unescaped(seq!['\\', '\\'] + s) == put_before('\\', unescaped(s)),
        unescaped(seq!['"'] + s) is None,
{
    assert((seq![c] + s).skip(1) =~= s);
    assert((seq!['\\', 'n'] + s).skip(2) =~= s);
    assert((seq!['\\', 'r'] + s).skip(2) =~= s);
    assert((seq!['\\', 't'] + s).skip(2) =~= s);
    assert((seq!['\\', '"'] + s).skip(2) =~= s);
    assert((seq!['\\', '\\'] + s).skip(2) =~= s);
}

/// A character in front of a text, if there is one.
pub open spec fn put_before(c: char, s: Option<Seq<char>>) -> Option<Seq<char>> {
    match s {
        Some(s) => Some(seq![c] + s),
        None => None,
    }
}

} // verus!

//! What is known of a field.

use vstd::prelude::*;

use crate::abort::Abort;
use crate::ast::{FieldView, TypeView};
use crate::attrs::{said_by, DefaultSource, NestingFormat};
use crate::case::{renamed, RenameRule};
use crate::defaults::{entries_fit, entries_of, source_fits, table_of};
use crate::enclosure::pieces;
use crate::field::{doc_lines, field_of, ParsedFieldView};
use crate::text::{replaced, trimmed, trimmed_of};
use crate::types::{lemma_list_is_no_dict, type_facts, FieldKind, TypeFacts};

verus! {

/// The type is an option.
pub open spec fn is_option(ty: TypeView) -> bool {
    ty matches TypeView::Path { segments, .. } && segments.len() > 0 && segments.last().ident
        == "Option"@ && !(segments.last().arguments is Absent)
}

/// What is known of the type of a field, whose attributes say how it is nested.
pub open spec fn known_of(ty: TypeView, nesting_format: Option<NestingFormat>) -> (
    TypeFacts,
    Option<Seq<char>>,
) {
    type_facts(
        ty,
        TypeFacts { default: seq![], optional: false, nesting_format, kind: FieldKind::Scalar },
    )
}

/// A field, nested or not, has the name that `rename` gives it, or else its identifier under the rule
/// of the struct.
pub proof fn law_field_name(
    struct_default: bool,
    field: FieldView,
    rename_rule: RenameRule,
    serde: bool,
)
    ensures
        field_of(struct_default, field, rename_rule, serde) matches Ok(parsed) ==> (said_by(
            field.attrs,
            serde,
        ) matches Ok(meta) && field.ident matches Some(ident) && match meta.rename {
            Some(name) => parsed.name == name,
            None => parsed.name == renamed(rename_rule, ident),
        }),
{
}

/// The name of a field depends on nothing but its identifier, what `rename` says and the rule of the
/// struct.
pub proof fn law_field_name_alone(
    one_default: bool,
    one: FieldView,
    other_default: bool,
    other: FieldView,
    rename_rule: RenameRule,
    serde: bool,
)
    requires
        one.ident == other.ident,
        said_by(one.attrs, serde) is Ok,
        said_by(other.attrs, serde) is Ok,
        said_by(one.attrs, serde)->Ok_0.rename == said_by(other.attrs, serde)->Ok_0.rename,
        field_of(one_default, one, rename_rule, serde) is Ok,
        field_of(other_default, other, rename_rule, serde) is Ok,
    ensures
        field_of(one_default, one, rename_rule, serde)->Ok_0.name == field_of(
            other_default,
            other,
            rename_rule,
            serde,
        )->Ok_0.name,
{
}

/// A literal that the attributes of a field give is its example value, whatever its type and whether
/// or not the struct has a default of its own.
pub proof fn law_literal_on_field_is_kept(
    struct_default: bool,
    field: FieldView,
    rename_rule: RenameRule,
    serde: bool,
    value: Seq<char>,
)
    requires
        said_by(field.attrs, serde) matches Ok(meta) && meta.default_source == Some(
            DefaultSource::DefaultValue(value),
        ),
    ensures
        field_of(struct_default, field, rename_rule, serde) matches Ok(parsed) ==> {
            &&& parsed.default == DefaultSource::DefaultValue(value)
            &&& parsed.explicit_default
        },
{
}

/// A function that the attributes of a field name gives its example value: that of `serde`, or else
/// the default of the type that it holds. No literal was given then.
pub proof fn law_function_on_field_is_kept(
    struct_default: bool,
    field: FieldView,
    rename_rule: RenameRule,
    serde: bool,
)
    ensures
        field_of(struct_default, field, rename_rule, serde) matches Ok(parsed) ==> (said_by(
            field.attrs,
            serde,
        ) matches Ok(meta) && match meta.default_source {
            Some(DefaultSource::DefaultFn(_)) => parsed.default == DefaultSource::DefaultFn(
                parsed.ty,
            ) && !parsed.explicit_default,
            Some(DefaultSource::SerdeDefaultFn(name)) => parsed.default
                == DefaultSource::SerdeDefaultFn(name) && !parsed.explicit_default,
            _ => true,
        }),
{
}

/// A field that nothing is given for has its value from the default of the struct, if the struct has
/// one and the field is no map, and else from its type.
pub proof fn law_field_without_default(
    struct_default: bool,
    field: FieldView,
    rename_rule: RenameRule,
    serde: bool,
)
    requires
        said_by(field.attrs, serde) matches Ok(meta) && meta.default_source is None,
    ensures
        field_of(struct_default, field, rename_rule, serde) matches Ok(parsed) ==> {
            let meta = said_by(field.attrs, serde)->Ok_0;
            &&& !parsed.explicit_default
            &&& if struct_default && !(parsed.kind is Dict) {
                parsed.default == DefaultSource::<Seq<char>>::DefaultFn(None)
            } else {
                parsed.default == DefaultSource::DefaultValue(
                    known_of(field.ty, meta.nesting_format).0.default,
                )
            }
        },
{
}

/// The default of the struct makes no difference to a field that has one itself or is a map.
pub proof fn law_struct_default_only_fills(field: FieldView, rename_rule: RenameRule, serde: bool)
    requires
        said_by(field.attrs, serde) matches Ok(meta) && (meta.default_source is Some || known_of(
            field.ty,
            meta.nesting_format,
        ).0.kind is Dict),
    ensures
        field_of(true, field, rename_rule, serde) == field_of(false, field, rename_rule, serde),
{
}

/// A field is optional if its type is an option and it is not required, whatever else is said of it.
pub proof fn law_field_optional(
    struct_default: bool,
    field: FieldView,
    rename_rule: RenameRule,
    serde: bool,
)
    ensures
        field_of(struct_default, field, rename_rule, serde) matches Ok(parsed) ==> (said_by(
            field.attrs,
            serde,
        ) matches Ok(meta) && parsed.optional == (is_option(field.ty) && !meta.require)),
{
    if let TypeView::Path { segments, .. } = field.ty {
        if segments.len() > 0 {
            lemma_list_is_no_dict(segments.last().ident);
        }
    }
}

/// A field has the documentation and the marks that its attributes give it, and holds what its type
/// says.
pub proof fn law_field_carries_what_is_said(
    struct_default: bool,
    field: FieldView,
    rename_rule: RenameRule,
    serde: bool,
)
    ensures
        field_of(struct_default, field, rename_rule, serde) matches Ok(parsed) ==> (said_by(
            field.attrs,
            serde,
        ) matches Ok(meta) && {
            let (facts, held) = known_of(field.ty, meta.nesting_format);
            &&& parsed.docs == meta.docs
            &&& parsed.skip == meta.skip
            &&& parsed.is_enum == meta.is_enum
            &&& parsed.flatten == meta.flatten
            &&& parsed.kind == facts.kind
            &&& parsed.nesting_format == facts.nesting_format
            &&& parsed.ty == held
        }),
{
}

/// A field is refused for a fault of its attributes, for want of a name, or, if it is not nested, for
/// a default that does not fit, in this order, and for nothing else.
pub proof fn law_field_is_accepted(
    struct_default: bool,
    field: FieldView,
    rename_rule: RenameRule,
    serde: bool,
)
    ensures
        ({
            let r = field_of(struct_default, field, rename_rule, serde);
            match said_by(field.attrs, serde) {
                Err(fault) => r == Err::<ParsedFieldView, _>(fault),
                Ok(meta) => if field.ident is None {
                    r matches Err(fault) && fault.abort is UnnamedField && fault.field is None
                        && fault.spot is Whole
                } else {
                    let (facts, held) = known_of(field.ty, meta.nesting_format);
                    let default = match meta.default_source {
                        Some(DefaultSource::DefaultValue(value)) => value,
                        _ => facts.default,
                    };
                    let literal = match meta.default_source {
                        Some(DefaultSource::DefaultValue(_)) => true,
                        Some(_) => false,
                        None => !struct_default || facts.kind is Dict,
                    };
                    let fit = source_fits(DefaultSource::DefaultValue(default), facts.kind, held);
                    if facts.nesting_format is None && literal && fit is Err {
                        r matches Err(fault) && fault.abort == fit->Err_0 && fault.field is None
                            && fault.spot is Whole
                    } else {
                        r is Ok
                    }
                },
            }
        }),
{
    if let Ok(meta) = said_by(field.attrs, serde) {
        let (facts, held) = known_of(field.ty, meta.nesting_format);
        lemma_fit_aborts(facts.default, facts.kind, held);
        if let Some(DefaultSource::DefaultValue(value)) = meta.default_source {
            lemma_fit_aborts(value, facts.kind, held);
        }
    }
}

/// An abort because of the value of a default.
spec fn of_value(abort: Abort<Seq<char>>) -> bool {
    match abort {
        Abort::FlattenedCollection(_) | Abort::NestingWithoutType => false,
        Abort::MapDefaultNotLiteral | Abort::DefaultValueOnStruct => false,
        _ => true,
    }
}

/// A default that does not fit does so because of its value.
proof fn lemma_fit_aborts(default: Seq<char>, kind: FieldKind<Seq<char>>, ty: Option<Seq<char>>)
    ensures
        source_fits(DefaultSource::DefaultValue(default), kind, ty) matches Err(abort) ==> of_value(
            abort,
        ),
{
    if let FieldKind::Dict { value_ty, .. } = kind {
        lemma_table_aborts(default);
        if let Ok(entries) = table_of(default) {
            lemma_entries_aborts(entries, value_ty);
        }
    }
}

proof fn lemma_table_aborts(default: Seq<char>)
    ensures
        table_of(default) matches Err(abort) ==> of_value(abort),
{
    let table = trimmed(default);
    lemma_parts_aborts(pieces(trimmed(table.subrange(1, table.len() - 1)), ','));
}

proof fn lemma_parts_aborts(parts: Seq<Seq<char>>)
    ensures
        entries_of(parts) matches Err(abort) ==> of_value(abort),
    decreases parts.len(),
{
    if parts.len() > 0 {
        lemma_parts_aborts(parts.drop_last());
    }
}

proof fn lemma_entries_aborts(entries: Seq<(Seq<char>, Seq<char>)>, ty: Option<Seq<char>>)
    ensures
        entries_fit(entries, ty) matches Err(abort) ==> of_value(abort),
    decreases entries.len(),
{
    if entries.len() > 0 {
        lemma_entries_aborts(entries.drop_last(), ty);
    }
}

/// The key of the example entry of a map is the literal given for the field, without its quotes and
/// spaces and with hyphens for points, if that leaves anything. Without a literal it is `example`.
pub proof fn law_default_key(field: ParsedFieldView)
    ensures
        field.explicit_default ==> (field.default matches DefaultSource::DefaultValue(value) ==> {
            let key = replaced(replaced(trimmed_of(value, '"'), ' ', seq![]), '.', seq!['-']);
            field.default_key() == if key.len() > 0 {
                key
            } else {
                "example"@
            }
        }),
        !field.explicit_default ==> field.default_key() == "example"@,
        !(field.default is DefaultValue) ==> field.default_key() == "example"@,
        field.has_explicit_default_value() <==> field.explicit_default
            && field.default is DefaultValue,
{
}

/// The lines of two documentations are those of the one, then those of the other.
pub proof fn law_doc_lines_append(first: Seq<Seq<char>>, second: Seq<Seq<char>>)
    ensures
        doc_lines(first + second) == doc_lines(first) + doc_lines(second),
    decreases second.len(),
{
    let all = first + second;
    if second.len() == 0 {
        assert(all =~= first);
        assert(doc_lines(first) + Seq::<char>::empty() =~= doc_lines(first));
    } else {
        assert(all.drop_last() =~= first + second.drop_last());
        law_doc_lines_append(first, second.drop_last());
        assert(doc_lines(all) =~= doc_lines(first) + doc_lines(second));
    }
}

/// One line of documentation is a comment: a number sign, the line as it is, and a line end.
pub proof fn law_doc_line(doc: Seq<char>)
    ensures
        doc_lines(seq![doc]) == seq!['#'] + doc + seq!['\n'],
{
    reveal_strlit("#");
    reveal_strlit("\n");
    let docs = seq![doc];
    assert(docs.drop_last() =~= seq![]);
    assert(docs.last() == doc);
    assert(doc_lines(docs) == doc_lines(seq![]) + "#"@ + doc + "\n"@);
    assert("#"@ =~= seq!['#']);
    assert("\n"@ =~= seq!['\n']);
    assert(doc_lines(docs) =~= seq!['#'] + doc + seq!['\n']);
}

} // verus!

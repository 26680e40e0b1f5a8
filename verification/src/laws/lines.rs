//! The line of a field that is a value.

use vstd::prelude::*;

use crate::ast::FieldView;
use crate::attrs::{said_by, DefaultSource};
use crate::case::RenameRule;
use crate::example::{bare_name, raw_field_parts};
use crate::field::{doc_lines, field_of, ParsedFieldView};
use crate::laws::fields::{is_option, law_field_optional};
use crate::parts::Part;
use crate::text::replaced;

verus! {

/// The field has a line in the example: it is not left out, not nested and no map.
pub open spec fn has_line(field: ParsedFieldView) -> bool {
    !field.skip && field.nesting_format is None && !(field.kind is Dict)
}

/// A line starts with the documentation of the field, which the mark of a comment follows if the
/// field is optional, wherever its value comes from. Then come what stands in front of each line and
/// the name of the field. It ends with an empty line.
pub proof fn law_line_frame(
    struct_ty: Seq<char>,
    struct_default: Option<DefaultSource<Seq<char>>>,
    field: FieldView,
    rename_rule: RenameRule,
    serde: bool,
)
    requires
        field_of(struct_default is Some, field, rename_rule, serde) matches Ok(parsed) && has_line(
            parsed,
        ),
    ensures
        raw_field_parts(struct_ty, struct_default, field, rename_rule, serde) matches Ok(parts) ==> {
            let parsed = field_of(struct_default is Some, field, rename_rule, serde)->Ok_0;
            &&& parts.section.len() == 0
            &&& parts.inline.len() >= 5
            &&& parsed.optional ==> parts.inline[0] == Part::Text(doc_lines(parsed.docs) + "# "@)
            &&& !parsed.optional ==> parts.inline[0] == Part::Text(doc_lines(parsed.docs))
            &&& parts.inline[1] == Part::Code(" + prefix "@)
            &&& parts.inline[2] == Part::Text(bare_name(parsed.name))
            &&& parts.inline.last() == Part::Text("\n"@)
        },
{
    reveal(raw_field_parts);
    let parsed = field_of(struct_default is Some, field, rename_rule, serde)->Ok_0;
    assert(doc_lines(parsed.docs) + Seq::<char>::empty() =~= doc_lines(parsed.docs));
}

/// The line of a field whose type is an option is commented out, unless the field is required. No
/// other line is.
pub proof fn law_option_is_commented_out(
    struct_ty: Seq<char>,
    struct_default: Option<DefaultSource<Seq<char>>>,
    field: FieldView,
    rename_rule: RenameRule,
    serde: bool,
)
    requires
        field_of(struct_default is Some, field, rename_rule, serde) matches Ok(parsed) && has_line(
            parsed,
        ),
        raw_field_parts(struct_ty, struct_default, field, rename_rule, serde) is Ok,
    ensures
        ({
            let parts = raw_field_parts(struct_ty, struct_default, field, rename_rule, serde)->Ok_0;
            let meta = said_by(field.attrs, serde)->Ok_0;
            if is_option(field.ty) && !meta.require {
                parts.inline[0] == Part::Text(doc_lines(meta.docs) + "# "@)
            } else {
                parts.inline[0] == Part::Text(doc_lines(meta.docs))
            }
        }),
{
    law_line_frame(struct_ty, struct_default, field, rename_rule, serde);
    law_field_optional(struct_default is Some, field, rename_rule, serde);
}

/// The line of a literal shows it as it is. In the line of an optional field, the mark of a comment
/// follows each line end in the literal.
pub proof fn law_literal_line(
    struct_ty: Seq<char>,
    struct_default: Option<DefaultSource<Seq<char>>>,
    field: FieldView,
    rename_rule: RenameRule,
    serde: bool,
    value: Seq<char>,
)
    requires
        field_of(struct_default is Some, field, rename_rule, serde) matches Ok(parsed) && has_line(
            parsed,
        ) && parsed.default == DefaultSource::DefaultValue(value),
    ensures
        raw_field_parts(struct_ty, struct_default, field, rename_rule, serde) matches Ok(parts) && {
            let parsed = field_of(struct_default is Some, field, rename_rule, serde)->Ok_0;
            &&& parts.inline.len() == 5
            &&& !parsed.optional ==> parts.inline[3] == Part::Text(" = "@ + value + "\n"@)
            &&& parsed.optional ==> parts.inline[3] == Part::Text(
                " = "@ + replaced(value, '\n', "\n# "@) + "\n"@,
            )
        },
{
    reveal(raw_field_parts);
}

/// What is called for the value of a field that has it from a function: the default of the type that
/// it holds, the function of `serde`, or those of the struct, of which the field is taken.
pub open spec fn called(
    struct_ty: Seq<char>,
    struct_default: Option<DefaultSource<Seq<char>>>,
    ident: Seq<char>,
    default: DefaultSource<Seq<char>>,
) -> Option<Seq<char>> {
    match (default, struct_default) {
        (DefaultSource::DefaultValue(_), _) => None,
        (DefaultSource::DefaultFn(Some(ty)), _) => Some(ty + "::default()"@),
        (DefaultSource::SerdeDefaultFn(name), _) => Some(name + "()"@),
        (DefaultSource::DefaultFn(None), Some(DefaultSource::DefaultFn(None))) => Some(
            struct_ty + "::default()."@ + ident,
        ),
        (DefaultSource::DefaultFn(None), Some(DefaultSource::SerdeDefaultFn(name))) => Some(
            name + "()."@ + ident,
        ),
        _ => None,
    }
}

/// The line of a field with a value from a function shows what the function returns, between double
/// quotes if the field is marked as an enum, and else without.
pub proof fn law_function_line(
    struct_ty: Seq<char>,
    struct_default: Option<DefaultSource<Seq<char>>>,
    field: FieldView,
    rename_rule: RenameRule,
    serde: bool,
    call: Seq<char>,
)
    requires
        field_of(struct_default is Some, field, rename_rule, serde) matches Ok(parsed) && has_line(
            parsed,
        ) && called(struct_ty, struct_default, field.ident->0, parsed.default) == Some(call),
    ensures
        raw_field_parts(struct_ty, struct_default, field, rename_rule, serde) matches Ok(parts) && {
            let parsed = field_of(struct_default is Some, field, rename_rule, serde)->Ok_0;
            let start = if parsed.is_enum {
                " + &format!(\"\\\"{:?}\\\"\",  "@
            } else {
                " + &format!(\"{:?}\",  "@
            };
            &&& parts.inline.len() == 7
            &&& parts.inline[3] == Part::Text(" = "@)
            &&& parts.inline[5] == Part::Text("\n"@)
            &&& parts.inline[4] == Part::Code(start + call + ")"@) || parts.inline[4] == Part::Code(
                start + call + ")"@ + " "@,
            )
        },
{
    reveal(raw_field_parts);
    let parsed = field_of(struct_default is Some, field, rename_rule, serde)->Ok_0;
    let ident = field.ident->0;
    let none = Seq::<char>::empty();
    reveal_strlit("::default()");
    reveal_strlit("()");
    reveal_strlit("::default().");
    reveal_strlit("().");
    reveal_strlit(".");
    assert("::default()."@ =~= "::default()"@ + "."@);
    assert("()."@ =~= "()"@ + "."@);
    match parsed.default {
        DefaultSource::DefaultFn(Some(ty)) => {
            assert(ty + "::default()"@ + none =~= ty + "::default()"@);
        },
        DefaultSource::SerdeDefaultFn(name) => {
            assert(name + "()"@ + none =~= name + "()"@);
        },
        _ => {
            assert(struct_ty + "::default()"@ + ("."@ + ident) =~= struct_ty + "::default()."@
                + ident);
            if let Some(DefaultSource::SerdeDefaultFn(name)) = struct_default {
                assert(name + "()"@ + ("."@ + ident) =~= name + "()."@ + ident);
            }
        },
    }
}

/// A field that has its value from nowhere shows an empty string.
pub proof fn law_line_without_value(
    struct_ty: Seq<char>,
    field: FieldView,
    rename_rule: RenameRule,
    serde: bool,
)
    requires
        field_of(false, field, rename_rule, serde) matches Ok(parsed) && has_line(parsed)
            && parsed.default == DefaultSource::<Seq<char>>::DefaultFn(None),
    ensures
        raw_field_parts(struct_ty, None, field, rename_rule, serde) matches Ok(parts)
            && parts.inline.len() == 5 && parts.inline[3] == Part::Text(" = \"\"\n"@),
{
    reveal(raw_field_parts);
}

/// A literal on the struct is refused by the first field that needs it, and points to the name of
/// the field.
pub proof fn law_literal_on_struct_is_refused(
    struct_ty: Seq<char>,
    value: Seq<char>,
    field: FieldView,
    rename_rule: RenameRule,
    serde: bool,
)
    requires
        field_of(true, field, rename_rule, serde) matches Ok(parsed) && has_line(parsed)
            && parsed.default == DefaultSource::<Seq<char>>::DefaultFn(None),
    ensures
        raw_field_parts(
            struct_ty,
            Some(DefaultSource::DefaultValue(value)),
            field,
            rename_rule,
            serde,
        ) matches Err(fault) && fault.abort is DefaultValueOnStruct && fault.field is None
            && fault.spot is Name,
{
    reveal(raw_field_parts);
}

/// A name is written without the mark of a raw identifier, and else as it is.
pub proof fn law_bare_name(name: Seq<char>)
    ensures
        !"r#"@.is_prefix_of(name) ==> bare_name(name) == name,
        bare_name("r#"@ + name) == bare_name(name),
        !"r#"@.is_prefix_of(bare_name(name)),
    decreases name.len(),
{
    reveal_strlit("r#");
    let marked = "r#"@ + name;
    assert(marked.take(2) =~= "r#"@);
    assert(marked.skip(2) =~= name);
    assert("r#"@.is_prefix_of(marked));
    if "r#"@.is_prefix_of(name) {
        law_bare_name(name.skip(2));
    }
}

} // verus!

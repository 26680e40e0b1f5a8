//! What nested fields and maps add to an example.

use vstd::prelude::*;

use crate::abort::Abort;
use crate::ast::FieldView;
use crate::attrs::{said_by, DefaultSource, NestingFormat, NestingType};
use crate::case::RenameRule;
use crate::defaults::{lines_of, table_of};
use crate::example::{bare_name, raw_field_parts, FieldParts};
use crate::field::{doc_lines, field_of, ParsedFieldView};
use crate::laws::fields::{is_option, law_field_optional};
use crate::parts::Part;

verus! {

/// The field is a nested map that no key was given for.
pub open spec fn is_open_map(field: ParsedFieldView) -> bool {
    field.nesting_format == Some(NestingFormat::Section(NestingType::Dict)) && !(
    field.explicit_default && field.default is DefaultValue)
}

/// The field is nested, and the example of its type is a part of that of the struct.
pub open spec fn has_call(field: ParsedFieldView) -> bool {
    &&& !field.skip
    &&& field.nesting_format is Some
    &&& !is_open_map(field)
    &&& field.ty is Some
    &&& field.nesting_format == Some(NestingFormat::Section(NestingType::List)) ==> !field.flatten
}

/// A nested field adds its documentation and the example of the type that it holds: behind a prefix
/// or merged into the struct among the values, and else among the sections.
///
/// A list has its header in double brackets, one that is merged or has a prefix has none, and others
/// have it in single brackets, except that a merged map keeps the one of its entry. A header ends
/// its line. If the field is optional, its header is a comment, unless it has a prefix.
pub proof fn law_nested_call(
    struct_ty: Seq<char>,
    struct_default: Option<DefaultSource<Seq<char>>>,
    field: FieldView,
    rename_rule: RenameRule,
    serde: bool,
)
    requires
        field_of(struct_default is Some, field, rename_rule, serde) matches Ok(parsed) && has_call(
            parsed,
        ),
    ensures
        raw_field_parts(struct_ty, struct_default, field, rename_rule, serde) matches Ok(parts) && {
            let parsed = field_of(struct_default is Some, field, rename_rule, serde)->Ok_0;
            let optional = parsed.optional;
            let (before, after) = match parsed.nesting_format {
                Some(NestingFormat::Prefix) => (""@, ""@),
                Some(NestingFormat::Section(NestingType::List)) => if optional {
                    ("# [["@, "]]\n"@)
                } else {
                    ("[["@, "]]\n"@)
                },
                Some(NestingFormat::Section(NestingType::Single)) if parsed.flatten => if optional {
                    ("# "@, ""@)
                } else {
                    (""@, ""@)
                },
                _ => if optional {
                    ("# ["@, "]\n"@)
                } else {
                    ("["@, "]\n"@)
                },
            };
            let call = seq![
                Part::Text(doc_lines(parsed.docs)),
                Part::Code(
                    " + &"@ + parsed.ty->0 + "::toml_example_with_prefix(&"@ + parsed.label()
                        + ", (\""@ + before + "\", \""@ + after + "\"), \""@ + parsed.prefix()
                        + "\") "@,
                ),
            ];
            if parsed.flatten || parsed.nesting_format == Some(NestingFormat::Prefix) {
                parts.inline == call && parts.section.len() == 0
            } else {
                parts.section == call && parts.inline.len() == 0
            }
        },
{
    reveal(raw_field_parts);
    let none = Seq::<char>::empty();
    reveal_strlit("");
    reveal_strlit("# ");
    reveal_strlit("\n");
    reveal_strlit("[");
    reveal_strlit("]");
    reveal_strlit("[[");
    reveal_strlit("]]");
    reveal_strlit("# [");
    reveal_strlit("# [[");
    reveal_strlit("]\n");
    reveal_strlit("]]\n");
    assert("# "@ + "["@ =~= "# ["@);
    assert("# "@ + "[["@ =~= "# [["@);
    assert("# "@ + ""@ =~= "# "@);
    assert(none + "["@ =~= "["@);
    assert(none + "[["@ =~= "[["@);
    assert(none + ""@ =~= ""@);
    assert("]"@ + "\n"@ =~= "]\n"@);
    assert("]]"@ + "\n"@ =~= "]]\n"@);
    assert(""@ + none =~= ""@);
}

/// A map adds a table among the sections, which is told its name and whether it is optional. A nested
/// map that no key was given for has an empty table, or adds nothing if it is merged into the struct.
/// One that is not nested has the entries of the literal given for it, or none without one.
pub proof fn law_map_table(
    struct_ty: Seq<char>,
    struct_default: Option<DefaultSource<Seq<char>>>,
    field: FieldView,
    rename_rule: RenameRule,
    serde: bool,
)
    requires
        field_of(struct_default is Some, field, rename_rule, serde) matches Ok(parsed) && !parsed.skip
            && (is_open_map(parsed) || (parsed.nesting_format is None && parsed.kind is Dict
            && parsed.default is DefaultValue && (parsed.explicit_default ==> table_of(
            parsed.default->DefaultValue_0,
        ) is Ok))),
    ensures
        raw_field_parts(struct_ty, struct_default, field, rename_rule, serde) matches Ok(parts)
            && parts.inline.len() == 0 && {
            let parsed = field_of(struct_default is Some, field, rename_rule, serde)->Ok_0;
            let body = if is_open_map(parsed) {
                "\"\""@
            } else if parsed.explicit_default {
                "r##\""@ + lines_of(table_of(parsed.default->DefaultValue_0)->Ok_0) + "\"##"@
            } else {
                "r##\""@ + "\"##"@
            };
            let end = if parsed.optional {
                ", true) "@
            } else {
                ", false) "@
            };
            if is_open_map(parsed) && parsed.flatten {
                parts.section.len() == 0
            } else {
                parts.section == seq![
                    Part::Text(doc_lines(parsed.docs)),
                    Part::Code(
                        " + &toml_example::format_table_example(label, prefix, \""@ + bare_name(
                            parsed.name,
                        ) + "\", "@ + body + end,
                    ),
                ]
            }
        },
{
    reveal(raw_field_parts);
    let parsed = field_of(struct_default is Some, field, rename_rule, serde)->Ok_0;
    let none = Seq::<char>::empty();
    reveal_strlit(", ");
    reveal_strlit("true");
    reveal_strlit("false");
    reveal_strlit(") ");
    reveal_strlit(", true) ");
    reveal_strlit(", false) ");
    assert("r##\""@ + none + "\"##"@ =~= "r##\""@ + "\"##"@);
    if raw_field_parts(struct_ty, struct_default, field, rename_rule, serde)->Ok_0.section.len() > 0 {
        let parts = raw_field_parts(struct_ty, struct_default, field, rename_rule, serde)->Ok_0;
        let front = " + &toml_example::format_table_example(label, prefix, \""@ + bare_name(
            parsed.name,
        ) + "\", "@;
        let body = if is_open_map(parsed) {
            "\"\""@
        } else if parsed.explicit_default {
            "r##\""@ + lines_of(table_of(parsed.default->DefaultValue_0)->Ok_0) + "\"##"@
        } else {
            "r##\""@ + "\"##"@
        };
        assert(", "@ + "true"@ + ") "@ =~= ", true) "@);
        assert(", "@ + "false"@ + ") "@ =~= ", false) "@);
        assert(front + body + ", "@ + "true"@ + ") "@ =~= front + body + ", true) "@);
        assert(front + body + ", "@ + "false"@ + ") "@ =~= front + body + ", false) "@);
    }
}

/// A map that is not nested is refused if the literal given for it is no table, for the fault of the
/// table, and if it has its value from a function, which points to its name.
pub proof fn law_map_is_refused(
    struct_ty: Seq<char>,
    struct_default: Option<DefaultSource<Seq<char>>>,
    field: FieldView,
    rename_rule: RenameRule,
    serde: bool,
)
    requires
        field_of(struct_default is Some, field, rename_rule, serde) matches Ok(parsed) && !parsed.skip
            && parsed.nesting_format is None && parsed.kind is Dict,
    ensures
        ({
            let parsed = field_of(struct_default is Some, field, rename_rule, serde)->Ok_0;
            let r = raw_field_parts(struct_ty, struct_default, field, rename_rule, serde);
            match parsed.default {
                DefaultSource::DefaultValue(value) => parsed.explicit_default && table_of(
                    value,
                ) is Err ==> (r matches Err(fault) && fault.abort == table_of(value)->Err_0),
                _ => r matches Err(fault) && fault.abort is MapDefaultNotLiteral
                    && fault.spot is Name,
            }
        }),
{
    reveal(raw_field_parts);
}

/// A nested field is refused if the type that it holds has no name, which points to the name of the
/// field, and a list if it is to be merged into the struct, which points nowhere.
pub proof fn law_nested_is_refused(
    struct_ty: Seq<char>,
    struct_default: Option<DefaultSource<Seq<char>>>,
    field: FieldView,
    rename_rule: RenameRule,
    serde: bool,
)
    requires
        field_of(struct_default is Some, field, rename_rule, serde) matches Ok(parsed) && !parsed.skip
            && parsed.nesting_format is Some && !is_open_map(parsed) && !has_call(parsed),
    ensures
        raw_field_parts(struct_ty, struct_default, field, rename_rule, serde) matches Err(fault)
            && fault.field is None && {
            let parsed = field_of(struct_default is Some, field, rename_rule, serde)->Ok_0;
            if parsed.ty is None {
                fault.abort is NestingWithoutType && fault.spot is Name
            } else {
                fault.abort == Abort::FlattenedCollection(parsed.name) && fault.spot is Nowhere
            }
        },
{
    reveal(raw_field_parts);
}

/// A text ends with another.
pub open spec fn ends_with(s: Seq<char>, end: Seq<char>) -> bool {
    s.len() >= end.len() && s.skip(s.len() - end.len()) == end
}

proof fn lemma_ends_with(before: Seq<char>, end: Seq<char>)
    ensures
        ends_with(before + end, end),
{
    assert((before + end).skip(before.len() as int) =~= end);
}

/// The header of an optional field that is nested as a section of its own is a comment, just as the
/// lines under it: of a single struct, of a list and of a map. It is none if the field is required.
///
/// A map that no key was given for has a table instead, which is told that the field is optional.
pub proof fn law_optional_section_is_comment(
    struct_ty: Seq<char>,
    struct_default: Option<DefaultSource<Seq<char>>>,
    field: FieldView,
    rename_rule: RenameRule,
    serde: bool,
)
    requires
        field_of(struct_default is Some, field, rename_rule, serde) matches Ok(parsed)
            && is_section(parsed),
    ensures
        raw_field_parts(struct_ty, struct_default, field, rename_rule, serde) matches Ok(parts)
            && is_section_call(
            parts,
            field_of(struct_default is Some, field, rename_rule, serde)->Ok_0,
            is_option(field.ty) && !said_by(field.attrs, serde)->Ok_0.require,
        ),
{
    let parsed = field_of(struct_default is Some, field, rename_rule, serde)->Ok_0;
    law_field_optional(struct_default is Some, field, rename_rule, serde);
    if is_open_map(parsed) {
        law_map_table(struct_ty, struct_default, field, rename_rule, serde);
        let parts = raw_field_parts(struct_ty, struct_default, field, rename_rule, serde)->Ok_0;
        lemma_open_map_call(parsed, parts);
    } else {
        law_nested_call(struct_ty, struct_default, field, rename_rule, serde);
        let parts = raw_field_parts(struct_ty, struct_default, field, rename_rule, serde)->Ok_0;
        lemma_section_call(parsed, parts);
    }
}

/// The field is nested as a section of its own.
pub open spec fn is_section(field: ParsedFieldView) -> bool {
    field.nesting_format is Some && field.nesting_format != Some(NestingFormat::Prefix)
        && field.ty is Some && !field.skip && !field.flatten
}

/// The parts of a section of its own. Its header, and what stands in front of each line under it, are
/// comments if `commented`. A table is told so.
pub open spec fn is_section_call(
    parts: FieldParts,
    parsed: ParsedFieldView,
    commented: bool,
) -> bool {
    &&& parts.inline.len() == 0
    &&& parts.section.len() == 2
    &&& parts.section[1] matches Part::Code(code) && {
        let call = " + &"@ + parsed.ty->0 + "::toml_example_with_prefix(&"@ + parsed.label();
        if is_open_map(parsed) {
            if commented {
                ends_with(code, ", true) "@)
            } else {
                ends_with(code, ", false) "@)
            }
        } else if commented {
            (call + ", (\""@ + "# ["@).is_prefix_of(code) && ends_with(
                code,
                "\"), \""@ + "# "@ + "\") "@,
            )
        } else {
            (call + ", (\""@ + "["@).is_prefix_of(code) && ends_with(code, "\"), \""@ + "\") "@)
        }
    }
}

proof fn lemma_open_map_call(parsed: ParsedFieldView, parts: FieldParts)
    requires
        is_open_map(parsed),
        parts.inline.len() == 0,
        parts.section == seq![
            Part::Text(doc_lines(parsed.docs)),
            Part::Code(
                " + &toml_example::format_table_example(label, prefix, \""@ + bare_name(parsed.name)
                    + "\", "@ + "\"\""@ + if parsed.optional {
                    ", true) "@
                } else {
                    ", false) "@
                },
            ),
        ],
    ensures
        is_section_call(parts, parsed, parsed.optional),
{
    let front = " + &toml_example::format_table_example(label, prefix, \""@ + bare_name(parsed.name)
        + "\", "@ + "\"\""@;
    lemma_ends_with(front, ", true) "@);
    lemma_ends_with(front, ", false) "@);
}

/// The call for a section of its own passes on a header and a prefix that are comments if the field
/// is optional.
proof fn lemma_section_call(parsed: ParsedFieldView, parts: FieldParts)
    requires
        is_section(parsed),
        !is_open_map(parsed),
        parts.inline.len() == 0,
        parts.section == seq![
            Part::Text(doc_lines(parsed.docs)),
            Part::Code(
                " + &"@ + parsed.ty->0 + "::toml_example_with_prefix(&"@ + parsed.label() + ", (\""@
                    + header_start(parsed) + "\", \""@ + header_end(parsed) + "\"), \""@
                    + parsed.prefix() + "\") "@,
            ),
        ],
    ensures
        is_section_call(parts, parsed, parsed.optional),
{
    let call = " + &"@ + parsed.ty->0 + "::toml_example_with_prefix(&"@ + parsed.label();
    let none = Seq::<char>::empty();
    let mark = if parsed.optional {
        "# ["@
    } else {
        "["@
    };
    law_prefix(parsed);
    lemma_header_marks();
    lemma_call_header(call, header_start(parsed), mark, header_end(parsed), parsed.prefix());
    assert("\"), \""@ + none =~= "\"), \""@);
    assert("# "@ + none =~= "# "@);
}

/// The start of the header of a section of its own.
spec fn header_start(parsed: ParsedFieldView) -> Seq<char> {
    match (
        parsed.nesting_format == Some(NestingFormat::Section(NestingType::List)),
        parsed.optional,
    ) {
        (true, true) => "# [["@,
        (true, false) => "[["@,
        (false, true) => "# ["@,
        (false, false) => "["@,
    }
}

/// The end of the header of a section of its own.
spec fn header_end(parsed: ParsedFieldView) -> Seq<char> {
    if parsed.nesting_format == Some(NestingFormat::Section(NestingType::List)) {
        "]]\n"@
    } else {
        "]\n"@
    }
}

/// The headers of lists start as others do.
proof fn lemma_header_marks()
    ensures
        "# ["@.is_prefix_of("# ["@),
        "# ["@.is_prefix_of("# [["@),
        "["@.is_prefix_of("["@),
        "["@.is_prefix_of("[["@),
{
    reveal_strlit("# [");
    reveal_strlit("# [[");
    reveal_strlit("[");
    reveal_strlit("[[");
    assert("# [["@.take(3) =~= "# ["@);
    assert("[["@.take(1) =~= "["@);
}

/// A call passes on a header that starts as `before` does, and ends with the prefix.
proof fn lemma_call_header(
    call: Seq<char>,
    before: Seq<char>,
    mark: Seq<char>,
    after: Seq<char>,
    prefix: Seq<char>,
)
    requires
        mark.is_prefix_of(before),
    ensures
        ({
            let code = call + ", (\""@ + before + "\", \""@ + after + "\"), \""@ + prefix + "\") "@;
            &&& (call + ", (\""@ + mark).is_prefix_of(code)
            &&& ends_with(code, "\"), \""@ + prefix + "\") "@)
        }),
{
    let front = call + ", (\""@;
    let rest = "\", \""@ + after;
    let end = "\"), \""@ + prefix + "\") "@;
    let code = call + ", (\""@ + before + "\", \""@ + after + "\"), \""@ + prefix + "\") "@;
    assert(code =~= front + before + rest + end);
    assert(front + mark =~= code.take((front + mark).len() as int)) by {
        assert(mark =~= before.take(mark.len() as int));
    }
    lemma_ends_with(front + before + rest, end);
}

/// What stands in front of the lines of a nested field: its name and a point if it is nested by a
/// prefix, and the mark of a comment first if it is optional.
pub proof fn law_prefix(field: ParsedFieldView)
    ensures
        ({
            let name = if field.nesting_format == Some(NestingFormat::Prefix) {
                field.name + "."@
            } else {
                seq![]
            };
            field.prefix() == if field.optional {
                "# "@ + name
            } else {
                name
            }
        }),
{
    let none = Seq::<char>::empty();
    assert(none + field.name =~= field.name);
    assert("# "@ + field.name + "."@ =~= "# "@ + (field.name + "."@));
    assert("# "@ + none =~= "# "@);
}

/// The path of the section of a nested field is that of the struct, and behind it the name of the
/// field, and for a map the key of its entry. What is merged into the struct leaves its name out, and
/// a field with a prefix adds nothing.
pub proof fn law_label(field: ParsedFieldView)
    ensures
        ({
            let map = field.nesting_format == Some(NestingFormat::Section(NestingType::Dict));
            let prefix = field.nesting_format == Some(NestingFormat::Prefix);
            let path = if prefix {
                seq![]
            } else if map && field.flatten {
                field.default_key()
            } else if map {
                field.name + "."@ + field.default_key()
            } else if field.flatten {
                seq![]
            } else {
                field.name
            };
            field.label() == if path.len() == 0 {
                "label"@
            } else {
                "
                if label.is_empty() {
                    \""@ + path + "\".to_string()
                } else {
                    label.to_string() + \".\" + \""@ + path + "\"
                }
            "@
            }
        }),
{
}

} // verus!

//! What the expression for an example reads as.

use vstd::prelude::*;

use crate::ast::FieldView;
use crate::attrs::DefaultSource;
use crate::case::RenameRule;
use crate::example::{bare_name, comment_mark, example_of, field_parts, fields_parts};
use crate::example::{raw_field_parts, value_text};
use crate::field::{doc_lines, field_of, ParsedFieldView};
use crate::parts::{is_raw_code, is_raw_text, last_text, meaning, meant, read_expression, readable};
use crate::parts::{law_expression_is_read, law_meaning_append, law_readable_append};
use crate::parts::{lemma_one_part, lemma_raw_join, lemma_raw_without_quotes, lemma_three_parts, Part};
use crate::text::starts_at;

verus! {

/// The code that adds what stands in front of each line.
pub open spec fn prefix_code() -> Seq<char> {
    " + prefix "@
}

/// The expression for the example of a struct reads as what the parts of its values stand for, and
/// then those of its sections, if no text has the end of a raw string and no code the start of one.
pub proof fn law_example_is_read(
    struct_ty: Seq<char>,
    struct_default: Option<DefaultSource<Seq<char>>>,
    fields: Seq<FieldView>,
    rename_rule: RenameRule,
    serde: bool,
    eval: spec_fn(Seq<char>) -> Seq<char>,
)
    requires
        fields_parts(struct_ty, struct_default, fields, rename_rule, serde) matches Ok(parts)
            && readable(seq![], parts.inline + parts.section),
    ensures
        ({
            let parts = fields_parts(struct_ty, struct_default, fields, rename_rule, serde)->Ok_0;
            example_of(struct_ty, struct_default, fields, rename_rule, serde) matches Ok(example)
                && read_expression(example, eval) == Some(
                meaning(parts.inline, eval) + meaning(parts.section, eval),
            )
        }),
{
    let parts = fields_parts(struct_ty, struct_default, fields, rename_rule, serde)->Ok_0;
    law_expression_is_read(parts.inline + parts.section, eval);
    law_meaning_append(parts.inline, parts.section, eval);
}

/// A field that is a value, given as a text.
pub open spec fn is_value(field: ParsedFieldView) -> bool {
    &&& field.nesting_format is None
    &&& !(field.kind is Dict)
    &&& field.default is DefaultValue
}

/// The lines for a field that is a value, unless it is left out: its documentation, its name and
/// value behind `prefix`, and an empty line. If the field is optional, all of it is a comment.
pub open spec fn value_lines(field: ParsedFieldView, prefix: Seq<char>) -> Seq<char> {
    if field.skip {
        seq![]
    } else {
        doc_lines(field.docs) + comment_mark(field.optional) + prefix + bare_name(field.name)
            + " = "@ + value_text(field.optional, field.default->DefaultValue_0) + "\n"@ + "\n"@
    }
}

/// The lines for fields that are values, one behind the other.
pub open spec fn example_lines(
    struct_default: bool,
    fields: Seq<FieldView>,
    rename_rule: RenameRule,
    serde: bool,
    prefix: Seq<char>,
) -> Seq<char>
    decreases fields.len(),
{
    if fields.len() == 0 {
        seq![]
    } else {
        example_lines(struct_default, fields.drop_last(), rename_rule, serde, prefix) + value_lines(
            field_of(struct_default, fields.last(), rename_rule, serde)->Ok_0,
            prefix,
        )
    }
}

/// The documentation, name and value of a field have no end of a raw string.
pub open spec fn is_raw_field(field: ParsedFieldView) -> bool {
    &&& forall|i: int| 0 <= i < field.docs.len() ==> is_raw_text(#[trigger] field.docs[i])
    &&& is_raw_text(bare_name(field.name))
    &&& is_raw_text(value_text(field.optional, field.default->DefaultValue_0))
}

/// A text that is empty or ends a line.
spec fn ends_line(text: Seq<char>) -> bool {
    text.len() == 0 || text.last() == '\n'
}

/// Comment lines have no end of a raw string, if the documentation has none.
proof fn lemma_raw_docs(docs: Seq<Seq<char>>)
    requires
        forall|i: int| 0 <= i < docs.len() ==> is_raw_text(#[trigger] docs[i]),
    ensures
        is_raw_text(doc_lines(docs)),
        ends_line(doc_lines(docs)),
    decreases docs.len(),
{
    if docs.len() > 0 {
        reveal_strlit("#");
        reveal_strlit("\n");
        let init = docs.drop_last();
        let doc = docs.last();
        assert(docs[docs.len() - 1] == doc);
        assert forall|i: int| 0 <= i < init.len() implies is_raw_text(#[trigger] init[i]) by {
            assert(init[i] == docs[i]);
        }
        lemma_raw_docs(init);
        lemma_raw_without_quotes("#"@);
        lemma_raw_without_quotes("\n"@);
        let before = doc_lines(init);
        lemma_raw_join(before, "#"@);
        lemma_raw_join(before + "#"@, doc);
        lemma_raw_join(before + "#"@ + doc, "\n"@);
    }
}

/// The parts of a field that is a value stand for its lines.
proof fn lemma_value_is_read(
    struct_ty: Seq<char>,
    struct_default: Option<DefaultSource<Seq<char>>>,
    ident: Seq<char>,
    field: ParsedFieldView,
    eval: spec_fn(Seq<char>) -> Seq<char>,
)
    requires
        field.skip || is_value(field),
    ensures
        field_parts(struct_ty, struct_default, ident, field) matches Ok(parts) && {
            &&& parts.section.len() == 0
            &&& meaning(parts.inline, eval) == value_lines(field, eval(prefix_code()))
        },
{
    if !field.skip {
        let start = Part::Text(doc_lines(field.docs) + comment_mark(field.optional));
        let prefix = Part::Code(prefix_code());
        let name = Part::Text(bare_name(field.name));
        let text = value_text(field.optional, field.default->DefaultValue_0);
        let value = Part::Text(" = "@ + text + "\n"@);
        let end = Part::Text("\n"@);
        let head = seq![start, prefix, name];
        lemma_three_parts(start, prefix, name, eval);
        lemma_one_part(value, eval);
        lemma_one_part(end, eval);
        law_meaning_append(head, seq![value], eval);
        law_meaning_append(head + seq![value], seq![end], eval);
        let front = meant(start, eval) + eval(prefix_code()) + bare_name(field.name);
        assert(front + (" = "@ + text + "\n"@) + "\n"@ =~= front + " = "@ + text + "\n"@ + "\n"@);
    }
}

/// The parts of a field that is a value can be read behind a text that ends a line.
proof fn lemma_value_is_readable(
    struct_ty: Seq<char>,
    struct_default: Option<DefaultSource<Seq<char>>>,
    ident: Seq<char>,
    field: ParsedFieldView,
    text: Seq<char>,
)
    requires
        field.skip || is_value(field) && is_raw_field(field),
        is_raw_text(text),
        ends_line(text),
    ensures
        field_parts(struct_ty, struct_default, ident, field) matches Ok(parts) && {
            &&& readable(text, parts.inline)
            &&& is_raw_text(last_text(text, parts.inline))
            &&& ends_line(last_text(text, parts.inline))
        },
{
    if !field.skip {
        let none = Seq::<char>::empty();
        let comment = comment_mark(field.optional);
        let docs = doc_lines(field.docs);
        let name = bare_name(field.name);
        let value = value_text(field.optional, field.default->DefaultValue_0);
        let line = " = "@ + value + "\n"@;
        reveal_strlit("# ");
        reveal_strlit(" = ");
        reveal_strlit("\n");
        lemma_raw_docs(field.docs);
        lemma_raw_without_quotes(comment);
        lemma_raw_without_quotes(" = "@);
        lemma_raw_without_quotes("\n"@);
        lemma_raw_join(docs, comment);
        lemma_raw_join(text, docs + comment);
        lemma_raw_join(" = "@, value);
        lemma_raw_join(" = "@ + value, "\n"@);
        assert(none + name =~= name);
        lemma_raw_join(name, line);
        lemma_raw_join(name + line, "\n"@);
        assert(is_raw_code(prefix_code())) by {
            reveal_strlit(" + prefix ");
            reveal_strlit("+ &r##\"");
            let code = prefix_code();
            let mark = "+ &r##\""@;
            assert forall|i: int| 0 <= i < code.len() implies !#[trigger] starts_at(code, i, mark) by {
                if starts_at(code, i, mark) {
                    assert(code.subrange(i, i + 7)[0] == code[i]);
                    assert(code.subrange(i, i + 7)[2] == code[i + 2]);
                }
            }
        }
        let all = seq![
            Part::Text(docs + comment),
            Part::Code(prefix_code()),
            Part::Text(name),
            Part::Text(line),
            Part::Text("\n"@),
        ];
        let parts = field_parts(struct_ty, struct_default, ident, field)->Ok_0;
        assert(parts.inline =~= all);
        let behind = all.drop_first().drop_first();
        assert(behind =~= seq![Part::Text(name), Part::Text(line), Part::Text("\n"@)]);
        let last = behind.drop_first().drop_first();
        assert(last =~= seq![Part::Text("\n"@)]);
        assert(last.drop_first() =~= seq![]);
        reveal_with_fuel(readable, 6);
        reveal_with_fuel(last_text, 6);
    }
}

/// The expression for the example of a struct whose fields are all values, given as texts, reads as
/// the lines of the fields, if no documentation, name or value has the end of a raw string.
pub proof fn law_values_are_read(
    struct_ty: Seq<char>,
    struct_default: Option<DefaultSource<Seq<char>>>,
    fields: Seq<FieldView>,
    rename_rule: RenameRule,
    serde: bool,
    eval: spec_fn(Seq<char>) -> Seq<char>,
)
    requires
        forall|i: int|
            #![trigger fields[i]]
            0 <= i < fields.len() ==> (field_of(
                struct_default is Some,
                fields[i],
                rename_rule,
                serde,
            ) matches Ok(field) && (field.skip || is_value(field) && is_raw_field(field))),
    ensures
        example_of(struct_ty, struct_default, fields, rename_rule, serde) matches Ok(example)
            && read_expression(example, eval) == Some(
            example_lines(
                struct_default is Some,
                fields,
                rename_rule,
                serde,
                eval(prefix_code()),
            ),
        ),
{
    lemma_values_are_read(struct_ty, struct_default, fields, rename_rule, serde, eval);
    let parts = fields_parts(struct_ty, struct_default, fields, rename_rule, serde)->Ok_0;
    assert(parts.inline + parts.section =~= parts.inline);
    law_example_is_read(struct_ty, struct_default, fields, rename_rule, serde, eval);
    assert(meaning(parts.inline, eval) + meaning(parts.section, eval) =~= meaning(
        parts.inline,
        eval,
    ));
}

proof fn lemma_values_are_read(
    struct_ty: Seq<char>,
    struct_default: Option<DefaultSource<Seq<char>>>,
    fields: Seq<FieldView>,
    rename_rule: RenameRule,
    serde: bool,
    eval: spec_fn(Seq<char>) -> Seq<char>,
)
    requires
        forall|i: int|
            #![trigger fields[i]]
            0 <= i < fields.len() ==> (field_of(
                struct_default is Some,
                fields[i],
                rename_rule,
                serde,
            ) matches Ok(field) && (field.skip || is_value(field) && is_raw_field(field))),
    ensures
        fields_parts(struct_ty, struct_default, fields, rename_rule, serde) matches Ok(parts) && {
            &&& parts.section.len() == 0
            &&& readable(seq![], parts.inline)
            &&& is_raw_text(last_text(seq![], parts.inline))
            &&& ends_line(last_text(seq![], parts.inline))
            &&& meaning(parts.inline, eval) == example_lines(
                struct_default is Some,
                fields,
                rename_rule,
                serde,
                eval(prefix_code()),
            )
        },
    decreases fields.len(),
{
    if fields.len() > 0 {
        let init = fields.drop_last();
        let last = fields.last();
        assert(fields[fields.len() - 1] == last);
        assert forall|i: int| #![trigger init[i]] 0 <= i < init.len() implies (field_of(
            struct_default is Some,
            init[i],
            rename_rule,
            serde,
        ) matches Ok(field) && (field.skip || is_value(field) && is_raw_field(field))) by {
            assert(init[i] == fields[i]);
        }
        lemma_values_are_read(struct_ty, struct_default, init, rename_rule, serde, eval);
        let before = fields_parts(struct_ty, struct_default, init, rename_rule, serde)->Ok_0;
        let field = field_of(struct_default is Some, last, rename_rule, serde)->Ok_0;
        reveal(raw_field_parts);
        lemma_value_is_read(struct_ty, struct_default, last.ident->0, field, eval);
        lemma_value_is_readable(
            struct_ty,
            struct_default,
            last.ident->0,
            field,
            last_text(seq![], before.inline),
        );
        let parts = field_parts(struct_ty, struct_default, last.ident->0, field)->Ok_0;
        law_readable_append(seq![], before.inline, parts.inline);
        law_meaning_append(before.inline, parts.inline, eval);
    }
}

} // verus!

//! Which example values a field can have.

use vstd::prelude::*;

use crate::abort::{outcome, Abort};
use crate::ast::{ArgumentView, ArgumentsView, TypeView};
use crate::attrs::DefaultSource;
use crate::enclosure::{cut_once_unenclosed, pieces, split_once_unenclosed, split_unenclosed};
use crate::number::{decimal, digit_run, digits_up_to, float_text, is_float_text};
use crate::number::{is_signed_text, is_unsigned_text, signed_text, unsigned_text, value_of};
use crate::text::{chars_of, replace, same_text, starts, starts_with_char, trim, trim_start};
use crate::text::{law_replaced_has_none, law_replaced_nothing};
use crate::text::{replaced, trimmed, trimmed_start, white_space};
use crate::types::{default_of, dict_type, float_type, is_float_type, is_signed_type};
use crate::types::{is_unsigned_type, lemma_list_is_no_dict, list_type, no_facts, signed_type};
use crate::types::{type_facts, type_text, unsigned_type, FieldKind, TypeFacts};

verus! {

/// The place of the last `::` in a text.
pub open spec fn last_colons(s: Seq<char>) -> Option<int>
    decreases s.len(),
{
    if s.len() < 2 {
        None
    } else if s[s.len() - 2] == ':' && s[s.len() - 1] == ':' {
        Some(s.len() - 2)
    } else {
        last_colons(s.drop_last())
    }
}

/// The text behind the last `::`, if there is one.
pub open spec fn last_segment(s: Seq<char>) -> Seq<char> {
    match last_colons(s) {
        Some(i) => s.skip(i + 2),
        None => s,
    }
}

/// The name of a type, without spaces and without the path to it.
pub open spec fn normalized(ty: Seq<char>) -> Seq<char> {
    last_segment(replaced(ty, ' ', seq![]))
}

/// The name of a type of strings.
pub open spec fn string_type(ty: Option<Seq<char>>) -> bool {
    match ty {
        Some(ty) => normalized(ty) == "String"@ || normalized(ty) == "str"@,
        None => false,
    }
}

/// Whether a field of this type can have this value.
pub open spec fn value_fits(value: Seq<char>, ty: Option<Seq<char>>) -> Result<(), Abort<Seq<char>>> {
    let value = trimmed(value);
    let number = replaced(value, '_', seq![]);
    match ty {
        Some(ty) => {
            let ty = normalized(ty);
            if (ty == "String"@ || ty == "str"@) && !starts(value, '"') && !starts(value, '\'') {
                Err(Abort::NotQuoted)
            } else if ty == "bool"@ && value != "true"@ && value != "false"@ {
                Err(Abort::NotBool)
            } else if unsigned_type(ty) && !unsigned_text(number) {
                Err(Abort::NotUnsigned)
            } else if signed_type(ty) && !signed_text(number) {
                Err(Abort::NotSigned)
            } else if float_type(ty) && !float_text(number) {
                Err(Abort::NotFloat)
            } else {
                Ok(())
            }
        },
        None => Ok(()),
    }
}

/// The keys and values of the entries of an inline table, leaving out empty entries.
pub open spec fn entries_of(parts: Seq<Seq<char>>) -> Result<
    Seq<(Seq<char>, Seq<char>)>,
    Abort<Seq<char>>,
>
    decreases parts.len(),
{
    if parts.len() == 0 {
        Ok(seq![])
    } else {
        let entry = trimmed(parts.last());
        match entries_of(parts.drop_last()) {
            Ok(entries) => if entry.len() == 0 {
                Ok(entries)
            } else {
                match cut_once_unenclosed(entry, '=') {
                    Some((key, value)) => Ok(entries.push((trimmed(key), trimmed(value)))),
                    None => Err(Abort::EntryWithoutValue),
                }
            },
            Err(abort) => Err(abort),
        }
    }
}

/// The keys and values of an inline table.
pub open spec fn table_of(default: Seq<char>) -> Result<
    Seq<(Seq<char>, Seq<char>)>,
    Abort<Seq<char>>,
> {
    let table = trimmed(default);
    if starts(table, '{') && table.last() == '}' {
        entries_of(pieces(trimmed(table.subrange(1, table.len() - 1)), ','))
    } else {
        Err(Abort::NotInlineTable)
    }
}

/// The lines of a table with these entries.
pub open spec fn lines_of(entries: Seq<(Seq<char>, Seq<char>)>) -> Seq<char>
    decreases entries.len(),
{
    if entries.len() == 0 {
        seq![]
    } else {
        lines_of(entries.drop_last()) + entries.last().0 + " = "@ + entries.last().1 + "\n"@
    }
}

/// The lines of an inline table.
pub open spec fn table_lines(default: Seq<char>) -> Result<Seq<char>, Abort<Seq<char>>> {
    match table_of(default) {
        Ok(entries) => Ok(lines_of(entries)),
        Err(abort) => Err(abort),
    }
}

/// Whether all values of a table can be of this type.
pub open spec fn entries_fit(entries: Seq<(Seq<char>, Seq<char>)>, ty: Option<Seq<char>>) -> Result<
    (),
    Abort<Seq<char>>,
>
    decreases entries.len(),
{
    if entries.len() == 0 {
        Ok(())
    } else {
        match entries_fit(entries.drop_last(), ty) {
            Ok(_) => value_fits(entries.last().1, ty),
            Err(abort) => Err(abort),
        }
    }
}

/// Whether a field of this kind, which holds this type, can have this default.
pub open spec fn source_fits(
    default: DefaultSource<Seq<char>>,
    kind: FieldKind<Seq<char>>,
    ty: Option<Seq<char>>,
) -> Result<(), Abort<Seq<char>>> {
    match default {
        DefaultSource::DefaultValue(default) => match kind {
            FieldKind::Dict { key_ty, value_ty } => if !string_type(key_ty) {
                Err(Abort::MapKeyNotString)
            } else if trimmed(default).len() == 0 {
                Ok(())
            } else {
                match table_of(default) {
                    Ok(entries) => entries_fit(entries, value_ty),
                    Err(abort) => Err(abort),
                }
            },
            FieldKind::List => if starts(trimmed_start(default), '[') {
                Ok(())
            } else {
                Err(Abort::NotArray)
            },
            FieldKind::Scalar => value_fits(default, ty),
        },
        _ => Ok(()),
    }
}

/// The last `::` is one, and none stands behind it.
proof fn lemma_last_colons(s: Seq<char>)
    ensures
        match last_colons(s) {
            Some(n) => {
                &&& 0 <= n < s.len() - 1
                &&& s[n] == ':' && s[n + 1] == ':'
                &&& forall|i: int| n < i < s.len() - 1 ==> !(#[trigger] s[i] == ':' && s[i + 1] == ':')
            },
            None => forall|i: int| 0 <= i < s.len() - 1 ==> !(#[trigger] s[i] == ':' && s[i + 1] == ':'),
        },
    decreases s.len(),
{
    if s.len() >= 2 && !(s[s.len() - 2] == ':' && s[s.len() - 1] == ':') {
        let init = s.drop_last();
        lemma_last_colons(init);
        assert forall|i: int|
            0 <= i < s.len() - 1 && !(i < init.len() - 1 && init[i] == ':' && init[i + 1] == ':') implies !(
        #[trigger] s[i] == ':' && s[i + 1] == ':') by {
            if i < init.len() - 1 {
                assert(init[i] == s[i] && init[i + 1] == s[i + 1]);
            }
        }
    }
}

/// The name of a type has no spaces and no path to it, so it is its own name.
pub proof fn law_normalized_twice(ty: Seq<char>)
    ensures
        !normalized(ty).contains(' '),
        last_colons(normalized(ty)) is None,
        normalized(normalized(ty)) == normalized(ty),
{
    let compact = replaced(ty, ' ', seq![]);
    let name = normalized(ty);
    law_replaced_has_none(ty, ' ', seq![]);
    lemma_last_colons(compact);
    lemma_last_colons(name);
    let start = match last_colons(compact) {
        Some(n) => n + 2,
        None => 0,
    };
    assert(compact.skip(0) =~= compact);
    assert(name == compact.skip(start));
    if name.contains(' ') {
        let i = choose|i: int| 0 <= i < name.len() && name[i] == ' ';
        assert(compact[start + i] == ' ');
    }
    if let Some(n) = last_colons(name) {
        assert(compact[start + n] == ':' && compact[start + n + 1] == ':');
    }
    law_replaced_nothing(name, ' ', seq![]);
}

/// The example value for a type with this name is accepted for the type.
proof fn lemma_name_fits(text: Seq<char>, ty: Seq<char>)
    requires
        ty != "bool"@,
        normalized(text) == ty,
    ensures
        value_fits(default_of(ty), Some(text)) is Ok,
{
    reveal_strlit("0");
    reveal_strlit("0.0");
    reveal_strlit("\"\"");
    lemma_type_names(ty);
    let zero = "0"@;
    let float_zero = "0.0"@;
    let quotes = "\"\""@;
    lemma_untrimmed(zero);
    lemma_untrimmed(float_zero);
    lemma_untrimmed(quotes);
    law_replaced_nothing(zero, '_', seq![]);
    law_replaced_nothing(float_zero, '_', seq![]);
    assert(zero.drop_last() =~= seq![]);
    assert(value_of(zero) == 0) by {
        reveal_with_fuel(value_of, 2);
    }
    assert(digits_up_to(zero, u128::MAX as nat));
    assert(unsigned_text(zero));
    assert(signed_text(zero));
    assert(float_text(float_zero)) by {
        assert(float_zero.drop_first() =~= seq!['.', '0']);
        assert(digit_run(float_zero) == 1) by {
            reveal_with_fuel(digit_run, 2);
        }
        let rest = float_zero.skip(1);
        assert(rest =~= seq!['.', '0']);
        assert(rest.skip(1) =~= seq!['0']);
        assert(digit_run(rest.skip(1)) == 1) by {
            reveal_with_fuel(digit_run, 2);
        }
        assert(rest.skip(2).len() == 0);
        assert(decimal(float_zero));
    }
}

/// A text without white space at its ends is not changed by trimming.
proof fn lemma_untrimmed(s: Seq<char>)
    requires
        s.len() > 0,
        !white_space(s[0]),
        !white_space(s.last()),
    ensures
        trimmed(s) == s,
        trimmed_start(s) == s,
{
}

/// A type whose example value is accepted for a field of the type: one that is no `bool`, and as
/// a list, map or option has its arguments, and as a map keys that are strings.
pub open spec fn has_own_example(ty: TypeView) -> bool
    decreases ty,
{
    match ty {
        TypeView::Path { text, segments } => segments.len() > 0 ==> {
            let segment = segments[segments.len() - 1];
            match segment.arguments {
                ArgumentsView::Absent => normalized(text) == segment.ident && segment.ident
                    != "bool"@,
                ArgumentsView::AngleBracketed(args) => if segment.ident == "Option"@ {
                    args.len() > 0 && match args[0] {
                        ArgumentView::Of(inner) => has_own_example(inner),
                        ArgumentView::Other => false,
                    }
                } else if list_type(segment.ident) {
                    args.len() > 0 && args[0] is Of
                } else if dict_type(segment.ident) {
                    args.len() > 0 && match args[0] {
                        ArgumentView::Of(key) => string_type(type_text(key)),
                        ArgumentView::Other => false,
                    }
                } else {
                    true
                },
                ArgumentsView::Parenthesized => segment.ident != "Option"@ && !list_type(
                    segment.ident,
                ) && !dict_type(segment.ident),
            }
        },
        TypeView::Other => true,
    }
}

/// The example value that a type gives to a field is accepted for the field.
pub proof fn law_own_example_fits(ty: TypeView, optional: bool)
    requires
        has_own_example(ty),
    ensures
        ({
            let (facts, held) = type_facts(ty, TypeFacts { optional, ..no_facts() });
            &&& facts.nesting_format is None
            &&& source_fits(DefaultSource::DefaultValue(facts.default), facts.kind, held) is Ok
        }),
    decreases ty,
{
    reveal_strlit("{}");
    reveal_strlit("[  ]");
    reveal_strlit("[ ");
    let (facts, held) = type_facts(ty, TypeFacts { optional, ..no_facts() });
    if let TypeView::Path { text, segments } = ty {
        if segments.len() > 0 {
            let segment = segments[segments.len() - 1];
            match segment.arguments {
                ArgumentsView::Absent => {
                    lemma_name_fits(text, segment.ident);
                },
                ArgumentsView::AngleBracketed(args) => if segment.ident == "Option"@ {
                    if let ArgumentView::Of(inner) = args[0] {
                        law_own_example_fits(inner, false);
                    }
                } else if list_type(segment.ident) {
                    lemma_list_is_no_dict(segment.ident);
                    assert(facts.default[0] == '[');
                    assert(trimmed_start(facts.default) == facts.default);
                } else if dict_type(segment.ident) {
                    let table = "{}"@;
                    lemma_untrimmed(table);
                    assert(table.subrange(1, 1) =~= seq![]);
                    assert(trimmed(Seq::<char>::empty()) =~= seq![]);
                    assert(pieces(seq![], ',') =~= seq![Seq::<char>::empty()]);
                    let parts = seq![Seq::<char>::empty()];
                    assert(parts.drop_last() =~= seq![]);
                    assert(entries_of(parts) == entries_of(parts.drop_last()));
                    assert(table_of(table) == Ok::<_, Abort<Seq<char>>>(
                        Seq::<(Seq<char>, Seq<char>)>::empty(),
                    ));
                },
                ArgumentsView::Parenthesized => {},
            }
        }
    }
}

/// The default of a map that was accepted for it and is not empty has lines to write.
pub proof fn law_accepted_table_has_lines(
    default: Seq<char>,
    key_ty: Option<Seq<char>>,
    value_ty: Option<Seq<char>>,
    ty: Option<Seq<char>>,
)
    requires
        trimmed(default).len() > 0,
        source_fits(
            DefaultSource::DefaultValue(default),
            FieldKind::Dict { key_ty, value_ty },
            ty,
        ) is Ok,
    ensures
        table_lines(default) is Ok,
{
}

/// The name of a type, without spaces and without the path to it.
pub fn normalize_type(ty: &str) -> (r: String)
    ensures
        r@ == normalized(ty@),
{
    proof {
        reveal_strlit("");
        assert(""@ =~= seq![]);
    }
    let name = replace(ty, ' ', "");
    let chars = chars_of(name.as_str());
    let len: usize = chars.len();
    let mut end: usize = len;
    proof {
        assert(name@.take(len as int) =~= name@);
    }
    while end >= 2
        invariant
            end <= len == chars@.len(),
            chars@ == name@,
            name@ == replaced(ty@, ' ', seq![]),
            last_colons(name@.take(end as int)) == last_colons(name@),
        decreases end,
    {
        if chars[end - 2] == ':' && chars[end - 1] == ':' {
            proof {
                assert(name@.subrange(end as int, len as int) =~= name@.skip(end as int));
            }
            return name.as_str().substring_char(end, len).to_owned();
        }
        proof {
            assert(name@.take(end as int).drop_last() =~= name@.take(end - 1));
        }
        end -= 1;
    }
    name
}

/// Tells whether a type is one of strings.
pub fn is_string_ty(ty: Option<&str>) -> (r: bool)
    ensures
        r == string_type(ty.deep_view()),
{
    match ty {
        Some(ty) => {
            let name = normalize_type(ty);
            same_text(name.as_str(), "String") || same_text(name.as_str(), "str")
        },
        None => false,
    }
}

/// Checks that a field of this type can have this value.
pub fn validate_default_value(value: &str, ty: Option<&str>) -> (r: Result<(), Abort<String>>)
    ensures
        outcome(r) == value_fits(value@, ty.deep_view()),
{
    let value = trim(value);
    let Some(ty) = ty else {
        return Ok(());
    };
    let name = normalize_type(ty);
    let ty = name.as_str();
    proof {
        reveal_strlit("");
        assert(""@ =~= seq![]);
        lemma_type_names(ty@);
    }
    if same_text(ty, "String") || same_text(ty, "str") {
        if !(starts_with_char(value, '"') || starts_with_char(value, '\'')) {
            return Err(Abort::NotQuoted);
        }
    } else if same_text(ty, "bool") {
        if !same_text(value, "true") && !same_text(value, "false") {
            return Err(Abort::NotBool);
        }
    } else if is_unsigned_type(ty) {
        if !is_unsigned_text(replace(value, '_', "").as_str()) {
            return Err(Abort::NotUnsigned);
        }
    } else if is_signed_type(ty) {
        if !is_signed_text(replace(value, '_', "").as_str()) {
            return Err(Abort::NotSigned);
        }
    } else if is_float_type(ty) {
        if !is_float_text(replace(value, '_', "").as_str()) {
            return Err(Abort::NotFloat);
        }
    }
    Ok(())
}

/// No name is that of two kinds of types.
pub(crate) proof fn lemma_type_names(ty: Seq<char>)
    ensures
        unsigned_type(ty) ==> !signed_type(ty) && !float_type(ty),
        signed_type(ty) ==> !float_type(ty),
        unsigned_type(ty) || signed_type(ty) || float_type(ty) ==> ty != "String"@ && ty != "str"@
            && ty != "bool"@,
        "bool"@ != "String"@,
        "bool"@ != "str"@,
{
    reveal_strlit("String");
    reveal_strlit("str");
    reveal_strlit("bool");
    reveal_strlit("usize");
    reveal_strlit("u8");
    reveal_strlit("u16");
    reveal_strlit("u32");
    reveal_strlit("u64");
    reveal_strlit("u128");
    reveal_strlit("isize");
    reveal_strlit("i8");
    reveal_strlit("i16");
    reveal_strlit("i32");
    reveal_strlit("i64");
    reveal_strlit("i128");
    reveal_strlit("f32");
    reveal_strlit("f64");
    assert("bool"@[0] == 'b' && "String"@[0] == 'S' && "str"@[0] == 's');
    assert(unsigned_type(ty) ==> ty[0] == 'u');
    assert(signed_type(ty) ==> ty[0] == 'i');
    assert(float_type(ty) ==> ty[0] == 'f');
}

/// The keys and values of an inline table.
pub fn parse_inline_table(default: &str) -> (r: Result<Vec<(String, String)>, Abort<String>>)
    ensures
        outcome(r) == table_of(default@),
{
    let table = trim(default);
    let len: usize = table.unicode_len();
    if len == 0 || table.get_char(0) != '{' || table.get_char(len - 1) != '}' {
        return Err(Abort::NotInlineTable);
    }
    let body = trim(table.substring_char(1, len - 1));
    let parts = split_unenclosed(body, ',');
    let ghost all = parts.deep_view();
    let mut entries: Vec<(String, String)> = Vec::new();
    let mut i: usize = 0;
    proof {
        assert(entries.deep_view() =~= seq![]);
    }
    while i < parts.len()
        invariant
            i <= parts@.len(),
            all == parts.deep_view(),
            table_of(default@) == entries_of(all),
            entries_of(all.take(i as int)) == Ok::<_, Abort<Seq<char>>>(entries.deep_view()),
        decreases parts.len() - i,
    {
        proof {
            assert(all.take(i + 1).drop_last() =~= all.take(i as int));
        }
        let entry = trim(parts[i].as_str());
        if !entry.is_empty() {
            if let Some(pair) = split_once_unenclosed(entry, '=') {
                let ghost before = entries.deep_view();
                entries.push((trim(pair.0).to_owned(), trim(pair.1).to_owned()));
                proof {
                    assert(entries.deep_view() =~= before.push(
                        (trimmed(pair.0@), trimmed(pair.1@)),
                    ));
                }
            } else {
                proof {
                    lemma_entries_abort(all, i + 1);
                }
                return Err(Abort::EntryWithoutValue);
            }
        }
        i += 1;
    }
    proof {
        assert(all.take(parts@.len() as int) =~= all);
    }
    Ok(entries)
}

/// An abort stays the result, whatever entries follow.
proof fn lemma_entries_abort(parts: Seq<Seq<char>>, n: int)
    requires
        0 <= n <= parts.len(),
        entries_of(parts.take(n)) is Err,
    ensures
        entries_of(parts) == entries_of(parts.take(n)),
    decreases parts.len(),
{
    if n < parts.len() {
        assert(parts.drop_last().take(n) =~= parts.take(n));
        lemma_entries_abort(parts.drop_last(), n);
    } else {
        assert(parts.take(n) =~= parts);
    }
}

/// The lines of an inline table.
pub fn inline_table_body(default: &str) -> (r: Result<String, Abort<String>>)
    ensures
        outcome(r) == table_lines(default@),
{
    let entries = match parse_inline_table(default) {
        Ok(entries) => entries,
        Err(abort) => {
            return Err(abort);
        },
    };
    let ghost all = entries.deep_view();
    let mut lines = String::new();
    let mut i: usize = 0;
    while i < entries.len()
        invariant
            i <= entries@.len(),
            all == entries.deep_view(),
            lines@ == lines_of(all.take(i as int)),
        decreases entries.len() - i,
    {
        proof {
            assert(all.take(i + 1).drop_last() =~= all.take(i as int));
        }
        lines.append(entries[i].0.as_str());
        lines.append(" = ");
        lines.append(entries[i].1.as_str());
        lines.append("\n");
        i += 1;
    }
    proof {
        assert(all.take(entries@.len() as int) =~= all);
    }
    Ok(lines)
}

/// A fault stays the result, whatever entries follow.
proof fn lemma_fit_abort(entries: Seq<(Seq<char>, Seq<char>)>, ty: Option<Seq<char>>, n: int)
    requires
        0 <= n <= entries.len(),
        entries_fit(entries.take(n), ty) is Err,
    ensures
        entries_fit(entries, ty) == entries_fit(entries.take(n), ty),
    decreases entries.len(),
{
    if n < entries.len() {
        assert(entries.drop_last().take(n) =~= entries.take(n));
        lemma_fit_abort(entries.drop_last(), ty, n);
    } else {
        assert(entries.take(n) =~= entries);
    }
}

/// A text that may be there, borrowed.
fn as_text(text: &Option<String>) -> (r: Option<&str>)
    ensures
        r.deep_view() == text.deep_view(),
{
    match text {
        Some(text) => Some(text.as_str()),
        None => None,
    }
}

/// Checks that a field of this kind, which holds this type, can have this default.
pub fn validate_default_source(
    default: &DefaultSource<String>,
    kind: &FieldKind<String>,
    ty: Option<&str>,
) -> (r: Result<(), Abort<String>>)
    ensures
        outcome(r) == source_fits(default.deep_view(), kind.deep_view(), ty.deep_view()),
{
    let DefaultSource::DefaultValue(value) = default else {
        return Ok(());
    };
    match kind {
        FieldKind::Dict { key_ty, value_ty } => {
            if !is_string_ty(as_text(key_ty)) {
                return Err(Abort::MapKeyNotString);
            }
            if trim(value.as_str()).is_empty() {
                return Ok(());
            }
            let entries = match parse_inline_table(value.as_str()) {
                Ok(entries) => entries,
                Err(abort) => {
                    return Err(abort);
                },
            };
            let ghost all = entries.deep_view();
            let mut i: usize = 0;
            while i < entries.len()
                invariant
                    i <= entries@.len(),
                    all == entries.deep_view(),
                    entries_fit(all, value_ty.deep_view()) == source_fits(
                        default.deep_view(),
                        kind.deep_view(),
                        ty.deep_view(),
                    ),
                    entries_fit(all.take(i as int), value_ty.deep_view()) is Ok,
                decreases entries.len() - i,
            {
                proof {
                    assert(all.take(i + 1).drop_last() =~= all.take(i as int));
                }
                if let Err(abort) = validate_default_value(
                    entries[i].1.as_str(),
                    as_text(value_ty),
                ) {
                    proof {
                        lemma_fit_abort(all, value_ty.deep_view(), i + 1);
                    }
                    return Err(abort);
                }
                i += 1;
            }
            proof {
                assert(all.take(entries@.len() as int) =~= all);
            }
            Ok(())
        },
        FieldKind::List => if starts_with_char(trim_start(value.as_str()), '[') {
            Ok(())
        } else {
            Err(Abort::NotArray)
        },
        FieldKind::Scalar => validate_default_value(value.as_str(), ty),
    }
}

} // verus!

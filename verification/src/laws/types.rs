//! What the type of a field says.

use vstd::prelude::*;

use crate::ast::{ArgumentView, ArgumentsView, SegmentView, TypeView};
use crate::attrs::{NestingFormat, NestingType};
use crate::types::{law_held_type_unwraps, lemma_list_is_no_dict, type_count, type_facts, type_text};
use crate::types::{law_value_index, types_among, value_index};
use crate::types::{FieldKind, TypeFacts};

verus! {

/// A type whose path ends in this name, with these arguments in angle brackets.
pub open spec fn is_generic(ty: TypeView, name: Seq<char>, args: Seq<ArgumentView>) -> bool {
    ty matches TypeView::Path { segments, .. } && segments.len() > 0 && segments.last()
        == SegmentView { ident: name, arguments: ArgumentsView::AngleBracketed(args) }
}

/// One of the names of lists.
pub open spec fn is_list_name(name: Seq<char>) -> bool {
    name == "Vec"@ || name == "HashSet"@ || name == "BTreeSet"@
}

/// One of the names of maps.
pub open spec fn is_map_name(name: Seq<char>) -> bool {
    name == "HashMap"@ || name == "BTreeMap"@
}

/// A type without arguments is what the field holds, as it is written. The last part of its path
/// gives the example value: zero for numbers, and an empty string for all else. Nothing else is
/// changed by it.
pub proof fn law_plain_type(text: Seq<char>, segments: Seq<SegmentView>, facts: TypeFacts)
    requires
        segments.len() > 0,
        segments.last().arguments is Absent,
    ensures
        ({
            let name = segments.last().ident;
            let (after, held) = type_facts(TypeView::Path { text, segments }, facts);
            let integer = name == "usize"@ || name == "u8"@ || name == "u16"@ || name == "u32"@
                || name == "u64"@ || name == "u128"@ || name == "isize"@ || name == "i8"@ || name
                == "i16"@ || name == "i32"@ || name == "i64"@ || name == "i128"@;
            let float = name == "f32"@ || name == "f64"@;
            &&& held == Some(text)
            &&& integer ==> after.default == "0"@
            &&& float && !integer ==> after.default == "0.0"@
            &&& !integer && !float ==> after.default == "\"\""@
            &&& after.optional == facts.optional
            &&& after.nesting_format == facts.nesting_format
            &&& after.kind == facts.kind
        }),
{
}

/// An option is optional. In all else a field of it is one of what is inside.
pub proof fn law_option_type(
    ty: TypeView,
    args: Seq<ArgumentView>,
    inner: TypeView,
    facts: TypeFacts,
)
    requires
        is_generic(ty, "Option"@, args),
        args.len() > 0,
        args[0] == ArgumentView::Of(inner),
    ensures
        ({
            let (after, held) = type_facts(ty, facts);
            let (inside, inside_held) = type_facts(inner, TypeFacts { optional: false, ..facts });
            &&& after.optional
            &&& held == inside_held
            &&& after.default == inside.default
            &&& after.nesting_format == inside.nesting_format
            &&& after.kind == inside.kind
        }),
{
}

/// A list holds what is inside, and has an array for its example value, with that of one item, or
/// empty if the item has none. A nested list is nested as a list. Whether the items are optional
/// makes no difference.
pub proof fn law_list_type(
    ty: TypeView,
    name: Seq<char>,
    args: Seq<ArgumentView>,
    item: TypeView,
    facts: TypeFacts,
)
    requires
        is_list_name(name),
        is_generic(ty, name, args),
        args.len() > 0,
        args[0] == ArgumentView::Of(item),
    ensures
        ({
            let (after, held) = type_facts(ty, facts);
            let (inside, inside_held) = type_facts(
                item,
                TypeFacts {
                    default: seq![],
                    optional: false,
                    nesting_format: None,
                    kind: FieldKind::Scalar,
                },
            );
            &&& held == inside_held
            &&& after.kind is List
            &&& after.optional == facts.optional
            &&& facts.nesting_format is None ==> after.nesting_format is None
            &&& facts.nesting_format is Some ==> after.nesting_format == Some(
                NestingFormat::Section(NestingType::List),
            )
            &&& after.default == if inside.default.len() == 0 {
                "[  ]"@
            } else {
                "[ "@ + inside.default + ", ]"@
            }
        }),
{
    lemma_list_is_no_dict(name);
}

/// A map holds what its values hold. It is known by the text of its first argument, the type of its
/// keys, and what its values hold. A nested map is nested as a map, and another has an empty table
/// for its example value.
pub proof fn law_map_type(
    ty: TypeView,
    name: Seq<char>,
    args: Seq<ArgumentView>,
    i: int,
    value: TypeView,
    facts: TypeFacts,
)
    requires
        is_map_name(name),
        is_generic(ty, name, args),
        0 < i < args.len(),
        args[i] == ArgumentView::Of(value),
        type_count(types_among(args).take(i)) == 1,
    ensures
        ({
            let (after, held) = type_facts(ty, facts);
            let inside_held = type_facts(
                value,
                TypeFacts {
                    default: seq![],
                    optional: false,
                    nesting_format: None,
                    kind: FieldKind::Scalar,
                },
            ).1;
            &&& held == inside_held
            &&& after.kind matches FieldKind::Dict { key_ty, value_ty } && value_ty == inside_held && (
            args[0] matches ArgumentView::Of(key) ==> match key {
                TypeView::Path { text, .. } => key_ty == Some(text),
                TypeView::Other => key_ty is None,
            }) && (args[0] is Other ==> key_ty is None)
            &&& after.optional == facts.optional
            &&& facts.nesting_format is None ==> after.nesting_format is None && after.default
                == "{}"@
            &&& facts.nesting_format is Some ==> after.nesting_format == Some(
                NestingFormat::Section(NestingType::Dict),
            ) && after.default == facts.default
        }),
{
    lemma_list_is_no_dict(name);
    law_held_type_unwraps(
        ty->text,
        ty->segments,
        facts,
        TypeFacts {
            default: seq![],
            optional: false,
            nesting_format: None,
            kind: FieldKind::Scalar,
        },
    );
}

/// Of any other type with arguments, and of one that is no path, nothing is known.
pub proof fn law_other_type(ty: TypeView, facts: TypeFacts)
    requires
        ty matches TypeView::Path { segments, .. } ==> segments.len() == 0 || ({
            let segment = segments.last();
            &&& !(segment.arguments is Absent)
            &&& segment.ident != "Option"@
            &&& !is_list_name(segment.ident)
            &&& !is_map_name(segment.ident)
        }),
    ensures
        type_facts(ty, facts) == (facts, None::<Seq<char>>),
{
}

/// The text of a type is that of its path.
pub proof fn law_type_text(text: Seq<char>, segments: Seq<SegmentView>)
    ensures
        type_text(TypeView::Path { text, segments }) == Some(text),
        type_text(TypeView::Other) is None,
{
}

/// An option, a list and a map of which no argument is known are still an option, a list and a map,
/// and hold nothing that is known.
pub proof fn law_type_without_arguments(ty: TypeView, segments: Seq<SegmentView>, facts: TypeFacts)
    requires
        ty matches TypeView::Path { segments: given, .. } && given == segments,
        segments.len() > 0,
        segments.last().arguments is Parenthesized || (segments.last().arguments
            matches ArgumentsView::AngleBracketed(args) && (forall|i: int|
            0 <= i < args.len() ==> #[trigger] args[i] is Other)),
    ensures
        ({
            let segment = segments.last();
            let (after, held) = type_facts(ty, facts);
            &&& held is None
            &&& segment.ident == "Option"@ ==> after == TypeFacts { optional: true, ..facts }
            &&& is_list_name(segment.ident) ==> {
                &&& after.kind is List
                &&& after.default == facts.default
                &&& after.optional == facts.optional
                &&& facts.nesting_format is None ==> after.nesting_format is None
                &&& facts.nesting_format is Some ==> after.nesting_format == Some(
                    NestingFormat::Section(NestingType::List),
                )
            }
            &&& is_map_name(segment.ident) ==> {
                &&& segment.arguments is AngleBracketed ==> after.kind == FieldKind::Dict {
                    key_ty: None::<Seq<char>>,
                    value_ty: None,
                }
                &&& segment.arguments is Parenthesized ==> after.kind == facts.kind
                &&& after.optional == facts.optional
                &&& facts.nesting_format is None ==> after.nesting_format is None && after.default
                    == "{}"@
                &&& facts.nesting_format is Some ==> after.nesting_format == Some(
                    NestingFormat::Section(NestingType::Dict),
                ) && after.default == facts.default
            }
        }),
{
    lemma_list_is_no_dict(segments.last().ident);
    if let ArgumentsView::AngleBracketed(args) = segments.last().arguments {
        if args.len() > 0 {
            law_value_index(types_among(args));
            assert(args[0] is Other);
            assert(args[value_index(types_among(args))] is Other);
        }
    }
}

} // verus!

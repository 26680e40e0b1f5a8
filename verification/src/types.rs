//! What the type of a field says of its example.

use vstd::prelude::*;

use crate::ast::{segment_view, ArgumentView, ArgumentsView, SegmentView, TypeView};
use crate::ast::{GenericArgument, PathArguments, TypeExpr};
use crate::attrs::{NestingFormat, NestingType};
use crate::text::same_text;

verus! {

/// What a field holds. Texts are of type `S`.
#[derive(Debug)]
pub enum FieldKind<S> {
    /// One value.
    Scalar,
    /// A list of values.
    List,
    /// A map between these types.
    Dict { key_ty: Option<S>, value_ty: Option<S> },
}

impl DeepView for FieldKind<String> {
    type V = FieldKind<Seq<char>>;

    open spec fn deep_view(&self) -> FieldKind<Seq<char>> {
        match *self {
            FieldKind::Scalar => FieldKind::Scalar,
            FieldKind::List => FieldKind::List,
            FieldKind::Dict { key_ty, value_ty } => FieldKind::Dict {
                key_ty: key_ty.deep_view(),
                value_ty: value_ty.deep_view(),
            },
        }
    }
}

/// The name of an unsigned integer type.
pub open spec fn unsigned_type(ty: Seq<char>) -> bool {
    ty == "usize"@ || ty == "u8"@ || ty == "u16"@ || ty == "u32"@ || ty == "u64"@ || ty == "u128"@
}

/// The name of a signed integer type.
pub open spec fn signed_type(ty: Seq<char>) -> bool {
    ty == "isize"@ || ty == "i8"@ || ty == "i16"@ || ty == "i32"@ || ty == "i64"@ || ty == "i128"@
}

/// The name of a floating-point type.
pub open spec fn float_type(ty: Seq<char>) -> bool {
    ty == "f32"@ || ty == "f64"@
}

/// The name of a type of lists.
pub open spec fn list_type(ty: Seq<char>) -> bool {
    ty == "Vec"@ || ty == "HashSet"@ || ty == "BTreeSet"@
}

/// The name of a type of maps.
pub open spec fn dict_type(ty: Seq<char>) -> bool {
    ty == "HashMap"@ || ty == "BTreeMap"@
}

/// The example value for a type with this name.
pub open spec fn default_of(ty: Seq<char>) -> Seq<char> {
    if unsigned_type(ty) || signed_type(ty) {
        "0"@
    } else if float_type(ty) {
        "0.0"@
    } else {
        "\"\""@
    }
}

/// What is known of a field while its type is read.
pub struct TypeFacts {
    /// The example value.
    pub default: Seq<char>,
    /// The type is an option.
    pub optional: bool,
    /// How the field is nested.
    pub nesting_format: Option<NestingFormat>,
    /// What the field holds.
    pub kind: FieldKind<Seq<char>>,
}

/// What is known before a type is read.
pub open spec fn no_facts() -> TypeFacts {
    TypeFacts { default: seq![], optional: false, nesting_format: None, kind: FieldKind::Scalar }
}

/// The text of a type that is a path.
pub open spec fn type_text(ty: TypeView) -> Option<Seq<char>> {
    match ty {
        TypeView::Path { text, .. } => Some(text),
        TypeView::Other => None,
    }
}

/// An array with the example value of its items.
pub open spec fn array_of(item: Seq<char>) -> Seq<char> {
    if item.len() == 0 {
        "[  ]"@
    } else {
        "[ "@ + item + ", ]"@
    }
}

/// A nested field is a section of this kind.
pub open spec fn as_section(nesting_format: Option<NestingFormat>, nesting: NestingType) -> Option<
    NestingFormat,
> {
    match nesting_format {
        Some(_) => Some(NestingFormat::Section(nesting)),
        None => None,
    }
}

/// Which arguments are types.
pub open spec fn types_among(args: Seq<ArgumentView>) -> Seq<bool> {
    args.map_values(|arg: ArgumentView| arg is Of)
}

/// How many arguments are types.
pub open spec fn type_count(types: Seq<bool>) -> nat
    decreases types.len(),
{
    if types.len() == 0 {
        0
    } else if types.last() {
        type_count(types.drop_last()) + 1
    } else {
        type_count(types.drop_last())
    }
}

/// The place of the type of the values among the arguments of a map: the second type, behind that of
/// the keys, or the last argument if there are fewer types.
pub open spec fn value_index(types: Seq<bool>) -> int
    decreases types.len(),
{
    if types.len() > 0 && type_count(types.drop_last()) >= 2 {
        value_index(types.drop_last())
    } else {
        types.len() - 1
    }
}

/// The type of the values is the second type among the arguments of a map, if there are two.
pub proof fn law_value_index(types: Seq<bool>)
    requires
        types.len() > 0,
    ensures
        0 <= value_index(types) < types.len(),
        if type_count(types) >= 2 {
            types[value_index(types)] && type_count(types.take(value_index(types))) == 1
        } else {
            value_index(types) == types.len() - 1
        },
    decreases types.len(),
{
    let init = types.drop_last();
    if type_count(init) >= 2 {
        law_value_index(init);
        assert(init.take(value_index(init)) =~= types.take(value_index(init)));
    } else {
        assert(types.take(types.len() - 1) =~= init);
    }
}

/// More arguments have no fewer types.
proof fn lemma_type_count_grows(types: Seq<bool>, n: int)
    requires
        0 <= n <= types.len(),
    ensures
        type_count(types.take(n)) <= type_count(types),
    decreases types.len(),
{
    if n < types.len() {
        assert(types.drop_last().take(n) =~= types.take(n));
        lemma_type_count_grows(types.drop_last(), n);
    } else {
        assert(types.take(n) =~= types);
    }
}

/// The second type, or the last argument behind fewer than two types, is that of the values.
proof fn lemma_value_index(types: Seq<bool>, i: int)
    requires
        0 <= i < types.len(),
        type_count(types.take(i)) < 2,
        i == types.len() - 1 || (types[i] && type_count(types.take(i)) == 1),
    ensures
        value_index(types) == i,
    decreases types.len(),
{
    let init = types.drop_last();
    if i < types.len() - 1 {
        let now = types.take(i + 1);
        assert(now.drop_last() =~= types.take(i));
        assert(init.take(i + 1) =~= now);
        assert(init.take(i) =~= types.take(i));
        lemma_type_count_grows(init, i + 1);
        lemma_value_index(init, i);
    } else {
        assert(types.take(i) =~= init);
    }
}

/// What is known of a field after its type was read, and the text of the type of what it holds:
/// the type itself, or that inside of options and lists, or the type of the values of maps. The
/// last segment of its path decides.
pub open spec fn type_facts(ty: TypeView, facts: TypeFacts) -> (TypeFacts, Option<Seq<char>>)
    decreases ty,
{
    match ty {
        TypeView::Path { text, segments } => if segments.len() == 0 {
            (facts, None)
        } else {
            let segment = segments[segments.len() - 1];
            match segment.arguments {
                ArgumentsView::Absent => (
                    TypeFacts { default: default_of(segment.ident), ..facts },
                    Some(text),
                ),
                ArgumentsView::AngleBracketed(args) => if segment.ident == "Option"@ {
                    if args.len() > 0 {
                        match args[0] {
                            ArgumentView::Of(inner) => {
                                let read = type_facts(
                                    inner,
                                    TypeFacts { optional: false, ..facts },
                                );
                                (TypeFacts { optional: true, ..read.0 }, read.1)
                            },
                            ArgumentView::Other => (TypeFacts { optional: true, ..facts }, None),
                        }
                    } else {
                        (TypeFacts { optional: true, ..facts }, None)
                    }
                } else if list_type(segment.ident) {
                    let list = TypeFacts {
                        kind: FieldKind::List,
                        nesting_format: as_section(facts.nesting_format, NestingType::List),
                        ..facts
                    };
                    if args.len() > 0 {
                        match args[0] {
                            ArgumentView::Of(item) => {
                                let read = type_facts(item, no_facts());
                                (TypeFacts { default: array_of(read.0.default), ..list }, read.1)
                            },
                            ArgumentView::Other => (list, None),
                        }
                    } else {
                        (list, None)
                    }
                } else if dict_type(segment.ident) {
                    let key_ty = if args.len() > 0 {
                        match args[0] {
                            ArgumentView::Of(key) => type_text(key),
                            ArgumentView::Other => None,
                        }
                    } else {
                        None
                    };
                    let value_ty = if args.len() > 0 {
                        proof {
                            law_value_index(types_among(args));
                        }
                        match args[value_index(types_among(args))] {
                            ArgumentView::Of(value) => type_facts(value, no_facts()).1,
                            ArgumentView::Other => None,
                        }
                    } else {
                        None
                    };
                    let kind = FieldKind::Dict { key_ty, value_ty };
                    (TypeFacts { kind, ..as_dict(facts) }, value_ty)
                } else {
                    (facts, None)
                },
                ArgumentsView::Parenthesized => if segment.ident == "Option"@ {
                    (TypeFacts { optional: true, ..facts }, None)
                } else if list_type(segment.ident) {
                    (
                        TypeFacts {
                            kind: FieldKind::List,
                            nesting_format: as_section(facts.nesting_format, NestingType::List),
                            ..facts
                        },
                        None,
                    )
                } else if dict_type(segment.ident) {
                    (as_dict(facts), None)
                } else {
                    (facts, None)
                },
            }
        },
        TypeView::Other => (facts, None),
    }
}

/// What is known of a map: it is nested as a map, or else its example value is empty.
pub open spec fn as_dict(facts: TypeFacts) -> TypeFacts {
    match facts.nesting_format {
        Some(_) => TypeFacts {
            nesting_format: Some(NestingFormat::Section(NestingType::Dict)),
            ..facts
        },
        None => TypeFacts { default: "{}"@, ..facts },
    }
}

/// No name is that of a type of lists and of one of maps.
pub(crate) proof fn lemma_list_is_no_dict(ty: Seq<char>)
    ensures
        list_type(ty) ==> !dict_type(ty) && ty != "Option"@,
        dict_type(ty) ==> ty != "Option"@,
{
    reveal_strlit("Vec");
    reveal_strlit("HashSet");
    reveal_strlit("BTreeSet");
    reveal_strlit("HashMap");
    reveal_strlit("BTreeMap");
    reveal_strlit("Option");
    assert("HashSet"@[4] == 'S' && "HashMap"@[4] == 'M');
    assert("BTreeSet"@[5] == 'S' && "BTreeMap"@[5] == 'M');
    assert("Option"@[0] == 'O');
    assert("Vec"@[0] == 'V' && "HashSet"@[0] == 'H' && "BTreeSet"@[0] == 'B' && "HashMap"@[0] == 'H'
        && "BTreeMap"@[0] == 'B');
}

/// The type of what a field holds depends on the type of the field alone.
pub proof fn law_held_type_of_type_alone(ty: TypeView, a: TypeFacts, b: TypeFacts)
    ensures
        type_facts(ty, a).1 == type_facts(ty, b).1,
    decreases ty,
{
    if let TypeView::Path { segments, .. } = ty {
        if segments.len() > 0 {
            if let ArgumentsView::AngleBracketed(args) = segments[segments.len() - 1].arguments {
                if args.len() > 0 {
                    if let ArgumentView::Of(inner) = args[0] {
                        law_held_type_of_type_alone(
                            inner,
                            TypeFacts { optional: false, ..a },
                            TypeFacts { optional: false, ..b },
                        );
                    }
                }
            }
        }
    }
}

/// A field of a type without arguments holds the type. One of an option or a list holds what its
/// first argument holds. One of a map holds what the second type among its arguments holds, the type
/// of the values, whatever arguments stand before and behind it.
pub proof fn law_held_type_unwraps(
    text: Seq<char>,
    segments: Seq<SegmentView>,
    a: TypeFacts,
    b: TypeFacts,
)
    requires
        segments.len() > 0,
    ensures
        ({
            let segment = segments.last();
            let held = type_facts(TypeView::Path { text, segments }, a).1;
            match segment.arguments {
                ArgumentsView::Absent => held == Some(text),
                ArgumentsView::AngleBracketed(args) => {
                    &&& args.len() > 0 && (segment.ident == "Option"@ || list_type(segment.ident))
                        ==> (args[0] matches ArgumentView::Of(inner) ==> held == type_facts(
                        inner,
                        b,
                    ).1)
                    &&& dict_type(segment.ident) ==> forall|i: int|
                        #![trigger args[i]]
                        0 <= i < args.len() && type_count(types_among(args).take(i)) == 1 ==> (
                        args[i] matches ArgumentView::Of(value) ==> held == type_facts(value, b).1)
                },
                ArgumentsView::Parenthesized => held is None,
            }
        }),
{
    lemma_list_is_no_dict(segments.last().ident);
    if let ArgumentsView::AngleBracketed(args) = segments.last().arguments {
        if args.len() > 0 {
            if let ArgumentView::Of(inner) = args[0] {
                law_held_type_of_type_alone(inner, TypeFacts { optional: false, ..a }, b);
                law_held_type_of_type_alone(inner, no_facts(), b);
            }
        }
        assert forall|i: int|
            #![trigger args[i]]
            0 <= i < args.len() && type_count(types_among(args).take(i)) == 1 && dict_type(
                segments.last().ident,
            ) implies (args[i] matches ArgumentView::Of(value) ==> type_facts(
            TypeView::Path { text, segments },
            a,
        ).1 == type_facts(value, b).1) by {
            if let ArgumentView::Of(value) = args[i] {
                lemma_value_index(types_among(args), i);
                law_held_type_of_type_alone(value, no_facts(), b);
            }
        }
    }
}

/// Tells whether a name is that of an unsigned integer type.
pub fn is_unsigned_type(ty: &str) -> (r: bool)
    ensures
        r == unsigned_type(ty@),
{
    same_text(ty, "usize") || same_text(ty, "u8") || same_text(ty, "u16") || same_text(ty, "u32")
        || same_text(ty, "u64") || same_text(ty, "u128")
}

/// Tells whether a name is that of a signed integer type.
pub fn is_signed_type(ty: &str) -> (r: bool)
    ensures
        r == signed_type(ty@),
{
    same_text(ty, "isize") || same_text(ty, "i8") || same_text(ty, "i16") || same_text(ty, "i32")
        || same_text(ty, "i64") || same_text(ty, "i128")
}

/// Tells whether a name is that of a floating-point type.
pub fn is_float_type(ty: &str) -> (r: bool)
    ensures
        r == float_type(ty@),
{
    same_text(ty, "f32") || same_text(ty, "f64")
}

/// The example value for a type with this name.
pub fn default_value(ty: String) -> (r: String)
    ensures
        r@ == default_of(ty@),
{
    if is_unsigned_type(ty.as_str()) || is_signed_type(ty.as_str()) {
        "0".to_owned()
    } else if is_float_type(ty.as_str()) {
        "0.0".to_owned()
    } else {
        "\"\"".to_owned()
    }
}

/// The text of a type that is a path.
pub fn type_to_string(ty: &TypeExpr) -> (r: Option<String>)
    ensures
        r.deep_view() == type_text(ty.deep_view()),
{
    match ty {
        TypeExpr::Path(path) => Some(path.text.clone()),
        TypeExpr::Other => None,
    }
}

/// The place of the type of the values among the arguments of a map.
fn value_at(list: &Vec<GenericArgument>) -> (r: usize)
    requires
        list@.len() > 0,
    ensures
        r == value_index(list@.map_values(|arg: GenericArgument| arg is Of)),
        r < list@.len(),
{
    let ghost types = list@.map_values(|arg: GenericArgument| arg is Of);
    let last: usize = list.len() - 1;
    let mut key_seen: bool = false;
    let mut i: usize = 0;
    while i < last
        invariant
            i <= last,
            last + 1 == list@.len(),
            types == list@.map_values(|arg: GenericArgument| arg is Of),
            type_count(types.take(i as int)) == if key_seen {
                1nat
            } else {
                0nat
            },
        decreases last - i,
    {
        proof {
            assert(types.take(i + 1).drop_last() =~= types.take(i as int));
        }
        if let GenericArgument::Of(_) = &list[i] {
            if key_seen {
                proof {
                    lemma_value_index(types, i as int);
                }
                return i;
            }
            key_seen = true;
        }
        i += 1;
    }
    proof {
        lemma_value_index(types, last as int);
    }
    last
}

/// Reads the type of a field, and returns the text of the type of what the field holds: the type
/// itself, or that inside of options and lists, or the type of the values of maps.
pub fn parse_type(
    ty: &TypeExpr,
    default: &mut String,
    optional: &mut bool,
    nesting_format: &mut Option<NestingFormat>,
    kind: &mut FieldKind<String>,
) -> (r: Option<String>)
    ensures
        ({
            let read = type_facts(
                ty.deep_view(),
                TypeFacts {
                    default: old(default)@,
                    optional: *old(optional),
                    nesting_format: *old(nesting_format),
                    kind: old(kind).deep_view(),
                },
            );
            &&& read.0.default == final(default)@
            &&& read.0.optional == *final(optional)
            &&& read.0.nesting_format == *final(nesting_format)
            &&& read.0.kind == final(kind).deep_view()
            &&& read.1 == r.deep_view()
        }),
    decreases ty,
{
    let TypeExpr::Path(path) = ty else {
        return None;
    };
    if path.segments.len() == 0 {
        return None;
    }
    let segment = &path.segments[path.segments.len() - 1];
    let ident = segment.ident.as_str();
    let args: Option<&Vec<GenericArgument>> = match &segment.arguments {
        PathArguments::Absent => {
            *default = default_value(segment.ident.clone());
            return Some(path.text.clone());
        },
        PathArguments::AngleBracketed(list) => Some(list),
        PathArguments::Parenthesized => None,
    };
    if same_text(ident, "Option") {
        *optional = true;
        if let Some(list) = args {
            if list.len() > 0 {
                if let GenericArgument::Of(inner) = &list[0] {
                    let mut nested: bool = false;
                    return parse_type(inner, default, &mut nested, nesting_format, kind);
                }
            }
        }
        None
    } else if same_text(ident, "Vec") || same_text(ident, "HashSet") || same_text(
        ident,
        "BTreeSet",
    ) {
        *kind = FieldKind::List;
        if nesting_format.is_some() {
            *nesting_format = Some(NestingFormat::Section(NestingType::List));
        }
        if let Some(list) = args {
            if list.len() > 0 {
                if let GenericArgument::Of(item) = &list[0] {
                    let mut item_default = String::new();
                    let mut item_optional: bool = false;
                    let mut item_nesting: Option<NestingFormat> = None;
                    let mut item_kind: FieldKind<String> = FieldKind::Scalar;
                    let item_ty = parse_type(
                        item,
                        &mut item_default,
                        &mut item_optional,
                        &mut item_nesting,
                        &mut item_kind,
                    );
                    *default = if item_default.as_str().is_empty() {
                        "[  ]".to_owned()
                    } else {
                        "[ ".to_owned().concat(item_default.as_str()).concat(", ]")
                    };
                    return item_ty;
                }
            }
        }
        None
    } else if same_text(ident, "HashMap") || same_text(ident, "BTreeMap") {
        let mut value_ty: Option<String> = None;
        if let Some(list) = args {
            let mut key_ty: Option<String> = None;
            if list.len() > 0 {
                if let GenericArgument::Of(key) = &list[0] {
                    key_ty = type_to_string(key);
                }
                let at: usize = value_at(list);
                proof {
                    if let ArgumentsView::AngleBracketed(views) = segment_view(*segment).arguments {
                        assert(types_among(views) =~= list@.map_values(
                            |arg: GenericArgument| arg is Of,
                        ));
                    }
                }
                if let GenericArgument::Of(value) = &list[at] {
                    let mut value_default = String::new();
                    let mut value_optional: bool = false;
                    let mut value_nesting: Option<NestingFormat> = None;
                    let mut value_kind: FieldKind<String> = FieldKind::Scalar;
                    value_ty = parse_type(
                        value,
                        &mut value_default,
                        &mut value_optional,
                        &mut value_nesting,
                        &mut value_kind,
                    );
                }
            }
            *kind = FieldKind::Dict { key_ty, value_ty: value_ty.clone() };
        }
        if nesting_format.is_none() {
            *default = "{}".to_owned();
        } else {
            *nesting_format = Some(NestingFormat::Section(NestingType::Dict));
        }
        value_ty
    } else {
        None
    }
}

} // verus!

//! The parts of an item that an example is derived from.

use vstd::prelude::*;

verus! {

/// An item that an example is derived for.
pub struct Item {
    /// The name of the item.
    pub ident: String,
    /// The attributes of the item.
    pub attrs: Vec<Attr>,
    /// What the item consists of.
    pub data: ItemData,
}

/// What an item consists of.
pub enum ItemData {
    /// The fields of a struct with named fields.
    NamedFields(Vec<ItemField>),
    /// A struct without named fields.
    OtherStruct,
    /// No struct.
    Other,
}

/// A field of a struct.
pub struct ItemField {
    /// The name of the field.
    pub ident: Option<String>,
    /// The attributes of the field.
    pub attrs: Vec<Attr>,
    /// The type of the field.
    pub ty: TypeExpr,
}

/// An attribute.
pub struct Attr {
    /// The attribute stands in front of what it is for.
    pub outer: bool,
    /// What the attribute says.
    pub meta: Meta,
}

/// What an attribute says.
pub enum Meta {
    /// A path alone.
    Path,
    /// A path, given by its segments, and a value: the text of a string literal, or another.
    NameValue { path: Vec<String>, value: Option<String> },
    /// A path, given by its segments, and the text of the tokens in its brackets.
    List { path: Vec<String>, tokens: String },
}

/// A type.
pub enum TypeExpr {
    /// A path.
    Path(TypePath),
    /// Another form of type.
    Other,
}

/// A path that names a type.
pub struct TypePath {
    /// The text of the path.
    pub text: String,
    /// The segments of the path.
    pub segments: Vec<PathSegment>,
}

/// A segment of a path.
pub struct PathSegment {
    /// The name of the segment.
    pub ident: String,
    /// The arguments behind the name.
    pub arguments: PathArguments,
}

/// The arguments of a segment of a path.
pub enum PathArguments {
    /// No arguments.
    Absent,
    /// Arguments in angle brackets.
    AngleBracketed(Vec<GenericArgument>),
    /// Arguments in round brackets.
    Parenthesized,
}

/// An argument in angle brackets.
pub enum GenericArgument {
    /// A type.
    Of(TypeExpr),
    /// Another form of argument.
    Other,
}

/// The content of an item.
pub struct ItemView {
    pub ident: Seq<char>,
    pub attrs: Seq<AttrView>,
    pub data: DataView,
}

/// What the content of an item consists of.
pub enum DataView {
    NamedFields(Seq<FieldView>),
    OtherStruct,
    Other,
}

/// The content of a field.
pub struct FieldView {
    pub ident: Option<Seq<char>>,
    pub attrs: Seq<AttrView>,
    pub ty: TypeView,
}

/// The content of an attribute.
pub struct AttrView {
    pub outer: bool,
    pub meta: MetaView,
}

/// What the content of an attribute says.
pub enum MetaView {
    Path,
    NameValue { path: Seq<Seq<char>>, value: Option<Seq<char>> },
    List { path: Seq<Seq<char>>, tokens: Seq<char> },
}

/// The content of a type.
pub enum TypeView {
    Path { text: Seq<char>, segments: Seq<SegmentView> },
    Other,
}

/// The content of a segment of a path.
pub struct SegmentView {
    pub ident: Seq<char>,
    pub arguments: ArgumentsView,
}

/// The content of the arguments of a segment of a path.
pub enum ArgumentsView {
    Absent,
    AngleBracketed(Seq<ArgumentView>),
    Parenthesized,
}

/// The content of an argument in angle brackets.
pub enum ArgumentView {
    Of(TypeView),
    Other,
}

impl DeepView for Item {
    type V = ItemView;

    open spec fn deep_view(&self) -> ItemView {
        ItemView {
            ident: self.ident@,
            attrs: self.attrs.deep_view(),
            data: self.data.deep_view(),
        }
    }
}

impl DeepView for ItemData {
    type V = DataView;

    open spec fn deep_view(&self) -> DataView {
        match *self {
            ItemData::NamedFields(fields) => DataView::NamedFields(fields.deep_view()),
            ItemData::OtherStruct => DataView::OtherStruct,
            ItemData::Other => DataView::Other,
        }
    }
}

impl DeepView for ItemField {
    type V = FieldView;

    open spec fn deep_view(&self) -> FieldView {
        FieldView {
            ident: self.ident.deep_view(),
            attrs: self.attrs.deep_view(),
            ty: self.ty.deep_view(),
        }
    }
}

impl DeepView for Attr {
    type V = AttrView;

    open spec fn deep_view(&self) -> AttrView {
        AttrView { outer: self.outer, meta: self.meta.deep_view() }
    }
}

impl DeepView for Meta {
    type V = MetaView;

    open spec fn deep_view(&self) -> MetaView {
        match *self {
            Meta::Path => MetaView::Path,
            Meta::NameValue { path, value } => {
                MetaView::NameValue { path: path.deep_view(), value: value.deep_view() }
            },
            Meta::List { path, tokens } => {
                MetaView::List { path: path.deep_view(), tokens: tokens@ }
            },
        }
    }
}

/// The content of a type.
pub open spec fn type_view(ty: TypeExpr) -> TypeView
    decreases ty,
{
    match ty {
        TypeExpr::Path(path) => TypeView::Path {
            text: path.text@,
            segments: Seq::new(
                path.segments@.len(),
                |i: int|
                    if 0 <= i < path.segments@.len() {
                        segment_view(path.segments@[i])
                    } else {
                        arbitrary()
                    },
            ),
        },
        TypeExpr::Other => TypeView::Other,
    }
}

/// The content of a segment of a path.
pub open spec fn segment_view(segment: PathSegment) -> SegmentView
    decreases segment,
{
    SegmentView {
        ident: segment.ident@,
        arguments: match segment.arguments {
            PathArguments::Absent => ArgumentsView::Absent,
            PathArguments::AngleBracketed(list) => ArgumentsView::AngleBracketed(
                Seq::new(
                    list@.len(),
                    |i: int|
                        if 0 <= i < list@.len() {
                            match list@[i] {
                                GenericArgument::Of(arg) => ArgumentView::Of(type_view(arg)),
                                GenericArgument::Other => ArgumentView::Other,
                            }
                        } else {
                            ArgumentView::Other
                        },
                ),
            ),
            PathArguments::Parenthesized => ArgumentsView::Parenthesized,
        },
    }
}

impl DeepView for TypeExpr {
    type V = TypeView;

    open spec fn deep_view(&self) -> TypeView {
        type_view(*self)
    }
}

} // verus!

//! Reading items from tokens.

use quote::ToTokens;
use vstd::prelude::*;

use crate::ast::{Attr, AttrView, DataView, FieldView, GenericArgument, Item, ItemData, ItemField};
use crate::ast::{ItemView, Meta, PathArguments, PathSegment, TypeExpr, TypePath, TypeView};

verus! {

/// A stream of tokens.
#[verifier::external_type_specification]
#[verifier::external_body]
pub struct ExTokenStream(proc_macro2::TokenStream);

/// Why tokens are no item.
#[verifier::external_type_specification]
#[verifier::external_body]
pub struct ExSyntaxError(syn::Error);

/// An attribute as the parser gives it.
#[verifier::external_type_specification]
#[verifier::external_body]
pub struct ExAttribute(syn::Attribute);

/// A type as the parser gives it.
#[verifier::external_type_specification]
#[verifier::external_body]
pub struct ExType(syn::Type);

/// An item whose attributes and types are as the parser gives them.
pub struct RawItem {
    /// The name of the item.
    pub ident: String,
    /// The attributes of the item.
    pub attrs: Vec<syn::Attribute>,
    /// What the item consists of.
    pub data: RawData,
}

/// What an item consists of.
pub enum RawData {
    /// The fields of a struct with named fields.
    NamedFields(Vec<RawField>),
    /// A struct without named fields.
    OtherStruct,
    /// No struct.
    Other,
}

/// A field of a struct.
pub struct RawField {
    /// The name of the field.
    pub ident: Option<String>,
    /// The attributes of the field.
    pub attrs: Vec<syn::Attribute>,
    /// The type of the field.
    pub ty: syn::Type,
}

/// The content of an item whose attributes and types are as the parser gives them.
pub struct RawItemView {
    pub ident: Seq<char>,
    pub attrs: Seq<syn::Attribute>,
    pub data: RawDataView,
}

/// What the content of an item consists of.
pub enum RawDataView {
    NamedFields(Seq<RawFieldView>),
    OtherStruct,
    Other,
}

/// The content of a field.
pub struct RawFieldView {
    pub ident: Option<Seq<char>>,
    pub attrs: Seq<syn::Attribute>,
    pub ty: syn::Type,
}

impl View for RawItem {
    type V = RawItemView;

    open spec fn view(&self) -> RawItemView {
        RawItemView { ident: self.ident@, attrs: self.attrs@, data: self.data@ }
    }
}

impl View for RawData {
    type V = RawDataView;

    open spec fn view(&self) -> RawDataView {
        match *self {
            RawData::NamedFields(fields) => RawDataView::NamedFields(
                fields@.map_values(|field: RawField| field@),
            ),
            RawData::OtherStruct => RawDataView::OtherStruct,
            RawData::Other => RawDataView::Other,
        }
    }
}

impl View for RawField {
    type V = RawFieldView;

    open spec fn view(&self) -> RawFieldView {
        RawFieldView { ident: self.ident.deep_view(), attrs: self.attrs@, ty: self.ty }
    }
}

/// What `syn::parse2` reads from a stream of tokens, if it is an item that can have a derive, or else
/// the errors that reading it can end with.
pub uninterp spec fn parsed_item(stream: proc_macro2::TokenStream) -> Result<
    RawItemView,
    Set<syn::Error>,
>;

/// What an attribute says, as the parser gives it.
pub uninterp spec fn parsed_attr(attr: syn::Attribute) -> AttrView;

/// What a type consists of, as the parser gives it.
pub uninterp spec fn parsed_type(ty: syn::Type) -> TypeView;

/// What the attributes of a list say.
pub open spec fn attrs_of(attrs: Seq<syn::Attribute>) -> Seq<AttrView> {
    attrs.map_values(|attr: syn::Attribute| parsed_attr(attr))
}

/// The content of a field.
pub open spec fn raw_field(field: RawFieldView) -> FieldView {
    FieldView {
        ident: field.ident,
        attrs: attrs_of(field.attrs),
        ty: parsed_type(field.ty),
    }
}

/// The content of an item.
pub open spec fn item_of(raw: RawItemView) -> ItemView {
    ItemView {
        ident: raw.ident,
        attrs: attrs_of(raw.attrs),
        data: match raw.data {
            RawDataView::NamedFields(fields) => DataView::NamedFields(
                fields.map_values(|field: RawFieldView| raw_field(field)),
            ),
            RawDataView::OtherStruct => DataView::OtherStruct,
            RawDataView::Other => DataView::Other,
        },
    }
}

/// Calls `syn::parse2`, which reads a `syn::DeriveInput` from a stream of tokens, and takes it
/// apart: its name, its attributes, and the names, attributes and types of its named fields.
///
/// The contract says that all of it depends on the stream alone, and so does whether there is an
/// error. It does not say which streams are items. Of an error it says that reading this stream can
/// end with it: where it points to depends on the compiler too.
#[verifier::external_body]
fn parse_item(stream: proc_macro2::TokenStream) -> (r: Result<RawItem, syn::Error>)
    ensures
        match r {
            Ok(raw) => parsed_item(stream) == Ok::<RawItemView, Set<syn::Error>>(raw@),
            Err(error) => parsed_item(stream) matches Err(errors) && errors.contains(error),
        },
{
    let input: syn::DeriveInput = syn::parse2(stream)?;
    let data = match input.data {
        syn::Data::Struct(data) => match data.fields {
            syn::Fields::Named(fields) => RawData::NamedFields(fields.named.into_iter().map(
                |field| RawField {
                    ident: field.ident.map(|ident| ident.to_string()),
                    attrs: field.attrs,
                    ty: field.ty,
                }).collect()),
            syn::Fields::Unnamed(_) | syn::Fields::Unit => RawData::OtherStruct,
        },
        syn::Data::Enum(_) | syn::Data::Union(_) => RawData::Other,
    };
    Ok(RawItem { ident: input.ident.to_string(), attrs: input.attrs, data })
}

/// Takes a `syn::Attribute` apart: its style, the segments of its path, the value of a string
/// literal behind an equals sign (`syn::LitStr::value`), and the text of the tokens in its
/// brackets (`proc_macro2::TokenStream::to_string`).
///
/// The contract says that all of it depends on the attribute alone.
#[verifier::external_body]
fn read_attr(attr: &syn::Attribute) -> (r: Attr)
    ensures
        r.deep_view() == parsed_attr(*attr),
{
    let path = attr.path().segments.iter().map(|segment| segment.ident.to_string()).collect();
    let meta = match &attr.meta {
        syn::Meta::Path(_) => Meta::Path,
        syn::Meta::NameValue(meta) => Meta::NameValue {
            path,
            value: match &meta.value {
                syn::Expr::Lit(syn::ExprLit { lit: syn::Lit::Str(text), .. }) => Some(text.value()),
                _ => None,
            },
        },
        syn::Meta::List(list) => Meta::List { path, tokens: list.tokens.to_string() },
    };
    Attr { outer: matches!(attr.style, syn::AttrStyle::Outer), meta }
}

/// Takes a `syn::Type` apart: the text of a path (`quote::ToTokens::to_token_stream`, then
/// `to_string`), and the names and the arguments of its segments. Types among the arguments are taken
/// apart in the same way.
///
/// The contract says that all of it depends on the type alone.
#[verifier::external_body]
fn read_type(ty: &syn::Type) -> (r: TypeExpr)
    ensures
        r.deep_view() == parsed_type(*ty),
{
    let syn::Type::Path(ty) = ty else { return TypeExpr::Other };
    let segments = ty.path.segments.iter().map(|segment| PathSegment {
        ident: segment.ident.to_string(),
        arguments: match &segment.arguments {
            syn::PathArguments::None => PathArguments::Absent,
            syn::PathArguments::AngleBracketed(list) => PathArguments::AngleBracketed(
                list.args.iter().map(|arg| match arg {
                    syn::GenericArgument::Type(ty) => GenericArgument::Of(read_type(ty)),
                    _ => GenericArgument::Other,
                }).collect()),
            syn::PathArguments::Parenthesized(_) => PathArguments::Parenthesized,
        },
    }).collect();
    TypeExpr::Path(TypePath { text: ty.path.to_token_stream().to_string(), segments })
}

/// Reads the attributes of a list.
fn read_attrs(attrs: &Vec<syn::Attribute>) -> (r: Vec<Attr>)
    ensures
        r.deep_view() == attrs_of(attrs@),
{
    let mut read: Vec<Attr> = Vec::new();
    let mut i: usize = 0;
    while i < attrs.len()
        invariant
            i <= attrs@.len(),
            read@.len() == i,
            forall|j: int| 0 <= j < i ==> (#[trigger] read@[j]).deep_view() == parsed_attr(attrs@[j]),
        decreases attrs.len() - i,
    {
        read.push(read_attr(&attrs[i]));
        i += 1;
    }
    proof {
        assert(read.deep_view() =~= attrs_of(attrs@));
    }
    read
}

/// Reads a field.
fn read_field(field: &RawField) -> (r: ItemField)
    ensures
        r.deep_view() == raw_field(field@),
{
    ItemField {
        ident: field.ident.clone(),
        attrs: read_attrs(&field.attrs),
        ty: read_type(&field.ty),
    }
}

/// Reads an item from a stream of tokens.
pub fn read_item(stream: proc_macro2::TokenStream) -> (r: Result<Item, syn::Error>)
    ensures
        match r {
            Ok(item) => parsed_item(stream) matches Ok(raw) && item.deep_view() == item_of(raw),
            Err(error) => parsed_item(stream) matches Err(errors) && errors.contains(error),
        },
{
    let raw = match parse_item(stream) {
        Ok(raw) => raw,
        Err(error) => {
            return Err(error);
        },
    };
    let data = match &raw.data {
        RawData::NamedFields(fields) => {
            let mut read: Vec<ItemField> = Vec::new();
            let mut i: usize = 0;
            while i < fields.len()
                invariant
                    i <= fields@.len(),
                    read@.len() == i,
                    forall|j: int|
                        0 <= j < i ==> (#[trigger] read@[j]).deep_view() == raw_field(fields@[j]@),
                decreases fields.len() - i,
            {
                read.push(read_field(&fields[i]));
                i += 1;
            }
            proof {
                let views = fields@.map_values(|field: RawField| field@);
                assert(read.deep_view() =~= views.map_values(
                    |field: RawFieldView| raw_field(field),
                ));
            }
            ItemData::NamedFields(read)
        },
        RawData::OtherStruct => ItemData::OtherStruct,
        RawData::Other => ItemData::Other,
    };
    let attrs = read_attrs(&raw.attrs);
    Ok(Item { ident: raw.ident, attrs, data })
}

} // verus!

//! Why no example can be derived.

use vstd::prelude::*;

verus! {

/// Why the derivation of an example is given up. Texts are of type `S`.
pub enum Abort<S> {
    /// The item is no struct.
    NotAStruct,
    /// A field has no name.
    UnnamedField,
    /// The rule of `rename_all` is unknown.
    UnsupportedRenameRule,
    /// The value of `nesting` is unknown.
    UnknownNesting,
    /// This attribute is unknown.
    NotAllowedAttribute(S),
    /// This field is a collection, which cannot be flattened.
    FlattenedCollection(S),
    /// The type of a nested field is not named.
    NestingWithoutType,
    /// A default value stands on the struct.
    DefaultValueOnStruct,
    /// A map that is not nested has keys that are no strings.
    MapKeyNotString,
    /// A map that is not nested has a default that is no literal.
    MapDefaultNotLiteral,
    /// The default of a map that is not nested is no inline table.
    NotInlineTable,
    /// An entry of an inline table has no value.
    EntryWithoutValue,
    /// The default of a list is no array.
    NotArray,
    /// The default of a string has no quotes.
    NotQuoted,
    /// The default of a boolean is none.
    NotBool,
    /// The default of an unsigned integer is none.
    NotUnsigned,
    /// The default of a signed integer is none.
    NotSigned,
    /// The default of a floating-point number is none.
    NotFloat,
}

impl DeepView for Abort<String> {
    type V = Abort<Seq<char>>;

    open spec fn deep_view(&self) -> Abort<Seq<char>> {
        match *self {
            Abort::NotAStruct => Abort::NotAStruct,
            Abort::UnnamedField => Abort::UnnamedField,
            Abort::UnsupportedRenameRule => Abort::UnsupportedRenameRule,
            Abort::UnknownNesting => Abort::UnknownNesting,
            Abort::NotAllowedAttribute(attribute) => Abort::NotAllowedAttribute(attribute@),
            Abort::FlattenedCollection(field) => Abort::FlattenedCollection(field@),
            Abort::NestingWithoutType => Abort::NestingWithoutType,
            Abort::DefaultValueOnStruct => Abort::DefaultValueOnStruct,
            Abort::MapKeyNotString => Abort::MapKeyNotString,
            Abort::MapDefaultNotLiteral => Abort::MapDefaultNotLiteral,
            Abort::NotInlineTable => Abort::NotInlineTable,
            Abort::EntryWithoutValue => Abort::EntryWithoutValue,
            Abort::NotArray => Abort::NotArray,
            Abort::NotQuoted => Abort::NotQuoted,
            Abort::NotBool => Abort::NotBool,
            Abort::NotUnsigned => Abort::NotUnsigned,
            Abort::NotSigned => Abort::NotSigned,
            Abort::NotFloat => Abort::NotFloat,
        }
    }
}

/// What of a struct or a field an abort points to. Places in lists are of type `I`.
pub enum Spot<I> {
    /// Nothing of it.
    Nowhere,
    /// All of it.
    Whole,
    /// Its name.
    Name,
    /// The attribute at this place.
    Attr(I),
    /// The tokens in the brackets of the attribute at this place.
    AttrTokens(I),
}

impl DeepView for Spot<usize> {
    type V = Spot<int>;

    open spec fn deep_view(&self) -> Spot<int> {
        match *self {
            Spot::Nowhere => Spot::Nowhere,
            Spot::Whole => Spot::Whole,
            Spot::Name => Spot::Name,
            Spot::Attr(i) => Spot::Attr(i as int),
            Spot::AttrTokens(i) => Spot::AttrTokens(i as int),
        }
    }
}

/// An abort and what it points to. Texts are of type `S`, places in lists of type `I`.
pub struct Fault<S, I> {
    /// Why the derivation is given up.
    pub abort: Abort<S>,
    /// The place of the field among the fields of the struct, unless it is about the struct.
    pub field: Option<I>,
    /// What of the struct or the field it points to.
    pub spot: Spot<I>,
}

impl DeepView for Fault<String, usize> {
    type V = Fault<Seq<char>, int>;

    open spec fn deep_view(&self) -> Fault<Seq<char>, int> {
        Fault {
            abort: self.abort.deep_view(),
            field: match self.field {
                Some(i) => Some(i as int),
                None => None,
            },
            spot: self.spot.deep_view(),
        }
    }
}

/// An abort because of the attribute at this place.
pub open spec fn in_attr(abort: Abort<Seq<char>>, i: int) -> Fault<Seq<char>, int> {
    let spot = if abort is UnsupportedRenameRule {
        Spot::AttrTokens(i)
    } else {
        Spot::Attr(i)
    };
    Fault { abort, field: None, spot }
}

/// An abort because of a field, as far as the place of the field does not matter.
pub open spec fn in_field(abort: Abort<Seq<char>>) -> Fault<Seq<char>, int> {
    let spot = match abort {
        Abort::FlattenedCollection(_) => Spot::Nowhere,
        Abort::NestingWithoutType | Abort::MapDefaultNotLiteral | Abort::DefaultValueOnStruct => {
            Spot::Name
        },
        _ => Spot::Whole,
    };
    Fault { abort, field: None, spot }
}

/// The fault of a field, which has this place.
pub open spec fn at_field(fault: Fault<Seq<char>, int>, i: int) -> Fault<Seq<char>, int> {
    Fault { field: Some(i), ..fault }
}

/// An attribute that is pointed to is one of so many.
pub open spec fn points_into(spot: Spot<int>, attrs: nat) -> bool {
    match spot {
        Spot::Attr(i) | Spot::AttrTokens(i) => 0 <= i < attrs,
        _ => true,
    }
}

/// A result with its texts as sequences of characters.
pub open spec fn outcome<T: DeepView, E: DeepView>(r: Result<T, E>) -> Result<T::V, E::V> {
    match r {
        Ok(value) => Ok(value.deep_view()),
        Err(abort) => Err(abort.deep_view()),
    }
}

/// What is said of an abort.
pub open spec fn message_of(abort: Abort<Seq<char>>) -> Seq<char> {
    match abort {
        Abort::NotAStruct => "TomlExample derive only use for struct"@,
        Abort::UnnamedField => "The field should has name"@,
        Abort::UnsupportedRenameRule => "unsupported rename rule"@,
        Abort::UnknownNesting => "please use prefix or section for nesting derive"@,
        Abort::NotAllowedAttribute(attribute) => attribute + " is not allowed attribute"@,
        Abort::FlattenedCollection(field) => {
            "Only structs and maps can be flattened! (But field `"@ + field + "` is a collection)"@
        },
        Abort::NestingWithoutType => "nesting only work on inner structure"@,
        Abort::DefaultValueOnStruct => "Setting a default value on a struct is not supported!"@,
        Abort::MapKeyNotString => {
            "non-nesting HashMap/BTreeMap TOML examples require String keys"@
        },
        Abort::MapDefaultNotLiteral => {
            "non-nesting HashMap/BTreeMap fields require a literal default"@
        },
        Abort::NotInlineTable => {
            "default value for non-nesting HashMap/BTreeMap fields must be an inline TOML table"@
        },
        Abort::EntryWithoutValue => "inline TOML table default entries must use `key = value`"@,
        Abort::NotArray => "default value for Vec/HashSet/BTreeSet fields must be a TOML array"@,
        Abort::NotQuoted => "default value for String fields must be quoted"@,
        Abort::NotBool => "default value for bool fields must be true or false"@,
        Abort::NotUnsigned => {
            "default value for unsigned integer fields must be an unsigned integer"@
        },
        Abort::NotSigned => "default value for signed integer fields must be a signed integer"@,
        Abort::NotFloat => "default value for float fields must be a float"@,
    }
}

impl Fault<String, usize> {
    /// An abort because of the attribute at this place.
    pub fn in_attr(abort: Abort<String>, i: usize) -> (r: Fault<String, usize>)
        ensures
            r.deep_view() == in_attr(abort.deep_view(), i as int),
    {
        let spot = if let Abort::UnsupportedRenameRule = abort {
            Spot::AttrTokens(i)
        } else {
            Spot::Attr(i)
        };
        Fault { abort, field: None, spot }
    }

    /// An abort because of a field, as far as the place of the field does not matter.
    pub fn in_field(abort: Abort<String>) -> (r: Fault<String, usize>)
        ensures
            r.deep_view() == in_field(abort.deep_view()),
    {
        let spot = match &abort {
            Abort::FlattenedCollection(_) => Spot::Nowhere,
            Abort::NestingWithoutType | Abort::MapDefaultNotLiteral | Abort::DefaultValueOnStruct => {
                Spot::Name
            },
            _ => Spot::Whole,
        };
        Fault { abort, field: None, spot }
    }

    /// The fault of a field, which has this place.
    pub fn at_field(self, i: usize) -> (r: Fault<String, usize>)
        ensures
            r.deep_view() == at_field(self.deep_view(), i as int),
    {
        Fault { abort: self.abort, field: Some(i), spot: self.spot }
    }
}

impl Abort<String> {
    /// What is said of this abort.
    pub fn message(&self) -> (r: String)
        ensures
            r@ == message_of(self.deep_view()),
    {
        match self {
            Abort::NotAStruct => "TomlExample derive only use for struct".to_owned(),
            Abort::UnnamedField => "The field should has name".to_owned(),
            Abort::UnsupportedRenameRule => "unsupported rename rule".to_owned(),
            Abort::UnknownNesting => "please use prefix or section for nesting derive".to_owned(),
            Abort::NotAllowedAttribute(attribute) => {
                attribute.clone().concat(" is not allowed attribute")
            },
            Abort::FlattenedCollection(field) => {
                "Only structs and maps can be flattened! (But field `".to_owned().concat(
                    field.as_str(),
                ).concat("` is a collection)")
            },
            Abort::NestingWithoutType => "nesting only work on inner structure".to_owned(),
            Abort::DefaultValueOnStruct => {
                "Setting a default value on a struct is not supported!".to_owned()
            },
            Abort::MapKeyNotString => {
                "non-nesting HashMap/BTreeMap TOML examples require String keys".to_owned()
            },
            Abort::MapDefaultNotLiteral => {
                "non-nesting HashMap/BTreeMap fields require a literal default".to_owned()
            },
            Abort::NotInlineTable => {
                "default value for non-nesting HashMap/BTreeMap fields must be an inline TOML table".to_owned()
            },
            Abort::EntryWithoutValue => {
                "inline TOML table default entries must use `key = value`".to_owned()
            },
            Abort::NotArray => {
                "default value for Vec/HashSet/BTreeSet fields must be a TOML array".to_owned()
            },
            Abort::NotQuoted => "default value for String fields must be quoted".to_owned(),
            Abort::NotBool => "default value for bool fields must be true or false".to_owned(),
            Abort::NotUnsigned => {
                "default value for unsigned integer fields must be an unsigned integer".to_owned()
            },
            Abort::NotSigned => {
                "default value for signed integer fields must be a signed integer".to_owned()
            },
            Abort::NotFloat => "default value for float fields must be a float".to_owned(),
        }
    }
}

} // verus!

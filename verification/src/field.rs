//! The fields of a struct, as far as their examples depend on them.

use vstd::prelude::*;

use crate::abort::{in_field, outcome, Abort, Fault};
use crate::ast::{FieldView, ItemField};
use crate::attrs::{parse_attrs, said_by, DefaultSource, NestingFormat, NestingType};
use crate::case::{renamed, RenameRule};
use crate::defaults::{has_own_example, law_own_example_fits, source_fits};
use crate::defaults::validate_default_source;
use crate::text::{law_replaced_has_none, replace, replaced, starts_at, trim_matches, trimmed_of};
use crate::types::{no_facts, parse_type, type_facts, FieldKind, TypeFacts};

verus! {

/// A field of a struct.
pub struct ParsedField {
    /// The lines of the documentation.
    pub docs: Vec<String>,
    /// Where the example value comes from.
    pub default: DefaultSource<String>,
    /// The example value is given by an attribute.
    pub explicit_default: bool,
    /// What the field holds.
    pub kind: FieldKind<String>,
    /// How the field is nested.
    pub nesting_format: Option<NestingFormat>,
    /// The field is left out.
    pub skip: bool,
    /// The type of the field is an enum.
    pub is_enum: bool,
    /// The field is merged into the struct.
    pub flatten: bool,
    /// The name of the field in the example.
    pub name: String,
    /// The field may be missing.
    pub optional: bool,
    /// The text of the type of what the field holds.
    pub ty: Option<String>,
}

/// The content of a field of a struct.
pub struct ParsedFieldView {
    pub docs: Seq<Seq<char>>,
    pub default: DefaultSource<Seq<char>>,
    pub explicit_default: bool,
    pub kind: FieldKind<Seq<char>>,
    pub nesting_format: Option<NestingFormat>,
    pub skip: bool,
    pub is_enum: bool,
    pub flatten: bool,
    pub name: Seq<char>,
    pub optional: bool,
    pub ty: Option<Seq<char>>,
}

impl DeepView for ParsedField {
    type V = ParsedFieldView;

    open spec fn deep_view(&self) -> ParsedFieldView {
        ParsedFieldView {
            docs: self.docs.deep_view(),
            default: self.default.deep_view(),
            explicit_default: self.explicit_default,
            kind: self.kind.deep_view(),
            nesting_format: self.nesting_format,
            skip: self.skip,
            is_enum: self.is_enum,
            flatten: self.flatten,
            name: self.name@,
            optional: self.optional,
            ty: self.ty.deep_view(),
        }
    }
}

/// The comment lines of a documentation.
pub open spec fn doc_lines(docs: Seq<Seq<char>>) -> Seq<char>
    decreases docs.len(),
{
    if docs.len() == 0 {
        seq![]
    } else {
        doc_lines(docs.drop_last()) + "#"@ + docs.last() + "\n"@
    }
}

/// The start of the expression for a label.
pub const LABEL_START: &'static str = "
                if label.is_empty() {
                    \"";

/// The middle of the expression for a label.
pub const LABEL_MIDDLE: &'static str = "\".to_string()
                } else {
                    label.to_string() + \".\" + \"";

/// The end of the expression for a label.
pub const LABEL_END: &'static str = "\"
                }
            ";

impl ParsedFieldView {
    /// A value was given for the field.
    pub open spec fn has_explicit_default_value(self) -> bool {
        self.explicit_default && self.default is DefaultValue
    }

    /// The key of the example entry of a map: the value given for the field, without its quotes
    /// and spaces and with hyphens for points, or else `example`.
    pub open spec fn default_key(self) -> Seq<char> {
        let key = match self.default {
            DefaultSource::DefaultValue(value) => replaced(
                replaced(trimmed_of(value, '"'), ' ', seq![]),
                '.',
                seq!['-'],
            ),
            _ => seq![],
        };
        if self.explicit_default && key.len() > 0 {
            key
        } else {
            "example"@
        }
    }

    /// What the field adds to the path of its section.
    pub open spec fn label_part(self) -> Seq<char> {
        match self.nesting_format {
            Some(NestingFormat::Section(NestingType::Dict)) => if self.flatten {
                self.default_key()
            } else {
                self.name + "."@ + self.default_key()
            },
            Some(NestingFormat::Prefix) => seq![],
            _ => if self.flatten {
                seq![]
            } else {
                self.name
            },
        }
    }

    /// The expression for the path of the section of the field.
    pub open spec fn label(self) -> Seq<char> {
        let part = self.label_part();
        if part.len() == 0 {
            "label"@
        } else {
            LABEL_START@ + part + LABEL_MIDDLE@ + part + LABEL_END@
        }
    }

    /// What stands before and after the path of the section of the field.
    pub open spec fn label_format(self) -> Result<(Seq<char>, Seq<char>), Abort<Seq<char>>> {
        match self.nesting_format {
            Some(NestingFormat::Section(NestingType::List)) => if self.flatten {
                Err(Abort::FlattenedCollection(self.name))
            } else {
                Ok(("[["@, "]]"@))
            },
            Some(NestingFormat::Section(NestingType::Dict)) => Ok(("["@, "]"@)),
            Some(NestingFormat::Prefix) => Ok((""@, ""@)),
            _ => if self.flatten {
                Ok((""@, ""@))
            } else {
                Ok(("["@, "]"@))
            },
        }
    }

    /// What stands in front of each line of the example of a nested field.
    pub open spec fn prefix(self) -> Seq<char> {
        let comment = if self.optional {
            "# "@
        } else {
            seq![]
        };
        if self.nesting_format == Some(NestingFormat::Prefix) {
            comment + self.name + "."@
        } else {
            comment
        }
    }
}

/// Where the example value of a field comes from, by its attributes, its type, and whether the
/// struct has a default.
pub open spec fn default_from(
    source: Option<DefaultSource<Seq<char>>>,
    facts: TypeFacts,
    ty: Option<Seq<char>>,
    struct_default: bool,
) -> DefaultSource<Seq<char>> {
    match source {
        Some(DefaultSource::DefaultFn(_)) => DefaultSource::DefaultFn(ty),
        Some(given) => given,
        None => if struct_default && !(facts.kind is Dict) {
            DefaultSource::DefaultFn(None)
        } else {
            DefaultSource::DefaultValue(facts.default)
        },
    }
}

/// The field of a struct, which has a default or not and a rule for the names of its fields.
pub open spec fn field_of(
    struct_default: bool,
    field: FieldView,
    rename_rule: RenameRule,
    serde: bool,
) -> Result<ParsedFieldView, Fault<Seq<char>, int>> {
    match said_by(field.attrs, serde) {
        Ok(meta) => {
            let (facts, ty) = type_facts(
                field.ty,
                TypeFacts { nesting_format: meta.nesting_format, ..no_facts() },
            );
            let default = default_from(meta.default_source, facts, ty, struct_default);
            match field.ident {
                Some(ident) => {
                    let parsed = ParsedFieldView {
                        docs: meta.docs,
                        default,
                        explicit_default: meta.default_source matches Some(
                            DefaultSource::DefaultValue(_),
                        ),
                        kind: facts.kind,
                        nesting_format: facts.nesting_format,
                        skip: meta.skip,
                        is_enum: meta.is_enum,
                        flatten: meta.flatten,
                        name: match meta.rename {
                            Some(name) => name,
                            None => renamed(rename_rule, ident),
                        },
                        optional: facts.optional && !meta.require,
                        ty,
                    };
                    match source_fits(default, facts.kind, ty) {
                        Err(abort) if facts.nesting_format is None => Err(in_field(abort)),
                        _ => Ok(parsed),
                    }
                },
                None => Err(in_field(Abort::UnnamedField)),
            }
        },
        Err(fault) => Err(fault),
    }
}

/// The key of the example entry of a map is a bare one: it is not empty and has no spaces and no
/// points.
pub proof fn law_default_key_is_bare(field: ParsedFieldView)
    ensures
        field.default_key().len() > 0,
        !field.default_key().contains(' '),
        !field.default_key().contains('.'),
{
    reveal_strlit("example");
    if let DefaultSource::DefaultValue(value) = field.default {
        let compact = replaced(trimmed_of(value, '"'), ' ', seq![]);
        law_replaced_has_none(trimmed_of(value, '"'), ' ', seq![]);
        assert(!seq!['-'].contains('.'));
        law_replaced_has_none(compact, '.', seq!['-']);
        lemma_replaced_keeps_out(compact, '.', seq!['-'], ' ');
    }
}

/// A character that neither a text nor what is put into it has does not come in.
proof fn lemma_replaced_keeps_out(s: Seq<char>, from: char, to: Seq<char>, c: char)
    requires
        !s.contains(c),
        !to.contains(c),
    ensures
        !replaced(s, from, to).contains(c),
    decreases s.len(),
{
    if s.len() > 0 {
        assert(s[s.len() - 1] == s.last());
        assert forall|i: int| 0 <= i < s.len() - 1 implies s.drop_last()[i] != c by {
            assert(s[i] != c);
        }
        lemma_replaced_keeps_out(s.drop_last(), from, to, c);
        let before = replaced(s.drop_last(), from, to);
        let added = if s.last() == from {
            to
        } else {
            seq![s.last()]
        };
        if (before + added).contains(c) {
            let i = choose|i: int| 0 <= i < (before + added).len() && (before + added)[i] == c;
            if i < before.len() {
                assert(before[i] == c);
            } else {
                assert(added[i - before.len()] == c);
            }
        }
    }
}

/// A field that is not nested has a default that was accepted for it.
pub proof fn law_unnested_default_fits(
    struct_default: bool,
    field: FieldView,
    rename_rule: RenameRule,
    serde: bool,
)
    ensures
        field_of(struct_default, field, rename_rule, serde) matches Ok(parsed) ==> (
        parsed.nesting_format is None ==> source_fits(
            parsed.default,
            parsed.kind,
            parsed.ty,
        ) is Ok),
{
}

/// A field without attributes needs none: the example value that its type gives it is accepted,
/// and its name is the one that the rule gives it.
pub proof fn law_field_without_attrs(field: FieldView, rename_rule: RenameRule, serde: bool)
    requires
        field.attrs.len() == 0,
        field.ident is Some,
        has_own_example(field.ty),
    ensures
        field_of(false, field, rename_rule, serde) matches Ok(parsed) && {
            &&& parsed.name == renamed(rename_rule, field.ident->0)
            &&& parsed.docs.len() == 0
            &&& !parsed.skip
            &&& parsed.nesting_format is None
            &&& parsed.default is DefaultValue
            &&& !parsed.explicit_default
        },
{
    law_own_example_fits(field.ty, false);
}

/// Each line of documentation is a comment, if none holds a line end itself: the lines start with
/// a number sign, and so does what follows each line end.
pub proof fn law_doc_lines_are_comments(docs: Seq<Seq<char>>)
    requires
        forall|i: int| 0 <= i < docs.len() ==> !(#[trigger] docs[i]).contains('\n'),
    ensures
        commented(doc_lines(docs), seq!['#']),
        docs.len() > 0 ==> doc_lines(docs).last() == '\n',
    decreases docs.len(),
{
    reveal_strlit("#");
    reveal_strlit("\n");
    if docs.len() > 0 {
        let init = docs.drop_last();
        let doc = docs.last();
        assert(docs[docs.len() - 1] == doc);
        assert forall|i: int| 0 <= i < init.len() implies !(#[trigger] init[i]).contains('\n') by {
            assert(init[i] == docs[i]);
        }
        law_doc_lines_are_comments(init);
        let before = doc_lines(init);
        let all = doc_lines(docs);
        assert(all[before.len() as int] == '#');
        assert forall|i: int|
            #![trigger all[i]]
            0 <= i < all.len() - 1 && all[i] == '\n' implies starts_at(all, i + 1, seq!['#']) by {
            if i < before.len() - 1 {
                assert(before[i] == '\n');
                assert(starts_at(before, i + 1, seq!['#']));
                assert(all[i + 1] == before[i + 1]);
            } else if i >= before.len() {
                assert(i > before.len());
                assert(doc[i - before.len() - 1] == '\n');
            }
            assert(all.subrange(i + 1, i + 2) =~= seq!['#']);
        }
        if before.len() > 0 {
            assert(before.subrange(0, 1)[0] == '#');
        }
        assert(all.subrange(0, 1) =~= seq!['#']);
    }
}

/// Each line of a text starts with `mark`: the first, and each behind a line end that is not the
/// last character.
pub open spec fn commented(s: Seq<char>, mark: Seq<char>) -> bool {
    &&& s.len() > 0 ==> starts_at(s, 0, mark)
    &&& forall|i: int| #![trigger s[i]] 0 <= i < s.len() - 1 && s[i] == '\n' ==> starts_at(s, i + 1, mark)
}

/// Adds the comment lines of a documentation to an example.
pub fn push_doc_string(example: &mut String, docs: &Vec<String>)
    ensures
        final(example)@ == old(example)@ + doc_lines(docs.deep_view()),
{
    let ghost before = example@;
    let ghost all = docs.deep_view();
    let mut i: usize = 0;
    proof {
        assert(before + doc_lines(all.take(0)) =~= before);
    }
    while i < docs.len()
        invariant
            i <= docs@.len(),
            all == docs.deep_view(),
            example@ == before + doc_lines(all.take(i as int)),
        decreases docs.len() - i,
    {
        proof {
            assert(all.take(i + 1).drop_last() =~= all.take(i as int));
        }
        example.append("#");
        example.append(docs[i].as_str());
        example.append("\n");
        proof {
            assert(example@ =~= before + doc_lines(all.take(i + 1)));
        }
        i += 1;
    }
    proof {
        assert(all.take(docs@.len() as int) =~= all);
    }
}

impl ParsedField {
    /// Adds the comment lines of the documentation to an example.
    pub fn push_doc_to_string(&self, s: &mut String)
        ensures
            final(s)@ == old(s)@ + doc_lines(self.deep_view().docs),
    {
        push_doc_string(s, &self.docs);
    }

    /// The key of the example entry of a map.
    pub fn default_key(&self) -> (r: String)
        ensures
            r@ == self.deep_view().default_key(),
    {
        proof {
            reveal_strlit("");
            reveal_strlit("-");
            assert(""@ =~= seq![]);
            assert("-"@ =~= seq!['-']);
        }
        if self.explicit_default {
            if let DefaultSource::DefaultValue(value) = &self.default {
                let compact = replace(trim_matches(value.as_str(), '"'), ' ', "");
                let key = replace(compact.as_str(), '.', "-");
                if !key.as_str().is_empty() {
                    return key;
                }
            }
        }
        "example".to_owned()
    }

    /// Tells whether a value was given for the field.
    pub fn has_explicit_default_value(&self) -> (r: bool)
        ensures
            r == self.deep_view().has_explicit_default_value(),
    {
        self.explicit_default && matches!(self.default, DefaultSource::DefaultValue(_))
    }

    /// The expression for the path of the section of the field.
    pub fn label(&self) -> (r: String)
        ensures
            r@ == self.deep_view().label(),
    {
        let part = match self.nesting_format {
            Some(NestingFormat::Section(NestingType::Dict)) => if self.flatten {
                self.default_key()
            } else {
                self.name.clone().concat(".").concat(self.default_key().as_str())
            },
            Some(NestingFormat::Prefix) => String::new(),
            _ => if self.flatten {
                String::new()
            } else {
                self.name.clone()
            },
        };
        if part.as_str().is_empty() {
            "label".to_owned()
        } else {
            LABEL_START.to_owned().concat(part.as_str()).concat(LABEL_MIDDLE).concat(
                part.as_str(),
            ).concat(LABEL_END)
        }
    }

    /// What stands before and after the path of the section of the field.
    pub fn label_format(&self) -> (r: Result<(&str, &str), Abort<String>>)
        ensures
            outcome(r) == self.deep_view().label_format(),
    {
        match self.nesting_format {
            Some(NestingFormat::Section(NestingType::List)) => if self.flatten {
                Err(Abort::FlattenedCollection(self.name.clone()))
            } else {
                Ok(("[[", "]]"))
            },
            Some(NestingFormat::Section(NestingType::Dict)) => Ok(("[", "]")),
            Some(NestingFormat::Prefix) => Ok(("", "")),
            _ => if self.flatten {
                Ok(("", ""))
            } else {
                Ok(("[", "]"))
            },
        }
    }

    /// What stands in front of each line of the example of a nested field.
    pub fn prefix(&self) -> (r: String)
        ensures
            r@ == self.deep_view().prefix(),
    {
        let comment = if self.optional {
            "# ".to_owned()
        } else {
            String::new()
        };
        if self.nesting_format == Some(NestingFormat::Prefix) {
            comment.concat(self.name.as_str()).concat(".")
        } else {
            comment
        }
    }
}

/// The field of a struct, which has this default and this rule for the names of its fields.
pub fn parse_field(
    struct_default: Option<&DefaultSource<String>>,
    field: &ItemField,
    rename_rule: RenameRule,
    serde: bool,
) -> (r: Result<ParsedField, Fault<String, usize>>)
    ensures
        outcome(r) == field_of(struct_default is Some, field.deep_view(), rename_rule, serde),
{
    let meta = match parse_attrs(&field.attrs, serde) {
        Ok(meta) => meta,
        Err(fault) => {
            return Err(fault);
        },
    };
    let mut default_value = String::new();
    let mut optional: bool = false;
    let mut nesting_format = meta.nesting_format;
    let mut kind: FieldKind<String> = FieldKind::Scalar;
    let ty = parse_type(
        &field.ty,
        &mut default_value,
        &mut optional,
        &mut nesting_format,
        &mut kind,
    );
    let explicit_default = matches!(meta.default_source, Some(DefaultSource::DefaultValue(_)));
    let default = match meta.default_source {
        Some(DefaultSource::DefaultFn(_)) => DefaultSource::DefaultFn(ty.clone()),
        Some(DefaultSource::SerdeDefaultFn(name)) => DefaultSource::SerdeDefaultFn(name),
        Some(DefaultSource::DefaultValue(value)) => DefaultSource::DefaultValue(value),
        None => if struct_default.is_some() && !matches!(kind, FieldKind::Dict { .. }) {
            DefaultSource::DefaultFn(None)
        } else {
            DefaultSource::DefaultValue(default_value)
        },
    };
    let Some(ident) = &field.ident else {
        return Err(Fault::in_field(Abort::UnnamedField));
    };
    let name = match meta.rename {
        Some(name) => name,
        None => rename_rule.apply_to_field(ident.as_str()),
    };
    if nesting_format.is_none() {
        let held = match &ty {
            Some(ty) => Some(ty.as_str()),
            None => None,
        };
        if let Err(abort) = validate_default_source(&default, &kind, held) {
            return Err(Fault::in_field(abort));
        }
    }
    Ok(
        ParsedField {
            docs: meta.docs,
            default,
            explicit_default,
            kind,
            nesting_format,
            skip: meta.skip,
            is_enum: meta.is_enum,
            flatten: meta.flatten,
            name,
            optional: optional && !meta.require,
            ty,
        },
    )
}

} // verus!

//! What the attributes of a struct or a field say.

use vstd::prelude::*;

use crate::abort::{in_attr, outcome, points_into, Abort, Fault};
use crate::ast::{Attr, AttrView, Meta, MetaView};
use crate::case::{rule_named, RenameRule};
use crate::enclosure::{pieces, split_unenclosed};
use crate::text::{cut_once, trimmed, trimmed_of};
use crate::text::{same_text, split_once, starts_with, trim, trim_matches};

verus! {

/// Where the example value of a field comes from. Texts are of type `S`.
#[derive(Debug)]
pub enum DefaultSource<S> {
    /// This value.
    DefaultValue(S),
    /// `Default::default` of this type.
    DefaultFn(Option<S>),
    /// The function of this name.
    SerdeDefaultFn(S),
}

impl DeepView for DefaultSource<String> {
    type V = DefaultSource<Seq<char>>;

    open spec fn deep_view(&self) -> DefaultSource<Seq<char>> {
        match *self {
            DefaultSource::DefaultValue(value) => DefaultSource::DefaultValue(value@),
            DefaultSource::DefaultFn(ty) => DefaultSource::DefaultFn(ty.deep_view()),
            DefaultSource::SerdeDefaultFn(name) => DefaultSource::SerdeDefaultFn(name@),
        }
    }
}

/// What a nested field is a collection of.
#[derive(Debug, Clone, Copy, PartialEq, Eq, Structural)]
pub enum NestingType {
    /// The field is no collection.
    Single,
    /// The field is a list.
    List,
    /// The field is a map.
    Dict,
}

/// How the example of a nested field is written.
#[derive(Debug, Clone, Copy, PartialEq, Eq, Structural)]
pub enum NestingFormat {
    /// Under a header of its own.
    Section(NestingType),
    /// With the name of the field in front of each line.
    Prefix,
}

impl DeepView for NestingFormat {
    type V = NestingFormat;

    open spec fn deep_view(&self) -> NestingFormat {
        *self
    }
}

/// What the attributes of a struct or a field say.
pub struct AttrMeta {
    /// The lines of the documentation.
    pub docs: Vec<String>,
    /// Where the example value comes from.
    pub default_source: Option<DefaultSource<String>>,
    /// How the field is nested.
    pub nesting_format: Option<NestingFormat>,
    /// The value of an optional field is given.
    pub require: bool,
    /// The field is left out.
    pub skip: bool,
    /// The type of the field is an enum.
    pub is_enum: bool,
    /// The field is merged into the struct.
    pub flatten: bool,
    /// The name of the field.
    pub rename: Option<String>,
    /// How the names of the fields are changed.
    pub rename_rule: RenameRule,
}

/// The content of what attributes say.
pub struct AttrMetaView {
    pub docs: Seq<Seq<char>>,
    pub default_source: Option<DefaultSource<Seq<char>>>,
    pub nesting_format: Option<NestingFormat>,
    pub require: bool,
    pub skip: bool,
    pub is_enum: bool,
    pub flatten: bool,
    pub rename: Option<Seq<char>>,
    pub rename_rule: RenameRule,
}

impl DeepView for AttrMeta {
    type V = AttrMetaView;

    open spec fn deep_view(&self) -> AttrMetaView {
        AttrMetaView {
            docs: self.docs.deep_view(),
            default_source: self.default_source.deep_view(),
            nesting_format: self.nesting_format,
            require: self.require,
            skip: self.skip,
            is_enum: self.is_enum,
            flatten: self.flatten,
            rename: self.rename.deep_view(),
            rename_rule: self.rename_rule,
        }
    }
}

/// What no attributes say.
pub open spec fn no_attrs() -> AttrMetaView {
    AttrMetaView {
        docs: seq![],
        default_source: None,
        nesting_format: None,
        require: false,
        skip: false,
        is_enum: false,
        flatten: false,
        rename: None,
        rename_rule: RenameRule::Unchanged,
    }
}

/// The text between quotes that stands behind an equals sign.
pub open spec fn unquoted(s: Seq<char>) -> Seq<char> {
    trimmed_of(trimmed(s), '"')
}

/// What is said after one more item of a `serde` attribute.
pub open spec fn with_serde_item(meta: AttrMetaView, item: Seq<char>) -> Result<
    AttrMetaView,
    Abort<Seq<char>>,
> {
    let value = cut_once(item, '=');
    let said = AttrMetaView {
        default_source: if "default"@.is_prefix_of(item) {
            match value {
                Some((_, name)) => Some(DefaultSource::SerdeDefaultFn(unquoted(name))),
                None => Some(DefaultSource::DefaultFn(None)),
            }
        } else {
            meta.default_source
        },
        skip: meta.skip || item == "skip_deserializing"@ || item == "skip"@,
        flatten: meta.flatten || item == "flatten"@,
        ..meta
    };
    match value {
        Some((_, name)) => if "rename_all"@.is_prefix_of(item) {
            match rule_named(unquoted(name)) {
                Some(rule) => Ok(AttrMetaView { rename_rule: rule, ..said }),
                None => Err(Abort::UnsupportedRenameRule),
            }
        } else if "rename"@.is_prefix_of(item) {
            Ok(AttrMetaView { rename: Some(unquoted(name)), ..said })
        } else {
            Ok(said)
        },
        None => Ok(said),
    }
}

/// The way of nesting that the value of `nesting` names.
pub open spec fn nesting_named(value: Option<Seq<char>>) -> Option<NestingFormat> {
    match value {
        Some(name) => if trimmed(name) == "prefix"@ {
            Some(NestingFormat::Prefix)
        } else if trimmed(name) == "section"@ {
            Some(NestingFormat::Section(NestingType::Single))
        } else {
            None
        },
        None => Some(NestingFormat::Section(NestingType::Single)),
    }
}

/// What is said after one more item of a `toml_example` attribute.
pub open spec fn with_example_item(meta: AttrMetaView, item: Seq<char>) -> Result<
    AttrMetaView,
    Abort<Seq<char>>,
> {
    let value = match cut_once(item, '=') {
        Some((_, value)) => Some(value),
        None => None,
    };
    if "default"@.is_prefix_of(item) {
        let source = match value {
            Some(value) => DefaultSource::DefaultValue(trimmed(value)),
            None => DefaultSource::DefaultFn(None),
        };
        Ok(AttrMetaView { default_source: Some(source), ..meta })
    } else if "nesting"@.is_prefix_of(item) {
        match nesting_named(value) {
            Some(format) => Ok(AttrMetaView { nesting_format: Some(format), ..meta }),
            None => Err(Abort::UnknownNesting),
        }
    } else if item == "require"@ {
        Ok(AttrMetaView { require: true, ..meta })
    } else if item == "skip"@ {
        Ok(AttrMetaView { skip: true, ..meta })
    } else if item == "is_enum"@ || item == "enum"@ {
        Ok(AttrMetaView { is_enum: true, ..meta })
    } else if item == "flatten"@ {
        Ok(AttrMetaView { flatten: true, ..meta })
    } else {
        Err(Abort::NotAllowedAttribute(item))
    }
}

/// The attributes that hold lists of items.
#[derive(Debug, Clone, Copy, PartialEq, Eq, Structural)]
pub enum ListAttr {
    /// `serde`
    Serde,
    /// `toml_example`
    TomlExample,
}

/// What is said after one more item of an attribute.
pub open spec fn with_item(meta: AttrMetaView, list: ListAttr, item: Seq<char>) -> Result<
    AttrMetaView,
    Abort<Seq<char>>,
> {
    match list {
        ListAttr::Serde => with_serde_item(meta, item),
        ListAttr::TomlExample => with_example_item(meta, item),
    }
}

/// What is said after the items of an attribute, from the first to the last.
pub open spec fn with_items(meta: AttrMetaView, list: ListAttr, items: Seq<Seq<char>>) -> Result<
    AttrMetaView,
    Abort<Seq<char>>,
>
    decreases items.len(),
{
    if items.len() == 0 {
        Ok(meta)
    } else {
        match with_items(meta, list, items.drop_last()) {
            Ok(said) => with_item(said, list, trimmed(items.last())),
            Err(abort) => Err(abort),
        }
    }
}

/// The lines of the documentation after a value for `path`: one for each segment `doc`.
pub open spec fn with_doc(docs: Seq<Seq<char>>, path: Seq<Seq<char>>, doc: Seq<char>) -> Seq<
    Seq<char>,
>
    decreases path.len(),
{
    if path.len() == 0 {
        docs
    } else if path.last() == "doc"@ {
        with_doc(docs, path.drop_last(), doc).push(doc)
    } else {
        with_doc(docs, path.drop_last(), doc)
    }
}

/// The path ends in `name`.
pub open spec fn names(path: Seq<Seq<char>>, name: Seq<char>) -> bool {
    path.len() > 0 && path.last() == name
}

/// What is said after one more attribute. Those of `serde` count only if `serde` holds.
pub open spec fn with_attr(meta: AttrMetaView, attr: AttrView, serde: bool) -> Result<
    AttrMetaView,
    Abort<Seq<char>>,
> {
    if !attr.outer {
        Ok(meta)
    } else {
        match attr.meta {
            MetaView::NameValue { path, value: Some(doc) } => {
                Ok(AttrMetaView { docs: with_doc(meta.docs, path, doc), ..meta })
            },
            MetaView::List { path, tokens } => if names(path, "serde"@) {
                if serde {
                    with_items(meta, ListAttr::Serde, pieces(tokens, ','))
                } else {
                    Ok(meta)
                }
            } else if names(path, "toml_example"@) {
                with_items(meta, ListAttr::TomlExample, pieces(tokens, ','))
            } else {
                Ok(meta)
            },
            _ => Ok(meta),
        }
    }
}

/// What attributes say, from the first to the last.
pub open spec fn said_by(attrs: Seq<AttrView>, serde: bool) -> Result<
    AttrMetaView,
    Fault<Seq<char>, int>,
>
    decreases attrs.len(),
{
    if attrs.len() == 0 {
        Ok(no_attrs())
    } else {
        match said_by(attrs.drop_last(), serde) {
            Ok(meta) => match with_attr(meta, attrs.last(), serde) {
                Ok(said) => Ok(said),
                Err(abort) => Err(in_attr(abort, attrs.len() - 1)),
            },
            Err(fault) => Err(fault),
        }
    }
}

/// Everything that `before` says of these is still said by `after`.
pub open spec fn keeps(before: AttrMetaView, after: AttrMetaView) -> bool {
    &&& before.docs.is_prefix_of(after.docs)
    &&& before.default_source is Some ==> after.default_source is Some
    &&& before.nesting_format is Some ==> after.nesting_format is Some
    &&& before.require ==> after.require
    &&& before.skip ==> after.skip
    &&& before.is_enum ==> after.is_enum
    &&& before.flatten ==> after.flatten
    &&& before.rename is Some ==> after.rename is Some
}

proof fn lemma_items_keep(meta: AttrMetaView, list: ListAttr, items: Seq<Seq<char>>)
    ensures
        with_items(meta, list, items) matches Ok(said) ==> keeps(meta, said),
    decreases items.len(),
{
    if items.len() > 0 {
        lemma_items_keep(meta, list, items.drop_last());
    }
}

proof fn lemma_doc_keeps(docs: Seq<Seq<char>>, path: Seq<Seq<char>>, doc: Seq<char>)
    ensures
        docs.is_prefix_of(with_doc(docs, path, doc)),
    decreases path.len(),
{
    if path.len() > 0 {
        lemma_doc_keeps(docs, path.drop_last(), doc);
        let before = with_doc(docs, path.drop_last(), doc);
        assert(before.push(doc).take(docs.len() as int) =~= before.take(docs.len() as int));
    }
}

/// What the first attributes say is not taken back by those behind them: lines of documentation
/// are only added, and what is set stays set.
pub proof fn law_attrs_keep(attrs: Seq<AttrView>, serde: bool, n: int)
    requires
        0 <= n <= attrs.len(),
        said_by(attrs, serde) is Ok,
    ensures
        said_by(attrs.take(n), serde) is Ok,
        keeps(said_by(attrs.take(n), serde)->Ok_0, said_by(attrs, serde)->Ok_0),
    decreases attrs.len(),
{
    if n < attrs.len() {
        let init = attrs.drop_last();
        assert(init.take(n) =~= attrs.take(n));
        law_attrs_keep(init, serde, n);
        let first = said_by(attrs.take(n), serde)->Ok_0;
        let before = said_by(init, serde)->Ok_0;
        let after = said_by(attrs, serde)->Ok_0;
        match attrs.last().meta {
            MetaView::NameValue { path, value: Some(doc) } => {
                lemma_doc_keeps(before.docs, path, doc);
            },
            MetaView::List { tokens, .. } => {
                lemma_items_keep(before, ListAttr::Serde, pieces(tokens, ','));
                lemma_items_keep(before, ListAttr::TomlExample, pieces(tokens, ','));
            },
            _ => {},
        }
        assert(keeps(before, after));
        assert(first.docs =~= after.docs.take(first.docs.len() as int));
    } else {
        assert(attrs.take(n) =~= attrs);
    }
}

/// Without attributes of `serde` it makes no difference whether they count.
pub proof fn law_serde_attrs_alone_count(attrs: Seq<AttrView>)
    requires
        forall|i: int|
            0 <= i < attrs.len() ==> !((#[trigger] attrs[i]).meta matches MetaView::List {
                path,
                ..
            } && names(path, "serde"@)),
    ensures
        said_by(attrs, true) == said_by(attrs, false),
    decreases attrs.len(),
{
    if attrs.len() > 0 {
        assert forall|i: int| 0 <= i < attrs.len() - 1 implies !((
        #[trigger] attrs.drop_last()[i]).meta matches MetaView::List { path, .. } && names(
            path,
            "serde"@,
        )) by {
            assert(attrs.drop_last()[i] == attrs[i]);
        }
        law_serde_attrs_alone_count(attrs.drop_last());
        assert(attrs[attrs.len() - 1] == attrs.last());
    }
}

/// A fault of attributes points to one of them.
pub proof fn law_fault_points_to_attr(attrs: Seq<AttrView>, serde: bool)
    ensures
        said_by(attrs, serde) matches Err(fault) ==> fault.field is None && points_into(
            fault.spot,
            attrs.len(),
        ) && !(fault.spot is Whole) && !(fault.spot is Name) && !(fault.spot is Nowhere),
    decreases attrs.len(),
{
    if attrs.len() > 0 {
        law_fault_points_to_attr(attrs.drop_last(), serde);
    }
}

/// Adds what an item of a `serde` attribute says.
fn read_serde_item(meta: &mut AttrMeta, item: &str) -> (r: Result<(), Abort<String>>)
    ensures
        match r {
            Ok(_) => with_serde_item(old(meta).deep_view(), item@) == Ok::<_, Abort<Seq<char>>>(
                final(meta).deep_view(),
            ),
            Err(abort) => with_serde_item(old(meta).deep_view(), item@) == Err::<AttrMetaView, _>(
                abort.deep_view(),
            ),
        },
{
    let value = split_once(item, '=');
    if starts_with(item, "default") {
        meta.default_source = match value {
            Some(parts) => Some(
                DefaultSource::SerdeDefaultFn(trim_matches(trim(parts.1), '"').to_owned()),
            ),
            None => Some(DefaultSource::DefaultFn(None)),
        };
    }
    if same_text(item, "skip_deserializing") || same_text(item, "skip") {
        meta.skip = true;
    }
    if same_text(item, "flatten") {
        meta.flatten = true;
    }
    proof {
        reveal_strlit("rename");
        reveal_strlit("rename_all");
        assert("rename_all"@.take(6) =~= "rename"@);
        if "rename_all"@.is_prefix_of(item@) {
            assert(item@.take(6) =~= item@.take(10).take(6));
        }
    }
    if starts_with(item, "rename") {
        if let Some(parts) = value {
            let name = trim_matches(trim(parts.1), '"');
            if starts_with(item, "rename_all") {
                match RenameRule::from_str(name) {
                    Ok(rule) => {
                        meta.rename_rule = rule;
                    },
                    Err(_) => {
                        return Err(Abort::UnsupportedRenameRule);
                    },
                }
            } else {
                meta.rename = Some(name.to_owned());
            }
        }
    }
    Ok(())
}

/// Adds what an item of a `toml_example` attribute says.
fn read_example_item(meta: &mut AttrMeta, item: &str) -> (r: Result<(), Abort<String>>)
    ensures
        match r {
            Ok(_) => with_example_item(old(meta).deep_view(), item@) == Ok::<_, Abort<Seq<char>>>(
                final(meta).deep_view(),
            ),
            Err(abort) => with_example_item(old(meta).deep_view(), item@) == Err::<AttrMetaView, _>(
                abort.deep_view(),
            ),
        },
{
    let value = split_once(item, '=');
    if starts_with(item, "default") {
        meta.default_source = match value {
            Some(parts) => Some(DefaultSource::DefaultValue(trim(parts.1).to_owned())),
            None => Some(DefaultSource::DefaultFn(None)),
        };
    } else if starts_with(item, "nesting") {
        if let Some(parts) = value {
            let name = trim(parts.1);
            if same_text(name, "prefix") {
                meta.nesting_format = Some(NestingFormat::Prefix);
            } else if same_text(name, "section") {
                meta.nesting_format = Some(NestingFormat::Section(NestingType::Single));
            } else {
                return Err(Abort::UnknownNesting);
            }
        } else {
            meta.nesting_format = Some(NestingFormat::Section(NestingType::Single));
        }
    } else if same_text(item, "require") {
        meta.require = true;
    } else if same_text(item, "skip") {
        meta.skip = true;
    } else if same_text(item, "is_enum") || same_text(item, "enum") {
        meta.is_enum = true;
    } else if same_text(item, "flatten") {
        meta.flatten = true;
    } else {
        return Err(Abort::NotAllowedAttribute(item.to_owned()));
    }
    Ok(())
}

/// Adds what the items of an attribute say.
fn read_items(meta: &mut AttrMeta, list: ListAttr, tokens: &str) -> (r: Result<(), Abort<String>>)
    ensures
        match r {
            Ok(_) => with_items(old(meta).deep_view(), list, pieces(tokens@, ',')) == Ok::<
                _,
                Abort<Seq<char>>,
            >(final(meta).deep_view()),
            Err(abort) => with_items(old(meta).deep_view(), list, pieces(tokens@, ',')) == Err::<
                AttrMetaView,
                _,
            >(abort.deep_view()),
        },
{
    let items = split_unenclosed(tokens, ',');
    let ghost all = pieces(tokens@, ',');
    let ghost first = meta.deep_view();
    let mut i: usize = 0;
    while i < items.len()
        invariant
            i <= items@.len(),
            items.deep_view() == all,
            all == pieces(tokens@, ','),
            first == old(meta).deep_view(),
            with_items(first, list, all.take(i as int)) == Ok::<_, Abort<Seq<char>>>(
                meta.deep_view(),
            ),
        decreases items.len() - i,
    {
        proof {
            assert(all.take(i + 1).drop_last() =~= all.take(i as int));
            assert(items.deep_view()[i as int] == items@[i as int]@);
        }
        let item = trim(items[i].as_str());
        let r = match list {
            ListAttr::Serde => read_serde_item(meta, item),
            ListAttr::TomlExample => read_example_item(meta, item),
        };
        if let Err(abort) = r {
            proof {
                lemma_items_abort(first, list, all, i + 1);
            }
            return Err(abort);
        }
        i += 1;
    }
    proof {
        assert(all.take(items@.len() as int) =~= all);
    }
    Ok(())
}

/// An abort stays the result, whatever items follow.
proof fn lemma_items_abort(meta: AttrMetaView, list: ListAttr, items: Seq<Seq<char>>, n: int)
    requires
        0 <= n <= items.len(),
        with_items(meta, list, items.take(n)) is Err,
    ensures
        with_items(meta, list, items) == with_items(meta, list, items.take(n)),
    decreases items.len(),
{
    if n < items.len() {
        assert(items.drop_last().take(n) =~= items.take(n));
        lemma_items_abort(meta, list, items.drop_last(), n);
    } else {
        assert(items.take(n) =~= items);
    }
}

/// An abort stays the result, whatever attributes follow.
proof fn lemma_attrs_abort(attrs: Seq<AttrView>, serde: bool, n: int)
    requires
        0 <= n <= attrs.len(),
        said_by(attrs.take(n), serde) is Err,
    ensures
        said_by(attrs, serde) == said_by(attrs.take(n), serde),
    decreases attrs.len(),
{
    if n < attrs.len() {
        assert(attrs.drop_last().take(n) =~= attrs.take(n));
        lemma_attrs_abort(attrs.drop_last(), serde, n);
    } else {
        assert(attrs.take(n) =~= attrs);
    }
}

/// Adds a value for `path` to the lines of the documentation.
fn read_doc(docs: &mut Vec<String>, path: &Vec<String>, doc: &String)
    ensures
        final(docs).deep_view() == with_doc(old(docs).deep_view(), path.deep_view(), doc@),
{
    let ghost first = docs.deep_view();
    let ghost all = path.deep_view();
    let mut i: usize = 0;
    while i < path.len()
        invariant
            i <= path@.len(),
            all == path.deep_view(),
            docs.deep_view() == with_doc(first, all.take(i as int), doc@),
        decreases path.len() - i,
    {
        proof {
            assert(all.take(i + 1).drop_last() =~= all.take(i as int));
        }
        if same_text(path[i].as_str(), "doc") {
            let ghost before = docs.deep_view();
            docs.push(doc.clone());
            proof {
                assert(docs.deep_view() =~= before.push(doc@));
            }
        }
        i += 1;
    }
    proof {
        assert(all.take(path@.len() as int) =~= all);
    }
}

/// Tells whether a path ends in `name`.
fn is_named(path: &Vec<String>, name: &str) -> (r: bool)
    ensures
        r == names(path.deep_view(), name@),
{
    if path.len() == 0 {
        false
    } else {
        same_text(path[path.len() - 1].as_str(), name)
    }
}

/// Adds what an attribute says.
fn read_attr(meta: &mut AttrMeta, attr: &Attr, serde: bool) -> (r: Result<(), Abort<String>>)
    ensures
        match r {
            Ok(_) => with_attr(old(meta).deep_view(), attr.deep_view(), serde) == Ok::<
                _,
                Abort<Seq<char>>,
            >(final(meta).deep_view()),
            Err(abort) => with_attr(old(meta).deep_view(), attr.deep_view(), serde) == Err::<
                AttrMetaView,
                _,
            >(abort.deep_view()),
        },
{
    if !attr.outer {
        return Ok(());
    }
    match &attr.meta {
        Meta::NameValue { path, value } => {
            if let Some(doc) = value {
                read_doc(&mut meta.docs, path, doc);
            }
            Ok(())
        },
        Meta::List { path, tokens } => if is_named(path, "serde") {
            if serde {
                read_items(meta, ListAttr::Serde, tokens.as_str())
            } else {
                Ok(())
            }
        } else if is_named(path, "toml_example") {
            read_items(meta, ListAttr::TomlExample, tokens.as_str())
        } else {
            Ok(())
        },
        Meta::Path => Ok(()),
    }
}

/// What attributes say. Those of `serde` count only if `serde` holds.
pub fn parse_attrs(attrs: &Vec<Attr>, serde: bool) -> (r: Result<AttrMeta, Fault<String, usize>>)
    ensures
        outcome(r) == said_by(attrs.deep_view(), serde),
{
    let mut meta = AttrMeta {
        docs: Vec::new(),
        default_source: None,
        nesting_format: None,
        require: false,
        skip: false,
        is_enum: false,
        flatten: false,
        rename: None,
        rename_rule: RenameRule::Unchanged,
    };
    let ghost all = attrs.deep_view();
    proof {
        assert(meta.docs.deep_view() =~= seq![]);
    }
    let mut i: usize = 0;
    while i < attrs.len()
        invariant
            i <= attrs@.len(),
            all == attrs.deep_view(),
            said_by(all.take(i as int), serde) == Ok::<_, Fault<Seq<char>, int>>(meta.deep_view()),
        decreases attrs.len() - i,
    {
        proof {
            assert(all.take(i + 1).drop_last() =~= all.take(i as int));
        }
        if let Err(abort) = read_attr(&mut meta, &attrs[i], serde) {
            proof {
                lemma_attrs_abort(all, serde, i + 1);
            }
            return Err(Fault::in_attr(abort, i));
        }
        i += 1;
    }
    proof {
        assert(all.take(attrs@.len() as int) =~= all);
    }
    Ok(meta)
}

} // verus!

//! What the attributes of a struct or a field say.

use vstd::prelude::*;

use crate::abort::{Abort, Spot};
use crate::ast::{AttrView, MetaView};
use crate::attrs::{said_by, with_attr, with_doc, with_example_item, with_items, with_serde_item};
use crate::attrs::{AttrMetaView, DefaultSource, ListAttr, NestingFormat, NestingType};
use crate::case::{rule_named, RenameRule};
use crate::enclosure::pieces;
use crate::text::{cut_once, trimmed, trimmed_of};

verus! {

/// No attributes say nothing.
pub proof fn law_nothing_said(serde: bool)
    ensures
        said_by(seq![], serde) matches Ok(meta) && {
            &&& meta.docs.len() == 0
            &&& meta.default_source is None
            &&& meta.nesting_format is None
            &&& !meta.require && !meta.skip && !meta.is_enum && !meta.flatten
            &&& meta.rename is None
            &&& meta.rename_rule is Unchanged
        },
{
}

/// Attributes count one after the other. The first that is refused decides, and the fault points to
/// it: to the tokens in its brackets for a rule of `serde`, and else to all of it.
pub proof fn law_attrs_in_order(attrs: Seq<AttrView>, attr: AttrView, serde: bool)
    ensures
        match said_by(attrs, serde) {
            Ok(meta) => match with_attr(meta, attr, serde) {
                Ok(said) => said_by(attrs.push(attr), serde) matches Ok(all) && all == said,
                Err(abort) => said_by(attrs.push(attr), serde) matches Err(fault) && {
                    &&& fault.abort == abort
                    &&& fault.field is None
                    &&& abort is UnsupportedRenameRule ==> fault.spot == Spot::AttrTokens(
                        attrs.len() as int,
                    )
                    &&& !(abort is UnsupportedRenameRule) ==> fault.spot
                        == Spot::Attr(attrs.len() as int)
                },
            },
            Err(fault) => said_by(attrs.push(attr), serde) == Err::<AttrMetaView, _>(fault),
        },
{
    assert(attrs.push(attr).drop_last() =~= attrs);
}

/// A line of documentation is added behind those before, and changes nothing else.
pub proof fn law_doc_attr(meta: AttrMetaView, doc: Seq<char>, serde: bool)
    ensures
        with_attr(
            meta,
            AttrView {
                outer: true,
                meta: MetaView::NameValue { path: seq!["doc"@], value: Some(doc) },
            },
            serde,
        ) == Ok::<_, Abort<Seq<char>>>(AttrMetaView { docs: meta.docs.push(doc), ..meta }),
{
    let path = seq!["doc"@];
    assert(path.last() == "doc"@);
    assert(path.drop_last() =~= seq![]);
    assert(with_doc(meta.docs, path, doc) == with_doc(
        meta.docs,
        path.drop_last(),
        doc,
    ).push(doc));
}

/// An attribute that is written inside of what it is for, one that is a path alone, one with a list
/// that is neither `serde` nor `toml_example`, one of `serde` where those do not count, and one with a
/// value that is no documentation say nothing.
pub proof fn law_attr_ignored(meta: AttrMetaView, attr: AttrView, serde: bool)
    requires
        ({
            ||| !attr.outer
            ||| attr.meta is Path
            ||| attr.meta matches MetaView::List { path, .. } && (path.len() == 0 || (path.last()
                != "toml_example"@ && (path.last() != "serde"@ || !serde)))
            ||| attr.meta matches MetaView::NameValue { path, value } && (value is None || (forall|
                i: int,
            |
                0 <= i < path.len() ==> #[trigger] path[i] != "doc"@))
        }),
    ensures
        with_attr(meta, attr, serde) == Ok::<_, Abort<Seq<char>>>(meta),
{
    if let MetaView::NameValue { path, value: Some(doc) } = attr.meta {
        if attr.outer {
            lemma_no_doc(meta.docs, path, doc);
        }
    }
    reveal_strlit("serde");
    reveal_strlit("toml_example");
    assert("serde"@.len() != "toml_example"@.len());
}

proof fn lemma_no_doc(docs: Seq<Seq<char>>, path: Seq<Seq<char>>, doc: Seq<char>)
    requires
        forall|i: int| 0 <= i < path.len() ==> #[trigger] path[i] != "doc"@,
    ensures
        with_doc(docs, path, doc) == docs,
    decreases path.len(),
{
    if path.len() > 0 {
        assert(path[path.len() - 1] == path.last());
        assert forall|i: int| 0 <= i < path.len() - 1 implies #[trigger] path.drop_last()[i]
            != "doc"@ by {
            assert(path.drop_last()[i] == path[i]);
        }
        lemma_no_doc(docs, path.drop_last(), doc);
    }
}

/// The items of an attribute with a list are what unenclosed commas cut its tokens into.
pub proof fn law_list_attr(
    meta: AttrMetaView,
    path: Seq<Seq<char>>,
    tokens: Seq<char>,
    serde: bool,
)
    requires
        path.len() > 0,
    ensures
        ({
            let attr = AttrView { outer: true, meta: MetaView::List { path, tokens } };
            &&& path.last() == "toml_example"@ ==> with_attr(meta, attr, serde) == with_items(
                meta,
                ListAttr::TomlExample,
                pieces(tokens, ','),
            )
            &&& path.last() == "serde"@ && serde ==> with_attr(meta, attr, serde) == with_items(
                meta,
                ListAttr::Serde,
                pieces(tokens, ','),
            )
        }),
{
    reveal_strlit("serde");
    reveal_strlit("toml_example");
    assert("serde"@.len() != "toml_example"@.len());
}

/// Items count one after the other, without the white space around them.
pub proof fn law_items_append(
    meta: AttrMetaView,
    list: ListAttr,
    first: Seq<Seq<char>>,
    second: Seq<Seq<char>>,
)
    ensures
        with_items(meta, list, first + second) == match with_items(meta, list, first) {
            Ok(said) => with_items(said, list, second),
            Err(abort) => Err(abort),
        },
    decreases second.len(),
{
    let all = first + second;
    if second.len() == 0 {
        assert(all =~= first);
    } else {
        assert(all.drop_last() =~= first + second.drop_last());
        law_items_append(meta, list, first, second.drop_last());
    }
}

/// One item counts without the white space around it.
pub proof fn law_one_item(meta: AttrMetaView, item: Seq<char>)
    ensures
        with_items(meta, ListAttr::TomlExample, seq![item]) == with_example_item(
            meta,
            trimmed(item),
        ),
        with_items(meta, ListAttr::Serde, seq![item]) == with_serde_item(meta, trimmed(item)),
{
    assert(seq![item].drop_last() =~= seq![]);
    assert(seq![item].last() == item);
    assert(with_items(meta, ListAttr::TomlExample, seq![]) == Ok::<_, Abort<Seq<char>>>(meta));
    assert(with_items(meta, ListAttr::Serde, seq![]) == Ok::<_, Abort<Seq<char>>>(meta));
}

/// An item with a name, something behind it and a value behind the first equals sign is cut there.
proof fn lemma_cut_item(name: Seq<char>, more: Seq<char>, value: Seq<char>)
    requires
        !name.contains('='),
        !more.contains('='),
    ensures
        cut_once(name + more + seq!['='] + value, '=') == Some((name + more, value)),
        name.is_prefix_of(name + more + seq!['='] + value),
{
    let front = name + more;
    let item = front + seq!['='] + value;
    let n = front.len() as int;
    assert(item[n] == '=');
    item.index_of_first_ensures('=');
    assert forall|i: int| 0 <= i < n implies item[i] != '=' by {
        if i < name.len() {
            assert(name[i] != '=');
        } else {
            assert(more[i - name.len()] != '=');
        }
    }
    assert(item.take(n) =~= front);
    assert(item.skip(n + 1) =~= value);
    assert(item.take(name.len() as int) =~= name);
}

/// An item without an equals sign is not cut.
proof fn lemma_uncut_item(name: Seq<char>, more: Seq<char>)
    requires
        !name.contains('='),
        !more.contains('='),
    ensures
        cut_once(name + more, '=') is None,
        name.is_prefix_of(name + more),
{
    let item = name + more;
    assert forall|i: int| 0 <= i < item.len() implies item[i] != '=' by {
        if i < name.len() {
            assert(name[i] != '=');
        } else {
            assert(more[i - name.len()] != '=');
        }
    }
    assert(item.take(name.len() as int) =~= name);
}

/// `default = value` of `toml_example` gives the value as it is written, without the white space
/// around it. `default` alone asks for the default of the type. Nothing else is changed.
pub proof fn law_default_item(meta: AttrMetaView, more: Seq<char>, value: Seq<char>)
    requires
        !more.contains('='),
    ensures
        with_example_item(meta, "default"@ + more + seq!['='] + value) == Ok::<_, Abort<Seq<char>>>(
            AttrMetaView {
                default_source: Some(DefaultSource::DefaultValue(trimmed(value))),
                ..meta
            },
        ),
        with_example_item(meta, "default"@ + more) == Ok::<_, Abort<Seq<char>>>(
            AttrMetaView { default_source: Some(DefaultSource::DefaultFn(None)), ..meta },
        ),
{
    reveal_strlit("default");
    assert(!"default"@.contains('='));
    lemma_cut_item("default"@, more, value);
    lemma_uncut_item("default"@, more);
}

/// `nesting` of `toml_example` nests a field as a section, which `nesting = section` says too, and
/// `nesting = prefix` with a prefix. Any other value is refused. Nothing else is changed.
pub proof fn law_nesting_item(meta: AttrMetaView, more: Seq<char>, value: Seq<char>)
    requires
        !more.contains('='),
    ensures
        ({
            let section = AttrMetaView {
                nesting_format: Some(NestingFormat::Section(NestingType::Single)),
                ..meta
            };
            let given = with_example_item(meta, "nesting"@ + more + seq!['='] + value);
            &&& with_example_item(meta, "nesting"@ + more) == Ok::<_, Abort<Seq<char>>>(section)
            &&& trimmed(value) == "section"@ ==> given == Ok::<_, Abort<Seq<char>>>(section)
            &&& trimmed(value) == "prefix"@ ==> given == Ok::<_, Abort<Seq<char>>>(
                AttrMetaView { nesting_format: Some(NestingFormat::Prefix), ..meta },
            )
            &&& trimmed(value) != "section"@ && trimmed(value) != "prefix"@ ==> (
            given matches Err(abort) && abort is UnknownNesting)
        }),
{
    reveal_strlit("default");
    reveal_strlit("nesting");
    reveal_strlit("section");
    reveal_strlit("prefix");
    assert(!"nesting"@.contains('='));
    lemma_cut_item("nesting"@, more, value);
    lemma_uncut_item("nesting"@, more);
    let given = "nesting"@ + more + seq!['='] + value;
    assert(given.take(7)[0] == 'n');
    assert(("nesting"@ + more).take(7)[0] == 'n');
    assert("default"@[0] == 'd');
    assert("section"@[0] != "prefix"@[0]);
}

/// The marks of `toml_example` set what they name and change nothing else.
pub proof fn law_mark_items(meta: AttrMetaView)
    ensures
        with_example_item(meta, "require"@) == Ok::<_, Abort<Seq<char>>>(
            AttrMetaView { require: true, ..meta },
        ),
        with_example_item(meta, "skip"@) == Ok::<_, Abort<Seq<char>>>(
            AttrMetaView { skip: true, ..meta },
        ),
        with_example_item(meta, "is_enum"@) == Ok::<_, Abort<Seq<char>>>(
            AttrMetaView { is_enum: true, ..meta },
        ),
        with_example_item(meta, "enum"@) == Ok::<_, Abort<Seq<char>>>(
            AttrMetaView { is_enum: true, ..meta },
        ),
        with_example_item(meta, "flatten"@) == Ok::<_, Abort<Seq<char>>>(
            AttrMetaView { flatten: true, ..meta },
        ),
{
    lemma_mark_names();
}

/// The marks are told apart, and start with neither `default` nor `nesting` nor `rename`.
proof fn lemma_mark_names()
    ensures
        forall|mark: Seq<char>|
            #![trigger "default"@.is_prefix_of(mark)]
            mark == "require"@ || mark == "skip"@ || mark == "is_enum"@ || mark == "enum"@ || mark
                == "flatten"@ || mark == "skip_deserializing"@ ==> !"default"@.is_prefix_of(mark)
                && !"nesting"@.is_prefix_of(mark) && !"rename"@.is_prefix_of(mark)
                && !"rename_all"@.is_prefix_of(mark),
        "require"@ != "skip"@,
        "require"@ != "is_enum"@,
        "require"@ != "enum"@,
        "require"@ != "flatten"@,
        "skip"@ != "is_enum"@,
        "skip"@ != "enum"@,
        "skip"@ != "flatten"@,
        "is_enum"@ != "flatten"@,
        "enum"@ != "flatten"@,
        "skip_deserializing"@ != "flatten"@,
{
    reveal_strlit("default");
    reveal_strlit("nesting");
    reveal_strlit("rename");
    reveal_strlit("rename_all");
    reveal_strlit("require");
    reveal_strlit("skip");
    reveal_strlit("skip_deserializing");
    reveal_strlit("is_enum");
    reveal_strlit("enum");
    reveal_strlit("flatten");
    assert("require"@[0] == 'r' && "require"@[2] == 'q');
    assert("skip"@[0] == 's' && "is_enum"@[0] == 'i' && "enum"@[0] == 'e' && "flatten"@[0] == 'f');
    assert("skip_deserializing"@[0] == 's');
    assert forall|mark: Seq<char>|
        #![trigger "default"@.is_prefix_of(mark)]
        mark == "require"@ || mark == "skip"@ || mark == "is_enum"@ || mark == "enum"@ || mark
            == "flatten"@ || mark == "skip_deserializing"@ implies !"default"@.is_prefix_of(mark)
        && !"nesting"@.is_prefix_of(mark) && !"rename"@.is_prefix_of(mark)
        && !"rename_all"@.is_prefix_of(mark) by {
        if "default"@.is_prefix_of(mark) {
            assert(mark.take(7)[0] == mark[0] && "default"@[0] == 'd');
        }
        if "nesting"@.is_prefix_of(mark) {
            assert(mark.take(7)[0] == mark[0] && "nesting"@[0] == 'n');
        }
        if "rename"@.is_prefix_of(mark) {
            assert(mark.take(6)[0] == mark[0] && "rename"@[0] == 'r');
            assert(mark.take(6)[2] == mark[2] && "rename"@[2] == 'n');
        }
        if "rename_all"@.is_prefix_of(mark) {
            assert(mark.take(10)[0] == mark[0] && "rename_all"@[0] == 'r');
            assert(mark.take(10)[2] == mark[2] && "rename_all"@[2] == 'n');
        }
    }
}

/// Any other item of `toml_example` is refused by its name.
pub proof fn law_unknown_item(meta: AttrMetaView, item: Seq<char>)
    requires
        !"default"@.is_prefix_of(item),
        !"nesting"@.is_prefix_of(item),
        item != "require"@,
        item != "skip"@,
        item != "is_enum"@,
        item != "enum"@,
        item != "flatten"@,
    ensures
        with_example_item(meta, item) == Err::<AttrMetaView, _>(Abort::NotAllowedAttribute(item)),
{
}

/// `default = "name"` of `serde` gives the function of that name, and `default` alone asks for the
/// default of the type. Nothing else is changed.
pub proof fn law_serde_default_item(meta: AttrMetaView, more: Seq<char>, value: Seq<char>)
    requires
        !more.contains('='),
    ensures
        with_serde_item(meta, "default"@ + more + seq!['='] + value) == Ok::<_, Abort<Seq<char>>>(
            AttrMetaView {
                default_source: Some(
                    DefaultSource::SerdeDefaultFn(trimmed_of(trimmed(value), '"')),
                ),
                ..meta
            },
        ),
        with_serde_item(meta, "default"@ + more) == Ok::<_, Abort<Seq<char>>>(
            AttrMetaView { default_source: Some(DefaultSource::DefaultFn(None)), ..meta },
        ),
{
    reveal_strlit("default");
    reveal_strlit("rename");
    reveal_strlit("rename_all");
    reveal_strlit("skip");
    reveal_strlit("skip_deserializing");
    reveal_strlit("flatten");
    assert(!"default"@.contains('='));
    lemma_cut_item("default"@, more, value);
    lemma_uncut_item("default"@, more);
    let given = "default"@ + more + seq!['='] + value;
    let bare = "default"@ + more;
    assert(given[0] == 'd' && bare[0] == 'd');
    assert("rename"@[0] == 'r' && "rename_all"@[0] == 'r' && "skip"@[0] == 's' && "flatten"@[0] == 'f'
        && "skip_deserializing"@[0] == 's');
    if "rename"@.is_prefix_of(given) {
        assert(given.take(6)[0] == given[0]);
    }
    if "rename_all"@.is_prefix_of(given) {
        assert(given.take(10)[0] == given[0]);
    }
}

/// `rename = "name"` of `serde` names a field, and `rename_all = "rule"` gives the rule for the names
/// of the fields of a struct. A rule that is none is refused. Nothing else is changed.
pub proof fn law_serde_rename_item(meta: AttrMetaView, more: Seq<char>, value: Seq<char>)
    requires
        !more.contains('='),
    ensures
        ({
            let name = trimmed_of(trimmed(value), '"');
            let all = with_serde_item(meta, "rename_all"@ + more + seq!['='] + value);
            let one = with_serde_item(meta, "rename"@ + more + seq!['='] + value);
            &&& match rule_named(name) {
                Some(rule) => all == Ok::<_, Abort<Seq<char>>>(
                    AttrMetaView { rename_rule: rule, ..meta },
                ),
                None => all matches Err(abort) && abort is UnsupportedRenameRule,
            }
            &&& !"_all"@.is_prefix_of(more) ==> one == Ok::<_, Abort<Seq<char>>>(
                AttrMetaView { rename: Some(name), ..meta },
            )
        }),
{
    reveal_strlit("default");
    reveal_strlit("rename");
    reveal_strlit("rename_all");
    reveal_strlit("_all");
    reveal_strlit("skip");
    reveal_strlit("skip_deserializing");
    reveal_strlit("flatten");
    assert(!"rename"@.contains('='));
    assert(!"rename_all"@.contains('='));
    lemma_cut_item("rename"@, more, value);
    lemma_cut_item("rename_all"@, more, value);
    let all = "rename_all"@ + more + seq!['='] + value;
    let one = "rename"@ + more + seq!['='] + value;
    assert(all[0] == 'r' && one[0] == 'r');
    assert("default"@[0] == 'd' && "skip"@[0] == 's' && "flatten"@[0] == 'f'
        && "skip_deserializing"@[0] == 's');
    if "default"@.is_prefix_of(all) {
        assert(all.take(7)[0] == all[0]);
    }
    if "default"@.is_prefix_of(one) {
        assert(one.take(7)[0] == one[0]);
    }
    if "rename_all"@.is_prefix_of(one) {
        assert(one.take(10)[6] == one[6] && one.take(10)[7] == one[7] && one.take(10)[8] == one[8]
            && one.take(10)[9] == one[9]);
        assert("rename_all"@[6] == '_' && "rename_all"@[7] == 'a' && "rename_all"@[8] == 'l'
            && "rename_all"@[9] == 'l');
        if more.len() < 4 {
            assert(one[6 + more.len() as int] == '=');
        } else {
            assert(more.take(4) =~= "_all"@);
        }
    }
}

/// The marks of `serde` set what they name and change nothing else. Other items say nothing.
pub proof fn law_serde_mark_items(meta: AttrMetaView, item: Seq<char>)
    ensures
        with_serde_item(meta, "skip"@) == Ok::<_, Abort<Seq<char>>>(
            AttrMetaView { skip: true, ..meta },
        ),
        with_serde_item(meta, "skip_deserializing"@) == Ok::<_, Abort<Seq<char>>>(
            AttrMetaView { skip: true, ..meta },
        ),
        with_serde_item(meta, "flatten"@) == Ok::<_, Abort<Seq<char>>>(
            AttrMetaView { flatten: true, ..meta },
        ),
        !"default"@.is_prefix_of(item) && !"rename"@.is_prefix_of(item) && item != "skip"@ && item
            != "skip_deserializing"@ && item != "flatten"@ ==> with_serde_item(meta, item) == Ok::<
            _,
            Abort<Seq<char>>,
        >(meta),
{
    lemma_mark_names();
    assert(!"default"@.is_prefix_of("skip"@));
    assert(!"default"@.is_prefix_of("skip_deserializing"@));
    assert(!"default"@.is_prefix_of("flatten"@));
    reveal_strlit("rename");
    reveal_strlit("rename_all");
    if "rename_all"@.is_prefix_of(item) {
        assert(item.take(6) =~= item.take(10).take(6));
        assert("rename_all"@.take(6) =~= "rename"@);
    }
}

/// `rename` and `rename_all` without a value say nothing.
pub proof fn law_serde_rename_without_value(meta: AttrMetaView, more: Seq<char>)
    requires
        !more.contains('='),
    ensures
        with_serde_item(meta, "rename"@ + more) == Ok::<_, Abort<Seq<char>>>(meta),
{
    reveal_strlit("default");
    reveal_strlit("rename");
    reveal_strlit("skip");
    reveal_strlit("skip_deserializing");
    reveal_strlit("flatten");
    assert(!"rename"@.contains('='));
    lemma_uncut_item("rename"@, more);
    let item = "rename"@ + more;
    assert(item[0] == 'r');
    assert("default"@[0] == 'd' && "skip"@[0] == 's' && "flatten"@[0] == 'f'
        && "skip_deserializing"@[0] == 's');
    if "default"@.is_prefix_of(item) {
        assert(item.take(7)[0] == item[0]);
    }
}

/// Each rule has one name.
pub proof fn law_rule_names(name: Seq<char>)
    ensures
        match rule_named(name) {
            Some(RenameRule::LowerCase) => name == "lowercase"@,
            Some(RenameRule::UpperCase) => name == "UPPERCASE"@,
            Some(RenameRule::PascalCase) => name == "PascalCase"@,
            Some(RenameRule::CamelCase) => name == "camelCase"@,
            Some(RenameRule::SnakeCase) => name == "snake_case"@,
            Some(RenameRule::ScreamingSnakeCase) => name == "SCREAMING_SNAKE_CASE"@,
            Some(RenameRule::KebabCase) => name == "kebab-case"@,
            Some(RenameRule::ScreamingKebabCase) => name == "SCREAMING-KEBAB-CASE"@,
            Some(RenameRule::Unchanged) => false,
            None => name != "lowercase"@ && name != "UPPERCASE"@ && name != "PascalCase"@ && name
                != "camelCase"@ && name != "snake_case"@ && name != "SCREAMING_SNAKE_CASE"@ && name
                != "kebab-case"@ && name != "SCREAMING-KEBAB-CASE"@,
        },
{
}

/// A value for a path counts once for each segment `doc` of the path.
pub proof fn law_doc_path(
    docs: Seq<Seq<char>>,
    path: Seq<Seq<char>>,
    segment: Seq<char>,
    doc: Seq<char>,
)
    ensures
        with_doc(docs, seq![], doc) == docs,
        segment == "doc"@ ==> with_doc(docs, path.push(segment), doc) == with_doc(
            docs,
            path,
            doc,
        ).push(doc),
        segment != "doc"@ ==> with_doc(docs, path.push(segment), doc) == with_doc(docs, path, doc),
{
    assert(path.push(segment).drop_last() =~= path);
}

} // verus!

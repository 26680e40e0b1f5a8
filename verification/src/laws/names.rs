//! How names are changed, and how texts are taken apart.

use vstd::prelude::*;

use crate::case::{pascal, renamed, RenameRule};
use crate::enclosure::{enclosure_of, no_enclosure, unenclosed, Enclosure};
use crate::text::{equal_to, lower, replaced, trimmed_of, trimmed_start, upper, white_space};
use crate::text::without_suffix_of;

verus! {

/// Under these rules the names of fields stay as they are.
pub proof fn law_names_kept(field: Seq<char>)
    ensures
        renamed(RenameRule::Unchanged, field) == field,
        renamed(RenameRule::LowerCase, field) == field,
        renamed(RenameRule::SnakeCase, field) == field,
{
}

/// In upper case each character is in upper case, at its place.
pub proof fn law_upper_names(field: Seq<char>)
    ensures
        renamed(RenameRule::UpperCase, field) == Seq::new(field.len(), |i: int| upper(field[i])),
        renamed(RenameRule::ScreamingSnakeCase, field) == renamed(RenameRule::UpperCase, field),
{
    assert(renamed(RenameRule::UpperCase, field) =~= Seq::new(
        field.len(),
        |i: int| upper(field[i]),
    ));
}

/// In kebab case each underscore is a hyphen, and all else stays as it is. The screaming one is that
/// of the name in upper case.
pub proof fn law_kebab_names(field: Seq<char>)
    ensures
        renamed(RenameRule::KebabCase, field) == replaced(field, '_', seq!['-']),
        renamed(RenameRule::ScreamingKebabCase, field) == replaced(
            renamed(RenameRule::UpperCase, field),
            '_',
            seq!['-'],
        ),
{
}

/// In pascal case the words between underscores stand one behind the other.
pub proof fn law_pascal_words(first: Seq<char>, second: Seq<char>)
    ensures
        renamed(RenameRule::PascalCase, first + seq!['_'] + second) == renamed(
            RenameRule::PascalCase,
            first,
        ) + renamed(RenameRule::PascalCase, second),
    decreases second.len(),
{
    let all = first + seq!['_'] + second;
    if second.len() == 0 {
        assert(all.drop_last() =~= first);
        assert(all.last() == '_');
        assert(pascal(first) + Seq::<char>::empty() =~= pascal(first));
    } else {
        let init = second.drop_last();
        assert(all.drop_last() =~= first + seq!['_'] + init);
        law_pascal_words(first, init);
        assert(all.last() == second.last());
        if second.len() == 1 {
            assert(all[all.len() - 2] == '_');
        } else {
            assert(all[all.len() - 2] == second[second.len() - 2]);
        }
        assert(pascal(all) =~= pascal(first) + pascal(second));
    }
}

/// A word without underscores has a capital in pascal case, and else stays as it is. In camel case a
/// name is as in pascal case, but for its first letter, which is in lower case.
pub proof fn law_pascal_word(word: Seq<char>, field: Seq<char>)
    requires
        !word.contains('_'),
    ensures
        renamed(RenameRule::PascalCase, word) == if word.len() == 0 {
            word
        } else {
            word.update(0, upper(word[0]))
        },
        ({
            let name = renamed(RenameRule::PascalCase, field);
            renamed(RenameRule::CamelCase, field) == if name.len() == 0 {
                name
            } else {
                name.update(0, lower(name[0]))
            }
        }),
    decreases word.len(),
{
    if word.len() > 0 {
        let init = word.drop_last();
        assert(word[word.len() - 1] != '_');
        assert forall|i: int| 0 <= i < init.len() implies init[i] != '_' by {
            assert(word[i] != '_');
        }
        law_pascal_word(init, field);
        if word.len() > 1 {
            assert(word[word.len() - 2] != '_');
        }
        assert(pascal(word) =~= word.update(0, upper(word[0])));
    } else {
        assert(pascal(word) =~= word);
    }
}

/// Letters change their case by the distance between the two alphabets, and all else keeps its own.
pub proof fn law_letters(c: char)
    ensures
        'a' <= c && c <= 'z' ==> upper(c) as int == c as int - 32 && lower(c) == c,
        'A' <= c && c <= 'Z' ==> lower(c) as int == c as int + 32 && upper(c) == c,
        !('a' <= c && c <= 'z') && !('A' <= c && c <= 'Z') ==> upper(c) == c && lower(c) == c,
{
}

/// Characters are replaced one by one.
pub proof fn law_replaced_append(a: Seq<char>, b: Seq<char>, from: char, to: Seq<char>)
    ensures
        replaced(a + b, from, to) == replaced(a, from, to) + replaced(b, from, to),
    decreases b.len(),
{
    let all = a + b;
    if b.len() == 0 {
        assert(all =~= a);
        assert(replaced(a, from, to) + Seq::<char>::empty() =~= replaced(a, from, to));
    } else {
        assert(all.drop_last() =~= a + b.drop_last());
        law_replaced_append(a, b.drop_last(), from, to);
        assert(replaced(all, from, to) =~= replaced(a, from, to) + replaced(b, from, to));
    }
}

/// A character is replaced if it is the one to replace, and else kept.
pub proof fn law_replaced_one(c: char, from: char, to: Seq<char>)
    ensures
        c == from ==> replaced(seq![c], from, to) == to,
        c != from ==> replaced(seq![c], from, to) == seq![c],
{
    let s = seq![c];
    assert(s.drop_last() =~= seq![]);
    assert(replaced(s.drop_last(), from, to) =~= seq![]);
    assert(Seq::<char>::empty() + to =~= to);
    assert(Seq::<char>::empty() + s =~= s);
}

/// A text that neither starts nor ends with a character is what is left when the character is taken
/// from the ends of the text with it around.
pub proof fn law_trimmed_of(before: Seq<char>, s: Seq<char>, behind: Seq<char>, c: char)
    requires
        forall|i: int| 0 <= i < before.len() ==> #[trigger] before[i] == c,
        forall|i: int| 0 <= i < behind.len() ==> #[trigger] behind[i] == c,
        s.len() > 0 ==> s[0] != c && s.last() != c,
    ensures
        trimmed_of(before + s + behind, c) == s,
    decreases before.len() + behind.len(),
{
    let all = before + s + behind;
    if before.len() > 0 {
        let rest = before.drop_first();
        assert forall|i: int| 0 <= i < rest.len() implies #[trigger] rest[i] == c by {
            assert(rest[i] == before[i + 1]);
        }
        assert(before[0] == c);
        assert(all.drop_first() =~= rest + s + behind);
        law_trimmed_of(rest, s, behind, c);
    } else if s.len() > 0 {
        assert(all[0] == s[0]);
        lemma_ends_taken(s, behind, c);
        assert(all =~= s + behind);
    } else if behind.len() > 0 {
        let rest = behind.drop_first();
        assert forall|i: int| 0 <= i < rest.len() implies #[trigger] rest[i] == c by {
            assert(rest[i] == behind[i + 1]);
        }
        assert(behind[0] == c);
        assert(all.drop_first() =~= before + s + rest);
        law_trimmed_of(before, s, rest, c);
    } else {
        assert(all =~= s);
    }
}

proof fn lemma_ends_taken(s: Seq<char>, behind: Seq<char>, c: char)
    requires
        forall|i: int| 0 <= i < behind.len() ==> #[trigger] behind[i] == c,
        s.len() > 0,
        s.last() != c,
    ensures
        without_suffix_of(s + behind, equal_to(c)) == s,
    decreases behind.len(),
{
    let all = s + behind;
    if behind.len() == 0 {
        assert(all =~= s);
    } else {
        let init = behind.drop_last();
        assert forall|i: int| 0 <= i < init.len() implies #[trigger] init[i] == c by {
            assert(init[i] == behind[i]);
        }
        assert(behind[behind.len() - 1] == c);
        assert(all.last() == c);
        assert(all.drop_last() =~= s + init);
        lemma_ends_taken(s, init, c);
    }
}

/// A character that opens or closes nothing and escapes nothing.
pub open spec fn is_plain(c: char) -> bool {
    c != '\\' && c != '"' && c != '\'' && c != '[' && c != ']' && c != '{' && c != '}' && c != '('
        && c != ')'
}

/// What stands in front of the closing character `close`, behind the opening character `open` and
/// plain characters, is enclosed, and nothing is open behind it.
pub proof fn law_enclosed(open: char, s: Seq<char>, close: char, i: int, pat: char)
    requires
        (open, close) == ('"', '"') || (open, close) == ('\'', '\'') || (open, close) == ('[', ']')
            || (open, close) == ('{', '}') || (open, close) == ('(', ')'),
        forall|j: int| 0 <= j < s.len() ==> is_plain(#[trigger] s[j]),
        0 <= i < s.len(),
    ensures
        enclosure_of(seq![open] + s + seq![close]) == no_enclosure(),
        !unenclosed(seq![open] + s + seq![close], i + 1, pat),
{
    let all = seq![open] + s + seq![close];
    lemma_opened(open, s);
    assert(all.drop_last() =~= seq![open] + s);
    let front = s.take(i);
    assert forall|j: int| 0 <= j < front.len() implies is_plain(#[trigger] front[j]) by {
        assert(front[j] == s[j]);
    }
    lemma_opened(open, front);
    assert(all.take(i + 1) =~= seq![open] + front);
    assert(is_plain(s[i]));
    assert(all[i + 1] == s[i]);
}

/// Between quotes, all characters but the quote and the backslash are enclosed.
pub proof fn law_quoted(quote: char, s: Seq<char>, i: int, pat: char)
    requires
        quote == '"' || quote == '\'',
        forall|j: int| 0 <= j < s.len() ==> #[trigger] s[j] != quote && s[j] != '\\',
        0 <= i < s.len(),
    ensures
        enclosure_of(seq![quote] + s + seq![quote]) == no_enclosure(),
        !unenclosed(seq![quote] + s + seq![quote], i + 1, pat),
{
    let all = seq![quote] + s + seq![quote];
    lemma_quoted(quote, s);
    assert(all.drop_last() =~= seq![quote] + s);
    let front = s.take(i);
    assert forall|j: int| 0 <= j < front.len() implies #[trigger] front[j] != quote && front[j]
        != '\\' by {
        assert(front[j] == s[j]);
    }
    lemma_quoted(quote, front);
    assert(all.take(i + 1) =~= seq![quote] + front);
    assert(all[i + 1] == s[i]);
    assert(s[i] != quote && s[i] != '\\');
}

proof fn lemma_quoted(quote: char, s: Seq<char>)
    requires
        quote == '"' || quote == '\'',
        forall|j: int| 0 <= j < s.len() ==> #[trigger] s[j] != quote && s[j] != '\\',
    ensures
        enclosure_of(seq![quote] + s) == (Enclosure {
            quoted: quote == '"',
            single_quoted: quote == '\'',
            ..no_enclosure()
        }),
    decreases s.len(),
{
    let all = seq![quote] + s;
    if s.len() == 0 {
        assert(all.drop_last() =~= seq![]);
        assert(all.last() == quote);
        assert(enclosure_of(seq![]) == no_enclosure());
        assert(enclosure_of(all) == no_enclosure().after(quote));
    } else {
        let init = s.drop_last();
        assert forall|j: int| 0 <= j < init.len() implies #[trigger] init[j] != quote && init[j]
            != '\\' by {
            assert(init[j] == s[j]);
        }
        lemma_quoted(quote, init);
        assert(all.drop_last() =~= seq![quote] + init);
        assert(s[s.len() - 1] != quote && s[s.len() - 1] != '\\');
    }
}

proof fn lemma_opened(open: char, s: Seq<char>)
    requires
        open == '"' || open == '\'' || open == '[' || open == '{' || open == '(',
        forall|j: int| 0 <= j < s.len() ==> is_plain(#[trigger] s[j]),
    ensures
        enclosure_of(seq![open] + s) == no_enclosure().after(open),
    decreases s.len(),
{
    let all = seq![open] + s;
    if s.len() == 0 {
        assert(all.drop_last() =~= seq![]);
        assert(all.last() == open);
        assert(enclosure_of(seq![]) == no_enclosure());
    } else {
        let init = s.drop_last();
        assert forall|j: int| 0 <= j < init.len() implies is_plain(#[trigger] init[j]) by {
            assert(init[j] == s[j]);
        }
        lemma_opened(open, init);
        assert(all.drop_last() =~= seq![open] + init);
        assert(is_plain(s[s.len() - 1]));
    }
}

/// A character behind a backslash is enclosed, whatever it is.
pub proof fn law_escaped(s: Seq<char>, c: char, pat: char)
    requires
        !enclosure_of(s).escaped,
    ensures
        !unenclosed(s + seq!['\\', c], s.len() as int + 1, pat),
        enclosure_of(s + seq!['\\', c]) == enclosure_of(s),
{
    let all = s + seq!['\\', c];
    assert(all.take(s.len() as int + 1) =~= s.push('\\'));
    assert(all.drop_last() =~= s.push('\\'));
    assert(s.push('\\').drop_last() =~= s);
    assert(enclosure_of(s.push('\\')) == enclosure_of(s).after('\\'));
}

/// A character that nothing encloses and that encloses nothing is found.
pub proof fn law_found(s: Seq<char>, pat: char)
    requires
        enclosure_of(s) == no_enclosure(),
        is_plain(pat),
    ensures
        unenclosed(s.push(pat), s.len() as int, pat),
        enclosure_of(s.push(pat)) == no_enclosure(),
{
    assert(s.push(pat).take(s.len() as int) =~= s);
    assert(s.push(pat).drop_last() =~= s);
}

/// A text is white space, and then what is left when that is taken from its start, which starts with
/// none.
pub proof fn law_trimmed_start(before: Seq<char>, s: Seq<char>)
    requires
        forall|i: int| 0 <= i < before.len() ==> white_space(#[trigger] before[i]),
        s.len() > 0 ==> !white_space(s[0]),
    ensures
        trimmed_start(before + s) == s,
    decreases before.len(),
{
    let all = before + s;
    if before.len() > 0 {
        let rest = before.drop_first();
        assert forall|i: int| 0 <= i < rest.len() implies white_space(#[trigger] rest[i]) by {
            assert(rest[i] == before[i + 1]);
        }
        assert(white_space(before[0]));
        assert(all.drop_first() =~= rest + s);
        law_trimmed_start(rest, s);
    } else {
        assert(all =~= s);
    }
}

/// Where no quote is open and nothing is escaped, a bracket of each kind is counted: an opening one
/// up and a closing one down, also if none was open. Between quotes none is.
pub proof fn law_brackets_are_counted(s: Seq<char>)
    requires
        !enclosure_of(s).escaped,
    ensures
        ({
            let e = enclosure_of(s);
            let by = if e.quoted || e.single_quoted {
                0int
            } else {
                1int
            };
            &&& enclosure_of(s.push('[')) == Enclosure { brackets: e.brackets + by, ..e }
            &&& enclosure_of(s.push(']')) == Enclosure { brackets: e.brackets - by, ..e }
            &&& enclosure_of(s.push('{')) == Enclosure { braces: e.braces + by, ..e }
            &&& enclosure_of(s.push('}')) == Enclosure { braces: e.braces - by, ..e }
            &&& enclosure_of(s.push('(')) == Enclosure { parenthesis: e.parenthesis + by, ..e }
            &&& enclosure_of(s.push(')')) == Enclosure { parenthesis: e.parenthesis - by, ..e }
        }),
{
    assert(s.push('[').drop_last() =~= s);
    assert(s.push(']').drop_last() =~= s);
    assert(s.push('{').drop_last() =~= s);
    assert(s.push('}').drop_last() =~= s);
    assert(s.push('(').drop_last() =~= s);
    assert(s.push(')').drop_last() =~= s);
}

/// A quote opens and closes, unless one of the other kind is open.
pub proof fn law_quotes_open_and_close(s: Seq<char>)
    requires
        !enclosure_of(s).escaped,
    ensures
        ({
            let e = enclosure_of(s);
            let double = enclosure_of(s.push('"'));
            let single = enclosure_of(s.push('\''));
            &&& e.single_quoted ==> double == e
            &&& !e.single_quoted ==> double == Enclosure { quoted: !e.quoted, ..e }
            &&& e.quoted ==> single == e
            &&& !e.quoted ==> single == Enclosure { single_quoted: !e.single_quoted, ..e }
        }),
{
    assert(s.push('"').drop_last() =~= s);
    assert(s.push('\'').drop_last() =~= s);
}

} // verus!

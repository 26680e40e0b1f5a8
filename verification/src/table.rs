//! What becomes of the entries of an inline table.

use vstd::prelude::*;

use crate::abort::Abort;
use crate::defaults::{entries_of, lines_of, table_lines, table_of};
use crate::enclosure::{cut_once_unenclosed, enclosure_of, first_unenclosed, joined, no_enclosure};
use crate::enclosure::{law_cut_once_unenclosed, law_enclosure_restarts, law_first_unenclosed};
use crate::enclosure::{law_joined_pieces, law_pieces_hold_no_unenclosed};
use crate::enclosure::{law_pieces_leave_nothing_open, law_unenclosed};
use crate::enclosure::{lemma_enclosure_padded, lemma_not_escaped, lemma_pieces_lack};
use crate::enclosure::{lemma_pieces_nonempty, lemma_unenclosed_before, lemma_unenclosed_behind};
use crate::enclosure::{lemma_without_unenclosed_append, pieces, unenclosed, without_unenclosed};
use crate::text::{cut_once, law_cut_once, law_trimmed_ends, law_trimmed_of_padded};
use crate::text::{law_trimmed_twice, lemma_trimmed_between, trimmed, white_space};

verus! {

/// The line of an entry.
pub open spec fn entry_line(entry: (Seq<char>, Seq<char>)) -> Seq<char> {
    entry.0 + " = "@ + entry.1
}

/// The lines of entries.
pub open spec fn entry_lines(entries: Seq<(Seq<char>, Seq<char>)>) -> Seq<Seq<char>> {
    entries.map_values(|entry: (Seq<char>, Seq<char>)| entry_line(entry))
}

/// A line without the carriage return at its end.
pub open spec fn without_return(line: Seq<char>) -> Seq<char> {
    if line.len() > 0 && line.last() == '\r' {
        line.drop_last()
    } else {
        line
    }
}

/// The lines of a text, which end with a line feed, or a carriage return and a line feed. The last
/// may lack its end.
pub open spec fn text_lines(s: Seq<char>) -> Seq<Seq<char>>
    decreases s.len(),
{
    if s.len() == 0 {
        seq![]
    } else {
        proof {
            law_cut_once(s, '\n');
        }
        match cut_once(s, '\n') {
            Some((line, rest)) => seq![without_return(line)] + text_lines(rest),
            None => seq![s],
        }
    }
}

/// White space leaves nothing open.
proof fn lemma_white_space_leaves_nothing_open(s: Seq<char>)
    requires
        forall|i: int| 0 <= i < s.len() ==> white_space(#[trigger] s[i]),
    ensures
        enclosure_of(s) == no_enclosure(),
{
    lemma_enclosure_padded(seq![], s);
    assert(Seq::<char>::empty() + s =~= s);
}

/// Trimming adds no character.
proof fn lemma_trimmed_lacks(s: Seq<char>, c: char)
    requires
        !s.contains(c),
    ensures
        !trimmed(s).contains(c),
{
    let (before, _) = lemma_trimmed_between(s);
    let t = trimmed(s);
    if t.contains(c) {
        let i = choose|i: int| 0 <= i < t.len() && t[i] == c;
        assert(s[before.len() + i] == c);
    }
}

/// Trimming a text without backslashes changes nothing of what is enclosed and what is left open.
proof fn lemma_trimmed_enclosure(s: Seq<char>, pat: char)
    requires
        !s.contains('\\'),
    ensures
        enclosure_of(trimmed(s)) == enclosure_of(s),
        without_unenclosed(s, pat) ==> without_unenclosed(trimmed(s), pat),
{
    let (before, behind) = lemma_trimmed_between(s);
    let t = trimmed(s);
    lemma_trimmed_lacks(s, '\\');
    lemma_not_escaped(t);
    lemma_white_space_leaves_nothing_open(before);
    assert(s =~= before + (t + behind));
    law_enclosure_restarts(before, t + behind);
    lemma_enclosure_padded(t, behind);
    if without_unenclosed(s, pat) {
        lemma_without_unenclosed_append(before, t + behind, pat);
        assert forall|i: int| 0 <= i < t.len() implies !#[trigger] unenclosed(t, i, pat) by {
            lemma_unenclosed_before(t, behind, i, pat);
            assert(!unenclosed(t + behind, i, pat));
        }
    }
}

/// A text whose first unenclosed equals sign stands at `n` is cut there when trimmed.
proof fn lemma_cut_of_trimmed(s: Seq<char>, n: int)
    requires
        0 <= n < s.len(),
        unenclosed(s, n, '='),
        forall|i: int| 0 <= i < n ==> !#[trigger] unenclosed(s, i, '='),
    ensures
        trimmed(s).len() > 0,
        cut_once_unenclosed(trimmed(s), '=') matches Some((key, value)) && trimmed(key) == trimmed(
            s.take(n),
        ) && trimmed(value) == trimmed(s.skip(n + 1)),
{
    let (before, behind) = lemma_trimmed_between(s);
    let t = trimmed(s);
    let none = Seq::<char>::empty();
    let m = n - before.len();
    lemma_white_space_leaves_nothing_open(before);
    assert(s =~= before + (t + behind));
    assert(s[n] == '=');
    if n < before.len() {
        assert(white_space(before[n]));
    }
    if m >= t.len() {
        assert(white_space(behind[m - t.len()]));
    }
    assert forall|i: int| 0 <= i < t.len() implies #[trigger] unenclosed(t, i, '=') == unenclosed(
        s,
        before.len() + i,
        '=',
    ) by {
        lemma_unenclosed_behind(before, t + behind, i, '=');
        lemma_unenclosed_before(t, behind, i, '=');
    }
    law_first_unenclosed(t, '=');
    assert(unenclosed(t, m, '='));
    if let Some(x) = first_unenclosed(t, '=') {
        if x < m {
            assert(!unenclosed(s, before.len() + x, '='));
        }
        assert(x == m);
    }
    law_trimmed_of_padded(before, t.take(m), none);
    assert(s.take(n) =~= before + t.take(m) + none);
    law_trimmed_of_padded(none, t.skip(m + 1), behind);
    assert(s.skip(n + 1) =~= none + t.skip(m + 1) + behind);
}

/// The line of an entry reads as the entry, and no comma in it is unenclosed.
spec fn reads_back(entry: (Seq<char>, Seq<char>)) -> bool {
    let line = entry_line(entry);
    &&& without_unenclosed(line, ',')
    &&& trimmed(line).len() > 0
    &&& cut_once_unenclosed(trimmed(line), '=') matches Some((key, value)) && trimmed(key)
        == entry.0 && trimmed(value) == entry.1
}

/// A key without unenclosed equals signs and commas and a value without unenclosed commas, both
/// trimmed, read back from their line, if the key leaves nothing open.
proof fn lemma_line_reads_back(key: Seq<char>, value: Seq<char>)
    requires
        trimmed(key) == key,
        trimmed(value) == value,
        enclosure_of(key) == no_enclosure(),
        without_unenclosed(key, '='),
        without_unenclosed(key, ','),
        without_unenclosed(value, ','),
    ensures
        reads_back((key, value)),
        enclosure_of(entry_line((key, value))) == enclosure_of(value),
{
    reveal_strlit(" = ");
    let sign = " = "@;
    let head = key + sign;
    let line = head + value;
    let n = key.len() as int + 1;
    let none = Seq::<char>::empty();
    let spaced = key.push(' ');
    assert(spaced.drop_last() =~= key);
    assert(spaced.push('=').drop_last() =~= spaced);
    assert(head =~= spaced.push('=').push(' '));
    assert(head.drop_last() =~= spaced.push('='));
    assert(enclosure_of(spaced) == no_enclosure());
    assert(enclosure_of(spaced.push('=')) == no_enclosure());
    assert(enclosure_of(head) == no_enclosure());
    assert(without_unenclosed(sign, ','));
    lemma_without_unenclosed_append(key, sign, ',');
    lemma_without_unenclosed_append(head, value, ',');
    law_enclosure_restarts(head, value);
    assert(line.take(n) =~= spaced);
    law_unenclosed(line, n, '=');
    assert(line[n] == '=');
    assert forall|i: int| 0 <= i < n implies !#[trigger] unenclosed(line, i, '=') by {
        if i < key.len() {
            assert(line =~= key + (sign + value));
            lemma_unenclosed_before(key, sign + value, i, '=');
            assert(!unenclosed(key, i, '='));
        } else {
            assert(line[i] == ' ');
        }
    }
    lemma_cut_of_trimmed(line, n);
    law_trimmed_of_padded(none, key, seq![' ']);
    assert(spaced =~= none + key + seq![' ']);
    law_trimmed_of_padded(seq![' '], value, none);
    assert(line.skip(n + 1) =~= seq![' '] + value + none);
}

/// The entry of a part of a table reads back from its line, which leaves open what the part leaves
/// open.
proof fn lemma_entry_reads_back(part: Seq<char>)
    requires
        !part.contains('\\'),
        without_unenclosed(part, ','),
    ensures
        cut_once_unenclosed(trimmed(part), '=') matches Some((key, value)) ==> {
            &&& reads_back((trimmed(key), trimmed(value)))
            &&& enclosure_of(entry_line((trimmed(key), trimmed(value)))) == enclosure_of(part)
        },
{
    let entry = trimmed(part);
    lemma_trimmed_lacks(part, '\\');
    lemma_trimmed_enclosure(part, ',');
    law_cut_once_unenclosed(entry, '=');
    if let Some((key, value)) = cut_once_unenclosed(entry, '=') {
        let n = key.len() as int;
        let head = key.push('=');
        law_unenclosed(entry, n, '=');
        assert(entry.take(n) =~= key);
        assert(head.drop_last() =~= key);
        assert(enclosure_of(head) == no_enclosure());
        law_enclosure_restarts(head, value);
        lemma_without_unenclosed_append(head, value, ',');
        assert(entry =~= key + (seq!['='] + value));
        lemma_without_unenclosed_append(key, seq!['='] + value, ',');
        assert forall|i: int| 0 <= i < n implies !#[trigger] unenclosed(key, i, '=') by {
            lemma_unenclosed_before(key, seq!['='] + value, i, '=');
        }
        assert forall|i: int| 0 <= i < key.len() implies key[i] != '\\' by {
            assert(entry[i] != '\\');
        }
        assert forall|i: int| 0 <= i < value.len() implies value[i] != '\\' by {
            assert(entry[n + 1 + i] != '\\');
        }
        lemma_trimmed_enclosure(key, '=');
        lemma_trimmed_enclosure(key, ',');
        lemma_trimmed_enclosure(value, ',');
        law_trimmed_twice(key);
        law_trimmed_twice(value);
        lemma_line_reads_back(trimmed(key), trimmed(value));
    }
}

/// The entries of the parts of a table read back from their lines. If the parts leave nothing open,
/// neither do the lines.
proof fn lemma_entries_read_back(parts: Seq<Seq<char>>, j: int)
    requires
        forall|k: int|
            #![trigger parts[k]]
            0 <= k < parts.len() ==> !parts[k].contains('\\') && without_unenclosed(parts[k], ','),
        entries_of(parts) is Ok,
        0 <= j < entries_of(parts)->Ok_0.len(),
    ensures
        reads_back(entries_of(parts)->Ok_0[j]),
        (forall|k: int|
            0 <= k < parts.len() ==> enclosure_of(#[trigger] parts[k]) == no_enclosure())
            ==> enclosure_of(entry_line(entries_of(parts)->Ok_0[j])) == no_enclosure(),
    decreases parts.len(),
{
    if parts.len() > 0 {
        let init = parts.drop_last();
        let before = entries_of(init)->Ok_0;
        assert(parts[parts.len() - 1] == parts.last());
        assert forall|k: int| #![trigger init[k]] 0 <= k < init.len() implies init[k] == parts[k] by {}
        if j < before.len() {
            lemma_entries_read_back(init, j);
        } else {
            lemma_entry_reads_back(parts.last());
        }
    }
}

/// A character that no part of a table has is in none of its keys and values.
proof fn lemma_entries_lack(parts: Seq<Seq<char>>, c: char, j: int)
    requires
        forall|k: int| 0 <= k < parts.len() ==> !(#[trigger] parts[k]).contains(c),
        entries_of(parts) is Ok,
        0 <= j < entries_of(parts)->Ok_0.len(),
    ensures
        !entries_of(parts)->Ok_0[j].0.contains(c),
        !entries_of(parts)->Ok_0[j].1.contains(c),
        trimmed(entries_of(parts)->Ok_0[j].1) == entries_of(parts)->Ok_0[j].1,
    decreases parts.len(),
{
    if parts.len() > 0 {
        let init = parts.drop_last();
        let before = entries_of(init)->Ok_0;
        assert(parts[parts.len() - 1] == parts.last());
        assert forall|k: int| 0 <= k < init.len() implies !(#[trigger] init[k]).contains(c) by {
            assert(init[k] == parts[k]);
        }
        if j < before.len() {
            lemma_entries_lack(init, c, j);
        } else {
            let entry = trimmed(parts.last());
            lemma_trimmed_lacks(parts.last(), c);
            law_cut_once_unenclosed(entry, '=');
            if let Some((key, value)) = cut_once_unenclosed(entry, '=') {
                assert forall|i: int| 0 <= i < key.len() implies key[i] != c by {
                    assert(entry[i] != c);
                }
                assert forall|i: int| 0 <= i < value.len() implies value[i] != c by {
                    assert(entry[key.len() + 1 + i] != c);
                }
                lemma_trimmed_lacks(key, c);
                lemma_trimmed_lacks(value, c);
                law_trimmed_twice(value);
            }
        }
    }
}

/// The lines of entries that read back have these entries.
proof fn lemma_lines_have_entries(entries: Seq<(Seq<char>, Seq<char>)>)
    requires
        forall|j: int| 0 <= j < entries.len() ==> reads_back(#[trigger] entries[j]),
    ensures
        entries_of(entry_lines(entries)) == Ok::<_, Abort<Seq<char>>>(entries),
    decreases entries.len(),
{
    if entries.len() == 0 {
        assert(entry_lines(entries) =~= seq![]);
        assert(entries =~= seq![]);
    } else {
        let init = entries.drop_last();
        assert forall|j: int| 0 <= j < init.len() implies reads_back(#[trigger] init[j]) by {
            assert(init[j] == entries[j]);
        }
        lemma_lines_have_entries(init);
        assert(reads_back(entries[entries.len() - 1]));
        assert(entry_lines(entries).drop_last() =~= entry_lines(init));
        assert(init.push(entries.last()) =~= entries);
    }
}

/// The entries of parts depend only on what is left of the parts when trimmed.
proof fn lemma_entries_of_trimmed(a: Seq<Seq<char>>, b: Seq<Seq<char>>)
    requires
        a.len() == b.len(),
        forall|k: int| #![trigger a[k]] 0 <= k < a.len() ==> trimmed(a[k]) == trimmed(b[k]),
    ensures
        entries_of(a) == entries_of(b),
    decreases a.len(),
{
    if a.len() > 0 {
        assert(trimmed(a[a.len() - 1]) == trimmed(b[b.len() - 1]));
        assert forall|k: int|
            #![trigger a.drop_last()[k]]
            0 <= k < a.len() - 1 implies trimmed(a.drop_last()[k]) == trimmed(b.drop_last()[k]) by {
            assert(a.drop_last()[k] == a[k]);
        }
        lemma_entries_of_trimmed(a.drop_last(), b.drop_last());
    }
}

/// White space in front of a text stands in its first piece.
proof fn lemma_pieces_behind_space(before: Seq<char>, s: Seq<char>)
    requires
        forall|i: int| 0 <= i < before.len() ==> white_space(#[trigger] before[i]),
    ensures
        pieces(before + s, ',') == pieces(s, ',').update(0, before + pieces(s, ',')[0]),
    decreases before.len() + s.len(),
{
    let all = before + s;
    lemma_pieces_nonempty(s, ',');
    if s.len() > 0 {
        let init = s.drop_last();
        let parts = pieces(init, ',');
        lemma_pieces_nonempty(init, ',');
        assert(all.drop_last() =~= before + init);
        lemma_pieces_behind_space(before, init);
        lemma_white_space_leaves_nothing_open(before);
        lemma_unenclosed_behind(before, s, s.len() - 1, ',');
        if parts.len() == 1 && !unenclosed(s, s.len() - 1, ',') {
            assert((before + parts[0]).push(s.last()) =~= before + parts[0].push(s.last()));
        }
        assert(pieces(all, ',') =~= pieces(s, ',').update(0, before + pieces(s, ',')[0]));
    } else if before.len() > 0 {
        let init = before.drop_last();
        assert forall|i: int| 0 <= i < init.len() implies white_space(#[trigger] init[i]) by {
            assert(init[i] == before[i]);
        }
        assert(all =~= before);
        assert(init + s =~= init);
        lemma_pieces_behind_space(init, s);
        assert(white_space(before[before.len() - 1]));
        assert(pieces(init, ',') =~= seq![init]);
        assert(init.push(before.last()) =~= before);
        assert(before + pieces(s, ',')[0] =~= before);
        assert(pieces(all, ',') =~= pieces(s, ',').update(0, before + pieces(s, ',')[0]));
    } else {
        assert(all =~= s);
        assert(before + pieces(s, ',')[0] =~= pieces(s, ',')[0]);
        assert(pieces(all, ',') =~= pieces(s, ',').update(0, before + pieces(s, ',')[0]));
    }
}

/// White space behind a text stands in its last piece.
proof fn lemma_pieces_before_space(s: Seq<char>, behind: Seq<char>)
    requires
        forall|i: int| 0 <= i < behind.len() ==> white_space(#[trigger] behind[i]),
    ensures
        pieces(s + behind, ',') == pieces(s, ',').drop_last().push(pieces(s, ',').last() + behind),
    decreases behind.len(),
{
    let parts = pieces(s, ',');
    let all = s + behind;
    lemma_pieces_nonempty(s, ',');
    if behind.len() == 0 {
        assert(all =~= s);
        assert(parts.last() + behind =~= parts.last());
        assert(parts =~= parts.drop_last().push(parts.last()));
    } else {
        let init = behind.drop_last();
        assert forall|i: int| 0 <= i < init.len() implies white_space(#[trigger] init[i]) by {
            assert(init[i] == behind[i]);
        }
        assert(white_space(behind[behind.len() - 1]));
        lemma_pieces_before_space(s, init);
        assert(all.drop_last() =~= s + init);
        assert((parts.last() + init).push(behind.last()) =~= parts.last() + behind);
        assert(pieces(all, ',') =~= parts.drop_last().push(parts.last() + behind));
    }
}

/// Trimming the body of a table changes none of its entries.
proof fn lemma_entries_of_body(body: Seq<char>)
    ensures
        entries_of(pieces(trimmed(body), ',')) == entries_of(pieces(body, ',')),
{
    let (before, behind) = lemma_trimmed_between(body);
    let t = trimmed(body);
    let none = Seq::<char>::empty();
    let a = pieces(t, ',');
    let b = pieces(before + t, ',');
    let c = pieces(body, ',');
    lemma_pieces_nonempty(t, ',');
    lemma_pieces_behind_space(before, t);
    lemma_pieces_before_space(before + t, behind);
    law_trimmed_of_padded(before, a[0], none);
    assert(before + a[0] + none =~= before + a[0]);
    lemma_entries_of_trimmed(a, b);
    law_trimmed_of_padded(none, b.last(), behind);
    assert(none + b.last() + behind =~= b.last() + behind);
    lemma_entries_of_trimmed(b, c);
}

/// The lines of the body of a table start with that of its first entry.
proof fn lemma_lines_start(entries: Seq<(Seq<char>, Seq<char>)>)
    requires
        entries.len() > 0,
    ensures
        lines_of(entries) == entry_line(entries[0]) + "\n"@ + lines_of(entries.drop_first()),
    decreases entries.len(),
{
    let rest = entries.drop_first();
    let init = entries.drop_last();
    if entries.len() == 1 {
        assert(init =~= seq![]);
        assert(rest =~= seq![]);
        assert(lines_of(entries) =~= entry_line(entries[0]) + "\n"@ + lines_of(rest));
    } else {
        lemma_lines_start(init);
        assert(init.drop_first() =~= rest.drop_last());
        assert(lines_of(entries) =~= entry_line(entries[0]) + "\n"@ + lines_of(rest));
    }
}

/// The lines of the body of a table are those of its entries.
proof fn lemma_lines_of_body(entries: Seq<(Seq<char>, Seq<char>)>)
    requires
        forall|j: int|
            #![trigger entries[j]]
            0 <= j < entries.len() ==> !entries[j].0.contains('\n') && !entries[j].1.contains('\n')
                && trimmed(entries[j].1) == entries[j].1,
    ensures
        text_lines(lines_of(entries)) == entry_lines(entries),
    decreases entries.len(),
{
    if entries.len() == 0 {
        assert(entry_lines(entries) =~= seq![]);
    } else {
        reveal_strlit(" = ");
        reveal_strlit("\n");
        let rest = entries.drop_first();
        let (key, value) = entries[0];
        let line = entry_line(entries[0]);
        let all = lines_of(entries);
        let n = line.len() as int;
        lemma_lines_start(entries);
        assert forall|j: int|
            #![trigger rest[j]]
            0 <= j < rest.len() implies !rest[j].0.contains('\n') && !rest[j].1.contains('\n')
            && trimmed(rest[j].1) == rest[j].1 by {
            assert(rest[j] == entries[j + 1]);
        }
        lemma_lines_of_body(rest);
        law_trimmed_ends(value);
        assert(without_return(line) == line);
        assert forall|i: int| 0 <= i < n implies all[i] != '\n' by {
            if i < key.len() {
                assert(key[i] != '\n');
            } else if i >= key.len() + 3 {
                assert(value[i - key.len() - 3] != '\n');
            }
        }
        assert(all[n] == '\n');
        all.index_of_first_ensures('\n');
        assert(all.take(n) =~= line);
        assert(all.skip(n + 1) =~= lines_of(rest));
        assert(seq![line] + entry_lines(rest) =~= entry_lines(entries));
    }
}

/// The lines of the body of an inline table are those of its entries, in order: the key, an equals
/// sign and the value. Joined by commas and put into braces again, they are a table with the same
/// entries: none is lost, merged or moved.
///
/// This is said of a table without backslashes and line ends.
pub proof fn law_table_round_trip(default: Seq<char>)
    requires
        table_of(default) is Ok,
        !default.contains('\\'),
        !default.contains('\n'),
    ensures
        table_lines(default) matches Ok(body) && {
            &&& body == lines_of(table_of(default)->Ok_0)
            &&& text_lines(body) == entry_lines(table_of(default)->Ok_0)
            &&& table_of("{"@ + joined(text_lines(body), ',') + "}"@) == table_of(default)
        },
{
    let outer = trimmed(default);
    let inner = outer.subrange(1, outer.len() - 1);
    let body = trimmed(inner);
    let parts = pieces(body, ',');
    let entries = table_of(default)->Ok_0;
    let lines = entry_lines(entries);
    lemma_trimmed_lacks(default, '\\');
    lemma_trimmed_lacks(default, '\n');
    assert forall|i: int| 0 <= i < inner.len() implies inner[i] != '\\' && inner[i] != '\n' by {
        assert(outer[i + 1] != '\\' && outer[i + 1] != '\n');
    }
    lemma_trimmed_lacks(inner, '\\');
    lemma_trimmed_lacks(inner, '\n');
    lemma_pieces_nonempty(body, ',');
    assert forall|k: int| #![trigger parts[k]] 0 <= k < parts.len() implies !parts[k].contains('\\')
        && !parts[k].contains('\n') && without_unenclosed(parts[k], ',') by {
        lemma_pieces_lack(body, ',', '\\', k);
        lemma_pieces_lack(body, ',', '\n', k);
        assert forall|i: int| 0 <= i < parts[k].len() implies !#[trigger] unenclosed(
            parts[k],
            i,
            ',',
        ) by {
            law_pieces_hold_no_unenclosed(body, ',', k, i);
        }
    }
    assert forall|j: int|
        #![trigger entries[j]]
        0 <= j < entries.len() implies reads_back(entries[j]) && !entries[j].0.contains('\n')
        && !entries[j].1.contains('\n') && trimmed(entries[j].1) == entries[j].1 by {
        lemma_entries_read_back(parts, j);
        lemma_entries_lack(parts, '\n', j);
    }
    lemma_lines_of_body(entries);
    lemma_lines_have_entries(entries);
    lemma_body_in_braces(joined(lines, ','));
    if entries.len() > 0 {
        let init = parts.drop_last();
        assert forall|k: int| #![trigger init[k]] 0 <= k < init.len() implies !init[k].contains('\\')
            && without_unenclosed(init[k], ',') && enclosure_of(init[k]) == no_enclosure() by {
            assert(init[k] == parts[k]);
            law_pieces_leave_nothing_open(body, ',', k);
        }
        let before = entries_of(init)->Ok_0;
        assert forall|j: int| 0 <= j < lines.len() - 1 implies enclosure_of(#[trigger] lines[j])
            == no_enclosure() by {
            assert(entries[j] == before[j]);
            lemma_entries_read_back(init, j);
        }
        assert forall|j: int| 0 <= j < lines.len() implies without_unenclosed(
            #[trigger] lines[j],
            ',',
        ) by {
            assert(reads_back(entries[j]));
        }
        law_joined_pieces(lines, ',');
    } else {
        assert(lines =~= seq![]);
        let nothing = seq![Seq::<char>::empty()];
        assert(pieces(joined(lines, ','), ',') =~= nothing);
        assert(nothing.drop_last() =~= seq![]);
        assert(trimmed(nothing.last()).len() == 0);
        assert(entries =~= seq![]);
    }
}

/// The entries of a body in braces are those of its pieces.
pub(crate) proof fn lemma_body_in_braces(body: Seq<char>)
    ensures
        table_of("{"@ + body + "}"@) == entries_of(pieces(body, ',')),
{
    reveal_strlit("{");
    reveal_strlit("}");
    let table = "{"@ + body + "}"@;
    assert(table[0] == '{' && table.last() == '}');
    assert(trimmed(table) == table);
    assert(table.subrange(1, table.len() - 1) =~= body);
    lemma_entries_of_body(body);
}

} // verus!

//! The parts of an expression: texts, and code between them.

use vstd::prelude::*;

use crate::text::starts_at;

verus! {

/// A part of an expression for a string.
pub enum Part {
    /// A text, which stands in a raw string.
    Text(Seq<char>),
    /// Code that adds something to a string, between two raw strings.
    Code(Seq<char>),
}

/// What starts the first raw string of an expression.
pub const RAW_START: &'static str = "r##\"";

/// What ends a raw string.
pub const RAW_END: &'static str = "\"##";

/// What makes a string of a raw string.
pub const RAW_STRING: &'static str = ".to_string()";

/// What starts a raw string behind code.
pub const RAW_AGAIN: &'static str = "+ &r##\"";

/// Code between two raw strings: it ends the one and starts the other.
pub open spec fn spliced(code: Seq<char>) -> Seq<char> {
    RAW_END@ + RAW_STRING@ + code + RAW_AGAIN@
}

/// What a part stands for, where `eval` says what code adds.
pub open spec fn meant(part: Part, eval: spec_fn(Seq<char>) -> Seq<char>) -> Seq<char> {
    match part {
        Part::Text(text) => text,
        Part::Code(code) => eval(code),
    }
}

/// What parts stand for, one behind the other.
pub open spec fn meaning(parts: Seq<Part>, eval: spec_fn(Seq<char>) -> Seq<char>) -> Seq<char>
    decreases parts.len(),
{
    if parts.len() == 0 {
        seq![]
    } else {
        meaning(parts.drop_last(), eval) + meant(parts.last(), eval)
    }
}

/// What writes code down between two raw strings.
pub open spec fn splicing() -> spec_fn(Seq<char>) -> Seq<char> {
    |code: Seq<char>| spliced(code)
}

/// The parts as they are written, one behind the other.
pub open spec fn rendered(parts: Seq<Part>) -> Seq<char> {
    meaning(parts, splicing())
}

/// The expression with these parts.
pub open spec fn expression_of(parts: Seq<Part>) -> Seq<char> {
    RAW_START@ + rendered(parts) + RAW_END@ + RAW_STRING@
}

/// What parts stand for is put together in their order.
pub proof fn law_meaning_append(
    first: Seq<Part>,
    second: Seq<Part>,
    eval: spec_fn(Seq<char>) -> Seq<char>,
)
    ensures
        meaning(first + second, eval) == meaning(first, eval) + meaning(second, eval),
    decreases second.len(),
{
    if second.len() == 0 {
        assert(first + second =~= first);
        assert(meaning(first, eval) + Seq::<char>::empty() =~= meaning(first, eval));
    } else {
        let init = second.drop_last();
        assert((first + second).drop_last() =~= first + init);
        law_meaning_append(first, init, eval);
        assert(meaning(first, eval) + meaning(init, eval) + meant(second.last(), eval) =~= meaning(
            first,
            eval,
        ) + (meaning(init, eval) + meant(second.last(), eval)));
    }
}

/// One part alone.
pub(crate) proof fn lemma_one_part(part: Part, eval: spec_fn(Seq<char>) -> Seq<char>)
    ensures
        meaning(seq![part], eval) == meant(part, eval),
{
    assert(seq![part].drop_last() =~= seq![]);
    assert(meaning(seq![part], eval) == meaning(seq![], eval) + meant(part, eval));
    assert(Seq::<char>::empty() + meant(part, eval) =~= meant(part, eval));
}

/// Two parts, one behind the other.
pub(crate) proof fn lemma_two_parts(
    first: Part,
    second: Part,
    eval: spec_fn(Seq<char>) -> Seq<char>,
)
    ensures
        meaning(seq![first, second], eval) == meant(first, eval) + meant(second, eval),
{
    lemma_one_part(first, eval);
    assert(seq![first, second].drop_last() =~= seq![first]);
}

/// Three parts, one behind the other.
pub(crate) proof fn lemma_three_parts(
    first: Part,
    second: Part,
    third: Part,
    eval: spec_fn(Seq<char>) -> Seq<char>,
)
    ensures
        meaning(seq![first, second, third], eval) == meant(first, eval) + meant(second, eval)
            + meant(third, eval),
{
    lemma_two_parts(first, second, eval);
    assert(seq![first, second, third].drop_last() =~= seq![first, second]);
}

/// The place where `mark` first stands in a text.
pub open spec fn place_of(s: Seq<char>, mark: Seq<char>) -> Option<int>
    decreases s.len(),
{
    if starts_at(s, 0, mark) {
        Some(0)
    } else if s.len() == 0 {
        None
    } else {
        match place_of(s.drop_first(), mark) {
            Some(i) => Some(i + 1),
            None => None,
        }
    }
}

/// A mark stands at its first place in a text, within the text.
pub proof fn law_mark_at_its_place(s: Seq<char>, mark: Seq<char>)
    ensures
        place_of(s, mark) matches Some(n) ==> starts_at(s, n, mark),
    decreases s.len(),
{
    if s.len() > 0 && !starts_at(s, 0, mark) {
        let rest = s.drop_first();
        law_mark_at_its_place(rest, mark);
        if let Some(n) = place_of(rest, mark) {
            assert(rest.subrange(n, n + mark.len()) =~= s.subrange(n + 1, n + 1 + mark.len()));
        }
    }
}

/// The place where the mark stands and before which it stands nowhere is the first.
proof fn lemma_place_of(s: Seq<char>, mark: Seq<char>, n: int)
    requires
        starts_at(s, n, mark),
        forall|i: int| 0 <= i < n ==> !starts_at(s, i, mark),
    ensures
        place_of(s, mark) == Some(n),
    decreases s.len(),
{
    if n > 0 {
        assert(!starts_at(s, 0, mark));
        let rest = s.drop_first();
        assert(rest.subrange(n - 1, n - 1 + mark.len()) =~= s.subrange(n, n + mark.len()));
        assert forall|i: int| 0 <= i < n - 1 implies !starts_at(rest, i, mark) by {
            assert(!starts_at(s, i + 1, mark));
            if starts_at(rest, i, mark) {
                assert(rest.subrange(i, i + mark.len()) =~= s.subrange(i + 1, i + 1 + mark.len()));
            }
        }
        lemma_place_of(rest, mark, n - 1);
    }
}

/// What an expression reads as from within its first raw string on: the text up to the end of the
/// raw string, then what the code adds that stands up to the next, and so on. `eval` says what
/// code adds.
pub open spec fn read_on(s: Seq<char>, eval: spec_fn(Seq<char>) -> Seq<char>) -> Option<Seq<char>>
    decreases s.len(),
{
    match place_of(s, RAW_END@) {
        Some(end) => {
            let text = s.take(end);
            let rest = s.skip(end + RAW_END@.len());
            proof {
                reveal_strlit("\"##");
                law_mark_at_its_place(s, RAW_END@);
            }
            if rest == RAW_STRING@ {
                Some(text)
            } else if starts_at(rest, 0, RAW_STRING@) {
                let behind = rest.skip(RAW_STRING@.len() as int);
                proof {
                    law_mark_at_its_place(behind, RAW_AGAIN@);
                }
                match place_of(behind, RAW_AGAIN@) {
                    Some(again) => match read_on(behind.skip(again + RAW_AGAIN@.len()), eval) {
                        Some(read) => Some(text + eval(behind.take(again)) + read),
                        None => None,
                    },
                    None => None,
                }
            } else {
                None
            }
        },
        None => None,
    }
}

/// What an expression reads as: a raw string made a string, to which code and raw strings add.
pub open spec fn read_expression(
    s: Seq<char>,
    eval: spec_fn(Seq<char>) -> Seq<char>,
) -> Option<Seq<char>> {
    if starts_at(s, 0, RAW_START@) {
        read_on(s.skip(RAW_START@.len() as int), eval)
    } else {
        None
    }
}

/// A text without the end of a raw string.
pub open spec fn is_raw_text(text: Seq<char>) -> bool {
    forall|i: int| 0 <= i < text.len() ==> !#[trigger] starts_at(text, i, RAW_END@)
}

/// Code without the start of a raw string that code ends with.
pub open spec fn is_raw_code(code: Seq<char>) -> bool {
    forall|i: int| 0 <= i < code.len() ==> !#[trigger] starts_at(code, i, RAW_AGAIN@)
}

/// The texts between code have no end of a raw string, and the code none of their starts, where
/// `text` stands in front of the parts.
pub open spec fn readable(text: Seq<char>, parts: Seq<Part>) -> bool
    decreases parts.len(),
{
    if parts.len() == 0 {
        is_raw_text(text)
    } else {
        match parts[0] {
            Part::Text(more) => readable(text + more, parts.drop_first()),
            Part::Code(code) => is_raw_text(text) && is_raw_code(code) && readable(
                seq![],
                parts.drop_first(),
            ),
        }
    }
}

/// The text behind the last code, where `text` stands in front of the parts.
pub open spec fn last_text(text: Seq<char>, parts: Seq<Part>) -> Seq<char>
    decreases parts.len(),
{
    if parts.len() == 0 {
        text
    } else {
        match parts[0] {
            Part::Text(more) => last_text(text + more, parts.drop_first()),
            Part::Code(_) => last_text(seq![], parts.drop_first()),
        }
    }
}

/// Parts can be read one behind the other, if the second can be read behind the last text of the
/// first.
pub proof fn law_readable_append(text: Seq<char>, first: Seq<Part>, second: Seq<Part>)
    requires
        readable(text, first),
        readable(last_text(text, first), second),
    ensures
        readable(text, first + second),
        last_text(text, first + second) == last_text(last_text(text, first), second),
    decreases first.len(),
{
    let all = first + second;
    if first.len() == 0 {
        assert(all =~= second);
    } else {
        assert(all[0] == first[0]);
        assert(all.drop_first() =~= first.drop_first() + second);
        match first[0] {
            Part::Text(more) => law_readable_append(text + more, first.drop_first(), second),
            Part::Code(_) => law_readable_append(seq![], first.drop_first(), second),
        }
    }
}

/// A text without double quotes has no end of a raw string.
pub(crate) proof fn lemma_raw_without_quotes(text: Seq<char>)
    requires
        !text.contains('"'),
    ensures
        is_raw_text(text),
{
    reveal_strlit("\"##");
    assert forall|i: int| 0 <= i < text.len() implies !#[trigger] starts_at(text, i, RAW_END@) by {
        assert(text[i] != '"');
        if starts_at(text, i, RAW_END@) {
            assert(text.subrange(i, i + 3)[0] == text[i]);
        }
    }
}

/// Two texts together have no end of a raw string, if neither has one and none lies across them.
pub(crate) proof fn lemma_raw_join(first: Seq<char>, second: Seq<char>)
    requires
        is_raw_text(first),
        is_raw_text(second),
        ({
            ||| first.len() == 0
            ||| second.len() == 0
            ||| second[0] != '#'
            ||| first.last() != '"' && (first.len() == 1 || first.last() != '#' || first[first.len()
                - 2] != '"')
        }),
    ensures
        is_raw_text(first + second),
{
    reveal_strlit("\"##");
    let mark = RAW_END@;
    let all = first + second;
    let n = first.len() as int;
    assert forall|i: int| 0 <= i < all.len() implies !#[trigger] starts_at(all, i, mark) by {
        if starts_at(all, i, mark) {
            let found = all.subrange(i, i + 3);
            assert(found[0] == all[i] && found[1] == all[i + 1] && found[2] == all[i + 2]);
            if i + 3 <= n {
                assert(found =~= first.subrange(i, i + 3));
                assert(starts_at(first, i, mark));
            } else if i >= n {
                assert(found =~= second.subrange(i - n, i - n + 3));
                assert(starts_at(second, i - n, mark));
            }
        }
    }
}

/// A text in a raw string ends where the raw string ends.
proof fn lemma_text_ends(text: Seq<char>, rest: Seq<char>)
    requires
        is_raw_text(text),
    ensures
        place_of(text + RAW_END@ + rest, RAW_END@) == Some(text.len() as int),
{
    reveal_strlit("\"##");
    let mark = RAW_END@;
    let all = text + mark + rest;
    let n = text.len() as int;
    assert(all.subrange(n, n + 3) =~= mark);
    assert forall|i: int| 0 <= i < n implies !starts_at(all, i, mark) by {
        assert(!starts_at(text, i, mark));
        if starts_at(all, i, mark) {
            if i + 3 <= n {
                assert(all.subrange(i, i + 3) =~= text.subrange(i, i + 3));
            } else {
                assert(all[n] == '"');
                assert(all.subrange(i, i + 3)[n - i] == all[n]);
            }
        }
    }
    lemma_place_of(all, mark, n);
}

/// Code ends where the next raw string starts.
proof fn lemma_code_ends(code: Seq<char>, rest: Seq<char>)
    requires
        is_raw_code(code),
    ensures
        place_of(code + RAW_AGAIN@ + rest, RAW_AGAIN@) == Some(code.len() as int),
{
    reveal_strlit("+ &r##\"");
    let mark = RAW_AGAIN@;
    let all = code + mark + rest;
    let n = code.len() as int;
    assert(all.subrange(n, n + 7) =~= mark);
    assert forall|i: int| 0 <= i < n implies !starts_at(all, i, mark) by {
        assert(!starts_at(code, i, mark));
        if starts_at(all, i, mark) {
            if i + 7 <= n {
                assert(all.subrange(i, i + 7) =~= code.subrange(i, i + 7));
            } else {
                assert(all[n] == '+');
                assert(all.subrange(i, i + 7)[n - i] == all[n]);
            }
        }
    }
    lemma_place_of(all, mark, n);
}

/// The last raw string reads as its text.
proof fn lemma_read_last(text: Seq<char>, eval: spec_fn(Seq<char>) -> Seq<char>)
    requires
        is_raw_text(text),
    ensures
        read_on(text + RAW_END@ + RAW_STRING@, eval) == Some(text),
{
    let s = text + RAW_END@ + RAW_STRING@;
    let n = text.len() as int;
    lemma_text_ends(text, RAW_STRING@);
    assert(s.skip(n + RAW_END@.len()) =~= RAW_STRING@);
    assert(s.take(n) =~= text);
}

/// A raw string with code behind it reads as its text and what the code adds, before what follows.
proof fn lemma_read_code(
    text: Seq<char>,
    code: Seq<char>,
    end: Seq<char>,
    eval: spec_fn(Seq<char>) -> Seq<char>,
)
    requires
        is_raw_text(text),
        is_raw_code(code),
    ensures
        read_on(text + (spliced(code) + end), eval) == match read_on(end, eval) {
            Some(read) => Some(text + eval(code) + read),
            None => None,
        },
{
    let behind = code + RAW_AGAIN@ + end;
    let rest = RAW_STRING@ + behind;
    let s = text + RAW_END@ + rest;
    let n = text.len() as int;
    reveal_strlit("+ &r##\"");
    lemma_text_ends(text, rest);
    lemma_code_ends(code, end);
    assert(s =~= text + (spliced(code) + end));
    assert(s.take(n) =~= text);
    assert(s.skip(n + RAW_END@.len()) =~= rest);
    assert(rest.len() > RAW_STRING@.len());
    assert(rest.subrange(0, RAW_STRING@.len() as int) =~= RAW_STRING@);
    assert(rest.skip(RAW_STRING@.len() as int) =~= behind);
    assert(behind.take(code.len() as int) =~= code);
    assert(behind.skip(code.len() as int + RAW_AGAIN@.len()) =~= end);
}

/// From within a raw string on, what was written is read.
proof fn lemma_read_on(text: Seq<char>, parts: Seq<Part>, eval: spec_fn(Seq<char>) -> Seq<char>)
    requires
        readable(text, parts),
    ensures
        read_on(text + (rendered(parts) + RAW_END@ + RAW_STRING@), eval) == Some(
            text + meaning(parts, eval),
        ),
    decreases parts.len(),
{
    if parts.len() == 0 {
        lemma_read_last(text, eval);
        assert(text + (rendered(parts) + RAW_END@ + RAW_STRING@) =~= text + RAW_END@ + RAW_STRING@);
        assert(text + meaning(parts, eval) =~= text);
    } else {
        let tail = parts.drop_first();
        let end = rendered(tail) + RAW_END@ + RAW_STRING@;
        let head = meant(parts[0], splicing());
        assert(parts =~= seq![parts[0]] + tail);
        law_meaning_append(seq![parts[0]], tail, splicing());
        law_meaning_append(seq![parts[0]], tail, eval);
        lemma_one_part(parts[0], splicing());
        lemma_one_part(parts[0], eval);
        assert(rendered(parts) + RAW_END@ + RAW_STRING@ =~= head + end);
        match parts[0] {
            Part::Text(more) => {
                lemma_read_on(text + more, tail, eval);
                assert(text + (more + end) =~= text + more + end);
                assert(text + more + meaning(tail, eval) =~= text + (more + meaning(tail, eval)));
            },
            Part::Code(code) => {
                let none = Seq::<char>::empty();
                lemma_read_on(none, tail, eval);
                assert(none + end =~= end);
                assert(none + meaning(tail, eval) =~= meaning(tail, eval));
                lemma_read_code(text, code, end, eval);
                assert(text + eval(code) + meaning(tail, eval) =~= text + (eval(code) + meaning(
                    tail,
                    eval,
                )));
            },
        }
    }
}

/// An expression reads as what its parts stand for, if no text has the end of a raw string and no
/// code the start of one.
pub proof fn law_expression_is_read(parts: Seq<Part>, eval: spec_fn(Seq<char>) -> Seq<char>)
    requires
        readable(seq![], parts),
    ensures
        read_expression(expression_of(parts), eval) == Some(meaning(parts, eval)),
{
    let none = Seq::<char>::empty();
    let s = expression_of(parts);
    lemma_read_on(none, parts, eval);
    assert(s.subrange(0, RAW_START@.len() as int) =~= RAW_START@);
    assert(s.skip(RAW_START@.len() as int) =~= none + (rendered(parts) + RAW_END@ + RAW_STRING@));
    assert(none + meaning(parts, eval) =~= meaning(parts, eval));
}

} // verus!

//! Operations on text, stated over sequences of characters.

use vstd::prelude::*;

verus! {

/// `String::push` appends one character to the end of the string.
pub assume_specification[ String::push ](s: &mut String, c: char)
    ensures
        final(s)@ == old(s)@.push(c),
;

/// A character with the Unicode property `White_Space`.
pub open spec fn white_space(c: char) -> bool {
    let code = c as u32;
    ||| 0x9 <= code <= 0xd
    ||| code == 0x20
    ||| code == 0x85
    ||| code == 0xa0
    ||| code == 0x1680
    ||| 0x2000 <= code <= 0x200a
    ||| code == 0x2028
    ||| code == 0x2029
    ||| code == 0x202f
    ||| code == 0x205f
    ||| code == 0x3000
}

/// Tells whether a character is white space.
pub fn is_white_space(c: char) -> (r: bool)
    ensures
        r == white_space(c),
{
    let code: u32 = c as u32;
    (0x9 <= code && code <= 0xd) || code == 0x20 || code == 0x85 || code == 0xa0 || code == 0x1680
        || (0x2000 <= code && code <= 0x200a) || code == 0x2028 || code == 0x2029 || code == 0x202f
        || code == 0x205f || code == 0x3000
}

/// The text starts with `c`.
pub open spec fn starts(s: Seq<char>, c: char) -> bool {
    s.len() > 0 && s[0] == c
}

/// `mark` stands at `i` of `s`.
pub open spec fn starts_at(s: Seq<char>, i: int, mark: Seq<char>) -> bool {
    0 <= i && i + mark.len() <= s.len() && s.subrange(i, i + mark.len()) == mark
}

/// `s` without the longest prefix whose characters all satisfy `p`.
pub open spec fn without_prefix_of(s: Seq<char>, p: spec_fn(char) -> bool) -> Seq<char>
    decreases s.len(),
{
    if s.len() > 0 && p(s[0]) {
        without_prefix_of(s.drop_first(), p)
    } else {
        s
    }
}

/// `s` without the longest suffix whose characters all satisfy `p`.
pub open spec fn without_suffix_of(s: Seq<char>, p: spec_fn(char) -> bool) -> Seq<char>
    decreases s.len(),
{
    if s.len() > 0 && p(s.last()) {
        without_suffix_of(s.drop_last(), p)
    } else {
        s
    }
}

/// `s` without the white space around it.
pub open spec fn trimmed(s: Seq<char>) -> Seq<char> {
    without_suffix_of(trimmed_start(s), |c: char| white_space(c))
}

/// `s` without the white space before it.
pub open spec fn trimmed_start(s: Seq<char>) -> Seq<char> {
    without_prefix_of(s, |c: char| white_space(c))
}

/// The predicate that holds of `c` alone.
pub open spec fn equal_to(c: char) -> spec_fn(char) -> bool {
    |x: char| x == c
}

/// `s` without the occurrences of `c` at both of its ends.
pub open spec fn trimmed_of(s: Seq<char>, c: char) -> Seq<char> {
    without_suffix_of(without_prefix_of(s, equal_to(c)), equal_to(c))
}

/// `s` without any number of repetitions of `prefix` at its start.
pub open spec fn without_repeated_prefix(s: Seq<char>, prefix: Seq<char>) -> Seq<char>
    decreases s.len(),
{
    if prefix.len() > 0 && prefix.is_prefix_of(s) {
        without_repeated_prefix(s.skip(prefix.len() as int), prefix)
    } else {
        s
    }
}

/// `s` with each occurrence of the character `from` replaced by the text `to`.
pub open spec fn replaced(s: Seq<char>, from: char, to: Seq<char>) -> Seq<char>
    decreases s.len(),
{
    if s.len() == 0 {
        seq![]
    } else {
        replaced(s.drop_last(), from, to) + if s.last() == from {
            to
        } else {
            seq![s.last()]
        }
    }
}

/// The texts before and after the first occurrence of `c` in `s`.
pub open spec fn cut_once(s: Seq<char>, c: char) -> Option<(Seq<char>, Seq<char>)> {
    if s.contains(c) {
        let i = s.index_of_first(c)->0;
        Some((s.take(i), s.skip(i + 1)))
    } else {
        None
    }
}

/// The lower case letter of an upper case letter of ASCII, any other character itself.
pub open spec fn lower(c: char) -> char {
    if 'A' <= c && c <= 'Z' {
        ((c as u32 + 32) as u32) as char
    } else {
        c
    }
}

/// The text in lower case, as far as ASCII goes.
pub open spec fn lowered(s: Seq<char>) -> Seq<char> {
    s.map_values(|c: char| lower(c))
}

/// The upper case letter of a lower case letter of ASCII, any other character itself.
pub open spec fn upper(c: char) -> char {
    if 'a' <= c && c <= 'z' {
        ((c as u32 - 32) as u32) as char
    } else {
        c
    }
}

/// The text in upper case, as far as ASCII goes.
pub open spec fn raised(s: Seq<char>) -> Seq<char> {
    s.map_values(|c: char| upper(c))
}

proof fn lemma_without_prefix_of(s: Seq<char>, p: spec_fn(char) -> bool, n: int)
    requires
        0 <= n <= s.len(),
        forall|i: int| 0 <= i < n ==> p(#[trigger] s[i]),
        n < s.len() ==> !p(s[n]),
    ensures
        without_prefix_of(s, p) == s.skip(n),
    decreases n,
{
    if n > 0 {
        assert(s[0] == s[0]);
        assert forall|i: int| 0 <= i < n - 1 implies p(#[trigger] s.drop_first()[i]) by {
            assert(s.drop_first()[i] == s[i + 1]);
        }
        lemma_without_prefix_of(s.drop_first(), p, n - 1);
        assert(s.drop_first().skip(n - 1) =~= s.skip(n));
    } else {
        assert(s.skip(0) =~= s);
    }
}

proof fn lemma_without_suffix_of(s: Seq<char>, p: spec_fn(char) -> bool, n: int)
    requires
        0 <= n <= s.len(),
        forall|i: int| n <= i < s.len() ==> p(#[trigger] s[i]),
        n > 0 ==> !p(s[n - 1]),
    ensures
        without_suffix_of(s, p) == s.take(n),
    decreases s.len() - n,
{
    if n < s.len() {
        assert(s.last() == s[s.len() - 1]);
        assert forall|i: int| n <= i < s.len() - 1 implies p(#[trigger] s.drop_last()[i]) by {
            assert(s.drop_last()[i] == s[i]);
        }
        lemma_without_suffix_of(s.drop_last(), p, n);
        assert(s.drop_last().take(n) =~= s.take(n));
    } else {
        assert(s.take(n) =~= s);
    }
}

proof fn lemma_prefix_length(s: Seq<char>, p: spec_fn(char) -> bool) -> (n: int)
    ensures
        0 <= n <= s.len(),
        forall|i: int| 0 <= i < n ==> p(#[trigger] s[i]),
        n < s.len() ==> !p(s[n]),
        without_prefix_of(s, p) == s.skip(n),
    decreases s.len(),
{
    if s.len() > 0 && p(s[0]) {
        let n = lemma_prefix_length(s.drop_first(), p) + 1;
        assert forall|i: int| 0 <= i < n implies p(#[trigger] s[i]) by {
            if i > 0 {
                assert(s[i] == s.drop_first()[i - 1]);
            }
        }
        lemma_without_prefix_of(s, p, n);
        n
    } else {
        assert(s.skip(0) =~= s);
        0
    }
}

proof fn lemma_suffix_start(s: Seq<char>, p: spec_fn(char) -> bool) -> (n: int)
    ensures
        0 <= n <= s.len(),
        forall|i: int| n <= i < s.len() ==> p(#[trigger] s[i]),
        n > 0 ==> !p(s[n - 1]),
        without_suffix_of(s, p) == s.take(n),
    decreases s.len(),
{
    if s.len() > 0 && p(s.last()) {
        let n = lemma_suffix_start(s.drop_last(), p);
        assert forall|i: int| n <= i < s.len() implies p(#[trigger] s[i]) by {
            if i < s.len() - 1 {
                assert(s[i] == s.drop_last()[i]);
            }
        }
        lemma_without_suffix_of(s, p, n);
        n
    } else {
        assert(s.take(s.len() as int) =~= s);
        s.len() as int
    }
}

/// A trimmed text neither starts nor ends with white space.
pub proof fn law_trimmed_ends(s: Seq<char>)
    ensures
        trimmed(s).len() > 0 ==> !white_space(trimmed(s)[0]) && !white_space(trimmed(s).last()),
{
    let p = |c: char| white_space(c);
    let n = lemma_prefix_length(s, p);
    let rest = s.skip(n);
    assert(trimmed_start(s) == rest);
    let m = lemma_suffix_start(rest, p);
    if m > 0 {
        assert(!p(s[n]));
        assert(!p(rest[m - 1]));
    }
}

/// A text that was trimmed stays as it is when trimmed again.
pub proof fn law_trimmed_twice(s: Seq<char>)
    ensures
        trimmed(trimmed(s)) == trimmed(s),
{
    law_trimmed_ends(s);
    let t = trimmed(s);
    let p = |c: char| white_space(c);
    lemma_without_prefix_of(t, p, 0);
    assert(t.skip(0) =~= t);
    assert(trimmed_start(t) == t);
    lemma_without_suffix_of(t, p, t.len() as int);
    assert(t.take(t.len() as int) =~= t);
}

/// A text is what is left of it when trimmed, between white space.
pub(crate) proof fn lemma_trimmed_between(s: Seq<char>) -> (around: (Seq<char>, Seq<char>))
    ensures
        s == around.0 + trimmed(s) + around.1,
        forall|i: int| 0 <= i < around.0.len() ==> white_space(#[trigger] around.0[i]),
        forall|i: int| 0 <= i < around.1.len() ==> white_space(#[trigger] around.1[i]),
{
    let p = |c: char| white_space(c);
    let n = lemma_prefix_length(s, p);
    let rest = s.skip(n);
    assert(trimmed_start(s) == rest);
    let m = lemma_suffix_start(rest, p);
    let before = s.take(n);
    let behind = rest.skip(m);
    assert(s =~= before + trimmed(s) + behind);
    assert forall|i: int| 0 <= i < before.len() implies white_space(#[trigger] before[i]) by {
        assert(p(s[i]));
    }
    assert forall|i: int| 0 <= i < behind.len() implies white_space(#[trigger] behind[i]) by {
        assert(p(rest[m + i]));
    }
    (before, behind)
}

/// White space around a text makes no difference when it is trimmed.
pub proof fn law_trimmed_of_padded(before: Seq<char>, s: Seq<char>, behind: Seq<char>)
    requires
        forall|i: int| 0 <= i < before.len() ==> white_space(#[trigger] before[i]),
        forall|i: int| 0 <= i < behind.len() ==> white_space(#[trigger] behind[i]),
    ensures
        trimmed(before + s + behind) == trimmed(s),
    decreases before.len() + behind.len(),
{
    if before.len() > 0 {
        let all = before + s + behind;
        let init = before.drop_first();
        assert(all.drop_first() =~= init + s + behind);
        assert(white_space(before[0]));
        assert(all[0] == before[0]);
        assert forall|i: int| 0 <= i < init.len() implies white_space(#[trigger] init[i]) by {
            assert(init[i] == before[i + 1]);
        }
        law_trimmed_of_padded(init, s, behind);
    } else if behind.len() > 0 {
        let init = behind.drop_last();
        assert forall|i: int| 0 <= i < init.len() implies white_space(#[trigger] init[i]) by {
            assert(init[i] == behind[i]);
        }
        assert(white_space(behind[behind.len() - 1]));
        law_trimmed_of_padded(before, s, init);
        lemma_trimmed_push(before + s + init, behind.last());
        assert((before + s + init).push(behind.last()) =~= before + s + behind);
    } else {
        assert(before + s + behind =~= s);
    }
}

proof fn lemma_trimmed_push(s: Seq<char>, c: char)
    requires
        white_space(c),
    ensures
        trimmed(s.push(c)) == trimmed(s),
{
    let p = |c: char| white_space(c);
    let n = lemma_prefix_length(s, p);
    let all = s.push(c);
    if n < s.len() {
        assert forall|i: int| 0 <= i < n implies p(#[trigger] all[i]) by {
            assert(all[i] == s[i]);
        }
        lemma_without_prefix_of(all, p, n);
        assert(all.skip(n) =~= s.skip(n).push(c));
        assert(s.skip(n).push(c).drop_last() =~= s.skip(n));
        assert(p(c));
    } else {
        assert forall|i: int| 0 <= i < all.len() implies p(#[trigger] all[i]) by {
            if i < s.len() {
                assert(all[i] == s[i]);
            }
        }
        lemma_without_prefix_of(all, p, all.len() as int);
        assert(all.skip(all.len() as int) =~= s.skip(n));
    }
}

/// A text that is cut once is the text before the cut, the character cut at, which the text before
/// does not have, and the text behind. Only a text without the character is not cut.
pub proof fn law_cut_once(s: Seq<char>, c: char)
    ensures
        match cut_once(s, c) {
            Some((before, after)) => s == before.push(c) + after && !before.contains(c),
            None => !s.contains(c),
        },
{
    if s.contains(c) {
        s.index_of_first_ensures(c);
        let i = s.index_of_first(c)->0;
        assert(s =~= s.take(i).push(c) + s.skip(i + 1));
        if s.take(i).contains(c) {
            let j = choose|j: int| 0 <= j < i && s.take(i)[j] == c;
            assert(s[j] == c);
        }
    }
}

/// No occurrence of a character is left where each was replaced by a text without it.
pub proof fn law_replaced_has_none(s: Seq<char>, from: char, to: Seq<char>)
    requires
        !to.contains(from),
    ensures
        !replaced(s, from, to).contains(from),
    decreases s.len(),
{
    if s.len() > 0 {
        law_replaced_has_none(s.drop_last(), from, to);
        let before = replaced(s.drop_last(), from, to);
        let added = if s.last() == from {
            to
        } else {
            seq![s.last()]
        };
        if (before + added).contains(from) {
            let i = choose|i: int| 0 <= i < (before + added).len() && (before + added)[i] == from;
            if i < before.len() {
                assert(before[i] == from);
            } else {
                assert(added[i - before.len()] == from);
            }
        }
    }
}

/// A text without a character stays as it is when the character is replaced.
pub proof fn law_replaced_nothing(s: Seq<char>, from: char, to: Seq<char>)
    requires
        !s.contains(from),
    ensures
        replaced(s, from, to) == s,
    decreases s.len(),
{
    if s.len() > 0 {
        assert(s[s.len() - 1] == s.last());
        assert forall|i: int| 0 <= i < s.len() - 1 implies s.drop_last()[i] != from by {
            assert(s[i] != from);
        }
        law_replaced_nothing(s.drop_last(), from, to);
        assert(s.drop_last() + seq![s.last()] =~= s);
    }
}

/// The characters of a text, in order.
pub fn chars_of(s: &str) -> (r: Vec<char>)
    ensures
        r@ == s@,
{
    let mut chars: Vec<char> = Vec::new();
    for c in it: s.chars()
        invariant
            chars@ == s@.take(it.index()),
            it.seq() == s@,
    {
        proof {
            assert(s@.take(it.index() + 1) =~= s@.take(it.index()).push(c));
        }
        chars.push(c);
    }
    proof {
        assert(s@.take(s@.len() as int) =~= s@);
    }
    chars
}

/// The lower case letter of an upper case letter of ASCII, any other character itself.
pub fn to_lower(c: char) -> (r: char)
    ensures
        r == lower(c),
{
    if 'A' <= c && c <= 'Z' {
        (c as u8 + 32) as char
    } else {
        c
    }
}

/// The upper case letter of a lower case letter of ASCII, any other character itself.
pub fn to_upper(c: char) -> (r: char)
    ensures
        r == upper(c),
{
    if 'a' <= c && c <= 'z' {
        (c as u8 - 32) as char
    } else {
        c
    }
}

/// Tells whether two texts are the same.
pub fn same_text(a: &str, b: &str) -> (r: bool)
    ensures
        r == (a@ == b@),
{
    a.to_owned() == b.to_owned()
}

/// Tells whether a text starts with another.
pub fn starts_with(s: &str, prefix: &str) -> (r: bool)
    ensures
        r == prefix@.is_prefix_of(s@),
{
    let n: usize = prefix.unicode_len();
    if n > s.unicode_len() {
        return false;
    }
    proof {
        assert(s@.take(n as int) =~= s@.subrange(0, n as int));
    }
    same_text(s.substring_char(0, n), prefix)
}

/// Tells whether a text starts with a character.
pub fn starts_with_char(s: &str, c: char) -> (r: bool)
    ensures
        r == starts(s@, c),
{
    s.unicode_len() > 0 && s.get_char(0) == c
}

/// The text without the white space before it.
pub fn trim_start(s: &str) -> (r: &str)
    ensures
        r@ == trimmed_start(s@),
{
    let chars = chars_of(s);
    let len: usize = chars.len();
    let mut from: usize = 0;
    while from < len && is_white_space(chars[from])
        invariant
            from <= len == chars@.len(),
            forall|i: int| 0 <= i < from ==> white_space(#[trigger] chars@[i]),
        decreases len - from,
    {
        from += 1;
    }
    proof {
        lemma_without_prefix_of(s@, |c: char| white_space(c), from as int);
        assert(s@.subrange(from as int, len as int) =~= s@.skip(from as int));
    }
    s.substring_char(from, len)
}

/// The text without the white space around it.
pub fn trim(s: &str) -> (r: &str)
    ensures
        r@ == trimmed(s@),
{
    let rest = trim_start(s);
    let chars = chars_of(rest);
    let mut to: usize = chars.len();
    while to > 0 && is_white_space(chars[to - 1])
        invariant
            to <= chars@.len(),
            forall|i: int| to <= i < chars@.len() ==> white_space(#[trigger] chars@[i]),
        decreases to,
    {
        to -= 1;
    }
    proof {
        lemma_without_suffix_of(rest@, |c: char| white_space(c), to as int);
        assert(rest@.subrange(0, to as int) =~= rest@.take(to as int));
    }
    rest.substring_char(0, to)
}

/// The text without the occurrences of `c` at its ends.
pub fn trim_matches(s: &str, c: char) -> (r: &str)
    ensures
        r@ == trimmed_of(s@, c),
{
    let chars = chars_of(s);
    let len: usize = chars.len();
    let mut from: usize = 0;
    while from < len && chars[from] == c
        invariant
            from <= len == chars@.len(),
            forall|i: int| 0 <= i < from ==> #[trigger] chars@[i] == c,
        decreases len - from,
    {
        from += 1;
    }
    let mut to: usize = len;
    while to > from && chars[to - 1] == c
        invariant
            from <= to <= len == chars@.len(),
            forall|i: int| to <= i < len ==> #[trigger] chars@[i] == c,
        decreases to,
    {
        to -= 1;
    }
    proof {
        let is_c = equal_to(c);
        lemma_without_prefix_of(s@, is_c, from as int);
        let rest = s@.skip(from as int);
        assert forall|i: int| to - from <= i < rest.len() implies is_c(#[trigger] rest[i]) by {
            assert(rest[i] == s@[i + from]);
        }
        lemma_without_suffix_of(rest, is_c, to - from);
        assert(s@.subrange(from as int, to as int) =~= rest.take(to - from));
    }
    s.substring_char(from, to)
}

/// The text without the repetitions of `prefix` at its start.
pub fn trim_start_matches<'a>(s: &'a str, prefix: &str) -> (r: &'a str)
    ensures
        r@ == without_repeated_prefix(s@, prefix@),
{
    let n: usize = prefix.unicode_len();
    if n == 0 {
        return s;
    }
    let mut rest: &'a str = s;
    while starts_with(rest, prefix)
        invariant
            n == prefix@.len() > 0,
            without_repeated_prefix(rest@, prefix@) == without_repeated_prefix(s@, prefix@),
        decreases rest@.len(),
    {
        let len: usize = rest.unicode_len();
        proof {
            assert(rest@.subrange(n as int, len as int) =~= rest@.skip(n as int));
        }
        rest = rest.substring_char(n, len);
    }
    rest
}

/// The text with each occurrence of the character `from` replaced by `to`.
pub fn replace(s: &str, from: char, to: &str) -> (r: String)
    ensures
        r@ == replaced(s@, from, to@),
{
    let chars = chars_of(s);
    let len: usize = chars.len();
    let mut out = String::new();
    let mut i: usize = 0;
    while i < len
        invariant
            i <= len == chars@.len(),
            out@ == replaced(chars@.take(i as int), from, to@),
        decreases len - i,
    {
        proof {
            assert(chars@.take(i + 1).drop_last() =~= chars@.take(i as int));
        }
        let c = chars[i];
        if c == from {
            out.append(to);
        } else {
            out.push(c);
            proof {
                assert(out@ =~= replaced(chars@.take(i as int), from, to@) + seq![c]);
            }
        }
        i += 1;
    }
    proof {
        assert(chars@.take(len as int) =~= s@);
    }
    out
}

/// The texts before and after the first occurrence of `c`.
pub fn split_once(s: &str, c: char) -> (r: Option<(&str, &str)>)
    ensures
        match r {
            Some(parts) => cut_once(s@, c) == Some((parts.0@, parts.1@)),
            None => cut_once(s@, c) is None,
        },
{
    let chars = chars_of(s);
    let len: usize = chars.len();
    let mut i: usize = 0;
    while i < len
        invariant
            i <= len == chars@.len(),
            chars@ == s@,
            forall|j: int| 0 <= j < i ==> #[trigger] chars@[j] != c,
        decreases len - i,
    {
        if chars[i] == c {
            proof {
                assert(s@[i as int] == c);
                s@.index_of_first_ensures(c);
                assert(s@.subrange(0, i as int) =~= s@.take(i as int));
                assert(s@.subrange(i + 1, len as int) =~= s@.skip(i + 1));
            }
            return Some((s.substring_char(0, i), s.substring_char(i + 1, len)));
        }
        i += 1;
    }
    None
}

} // verus!

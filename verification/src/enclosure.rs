//! Finding the characters of a text that are not enclosed in quotes, braces or the like.

use vstd::prelude::*;

use crate::text::{chars_of, white_space};

verus! {

/// What encloses the place behind a text.
pub struct Enclosure {
    /// A double quote is open.
    pub quoted: bool,
    /// A single quote is open.
    pub single_quoted: bool,
    /// Opening less closing square brackets.
    pub brackets: int,
    /// Opening less closing braces.
    pub braces: int,
    /// Opening less closing parentheses.
    pub parenthesis: int,
    /// The next character is escaped by a backslash.
    pub escaped: bool,
}

/// The enclosure in front of a text: none.
pub open spec fn no_enclosure() -> Enclosure {
    Enclosure {
        quoted: false,
        single_quoted: false,
        brackets: 0,
        braces: 0,
        parenthesis: 0,
        escaped: false,
    }
}

impl Enclosure {
    /// No quote is open, and each kind of bracket has been closed as often as opened.
    pub open spec fn balanced(self) -> bool {
        &&& !self.quoted
        &&& !self.single_quoted
        &&& self.brackets == 0
        &&& self.braces == 0
        &&& self.parenthesis == 0
    }

    /// `c` stands between quotes that it does not close.
    pub open spec fn quotes(self, c: char) -> bool {
        (self.quoted && c != '"') || (self.single_quoted && c != '\'')
    }

    /// The enclosure behind `c`, which follows a text with this enclosure.
    ///
    /// An escaped character and one between quotes change nothing.
    pub open spec fn after(self, c: char) -> Enclosure {
        if self.escaped {
            Enclosure { escaped: false, ..self }
        } else if c == '\\' {
            Enclosure { escaped: true, ..self }
        } else if self.quotes(c) {
            self
        } else {
            match c {
                '"' => Enclosure { quoted: !self.quoted, ..self },
                '\'' => Enclosure { single_quoted: !self.single_quoted, ..self },
                '[' => Enclosure { brackets: self.brackets + 1, ..self },
                ']' => Enclosure { brackets: self.brackets - 1, ..self },
                '{' => Enclosure { braces: self.braces + 1, ..self },
                '}' => Enclosure { braces: self.braces - 1, ..self },
                '(' => Enclosure { parenthesis: self.parenthesis + 1, ..self },
                ')' => Enclosure { parenthesis: self.parenthesis - 1, ..self },
                _ => self,
            }
        }
    }

    /// `c`, which follows a text with this enclosure, is an unenclosed `pat`.
    pub open spec fn finds(self, c: char, pat: char) -> bool {
        !self.escaped && c == pat && self.after(c).balanced()
    }
}

/// The enclosure behind the text `s`.
pub open spec fn enclosure_of(s: Seq<char>) -> Enclosure
    decreases s.len(),
{
    if s.len() == 0 {
        no_enclosure()
    } else {
        enclosure_of(s.drop_last()).after(s.last())
    }
}

/// The character at `i` of `s` is a `pat` that nothing encloses.
pub open spec fn unenclosed(s: Seq<char>, i: int, pat: char) -> bool {
    enclosure_of(s.take(i)).finds(s[i], pat)
}

/// `s` cut at each `pat` that nothing encloses, as the list of the texts between them.
pub open spec fn pieces(s: Seq<char>, pat: char) -> Seq<Seq<char>>
    decreases s.len(),
{
    if s.len() == 0 {
        seq![seq![]]
    } else {
        let before = pieces(s.drop_last(), pat);
        if unenclosed(s, s.len() - 1, pat) {
            before.push(seq![])
        } else {
            before.drop_last().push(before.last().push(s.last()))
        }
    }
}

/// The place of the first `pat` in `s` that nothing encloses.
pub open spec fn first_unenclosed(s: Seq<char>, pat: char) -> Option<int>
    decreases s.len(),
{
    if s.len() == 0 {
        None
    } else {
        match first_unenclosed(s.drop_last(), pat) {
            Some(i) => Some(i),
            None => if unenclosed(s, s.len() - 1, pat) {
                Some(s.len() - 1)
            } else {
                None
            },
        }
    }
}

/// The texts before and after the first `pat` in `s` that nothing encloses.
pub open spec fn cut_once_unenclosed(s: Seq<char>, pat: char) -> Option<(Seq<char>, Seq<char>)> {
    match first_unenclosed(s, pat) {
        Some(i) => Some((s.take(i), s.skip(i + 1))),
        None => None,
    }
}

/// The texts of `parts` with `separator` between them.
pub open spec fn joined(parts: Seq<Seq<char>>, separator: char) -> Seq<char>
    decreases parts.len(),
{
    if parts.len() == 0 {
        seq![]
    } else if parts.len() == 1 {
        parts[0]
    } else {
        joined(parts.drop_last(), separator).push(separator) + parts.last()
    }
}

/// A character that changes what encloses the text behind it.
pub open spec fn encloses(c: char) -> bool {
    ||| c == '\\' || c == '"' || c == '\''
    ||| c == '[' || c == ']' || c == '{' || c == '}' || c == '(' || c == ')'
}

/// A double and a single quote are never open at once.
pub proof fn law_one_quote_open(s: Seq<char>)
    ensures
        !(enclosure_of(s).quoted && enclosure_of(s).single_quoted),
    decreases s.len(),
{
    if s.len() > 0 {
        law_one_quote_open(s.drop_last());
    }
}

/// A character is found where it stands and nothing encloses it: no quote and no bracket is open,
/// and no backslash stands before it.
///
/// This is said of a character that is itself no quote, bracket or backslash.
pub proof fn law_unenclosed(s: Seq<char>, i: int, pat: char)
    requires
        !encloses(pat),
    ensures
        unenclosed(s, i, pat) <==> s[i] == pat && enclosure_of(s.take(i)) == no_enclosure(),
{
}

/// There is at least one piece.
pub(crate) proof fn lemma_pieces_nonempty(s: Seq<char>, pat: char)
    ensures
        pieces(s, pat).len() >= 1,
    decreases s.len(),
{
    if s.len() > 0 {
        lemma_pieces_nonempty(s.drop_last(), pat);
    }
}

/// The pieces of a text, with the character that it was cut at between them, are the text.
pub proof fn law_pieces_join(s: Seq<char>, pat: char)
    ensures
        joined(pieces(s, pat), pat) == s,
    decreases s.len(),
{
    if s.len() > 0 {
        let init = s.drop_last();
        let before = pieces(init, pat);
        lemma_pieces_nonempty(init, pat);
        law_pieces_join(init, pat);
        if unenclosed(s, s.len() - 1, pat) {
            assert(before.push(seq![]).drop_last() =~= before);
            assert(init.push(pat) + Seq::<char>::empty() =~= s);
        } else {
            let last = before.last().push(s.last());
            let parts = before.drop_last().push(last);
            assert(parts.drop_last() =~= before.drop_last());
            assert(joined(parts, pat) =~= joined(before, pat).push(s.last()));
            assert(init.push(s.last()) =~= s);
        }
    }
}

/// Between the last cut and the end of a text, the enclosure is that of the last piece.
proof fn lemma_last_piece_enclosure(s: Seq<char>, pat: char)
    requires
        !encloses(pat),
    ensures
        enclosure_of(pieces(s, pat).last()) == enclosure_of(s),
    decreases s.len(),
{
    if s.len() > 0 {
        let init = s.drop_last();
        lemma_pieces_nonempty(init, pat);
        lemma_last_piece_enclosure(init, pat);
        assert(s.take(s.len() - 1) =~= init);
        if !unenclosed(s, s.len() - 1, pat) {
            let last = pieces(init, pat).last();
            assert(last.push(s.last()).drop_last() =~= last);
        }
    }
}

/// No piece of a text has an unenclosed occurrence of the character that the text was cut at.
///
/// This is said of a character that is itself no quote, bracket or backslash.
pub proof fn law_pieces_hold_no_unenclosed(s: Seq<char>, pat: char, k: int, i: int)
    requires
        !encloses(pat),
        0 <= k < pieces(s, pat).len(),
        0 <= i < pieces(s, pat)[k].len(),
    ensures
        !unenclosed(pieces(s, pat)[k], i, pat),
    decreases s.len(),
{
    if s.len() > 0 {
        let init = s.drop_last();
        let before = pieces(init, pat);
        let parts = pieces(s, pat);
        lemma_pieces_nonempty(init, pat);
        if k < before.len() - 1 || unenclosed(s, s.len() - 1, pat) {
            assert(parts[k] == before[k]);
            law_pieces_hold_no_unenclosed(init, pat, k, i);
        } else {
            let last = before.last();
            assert(s.take(s.len() - 1) =~= init);
            if i < last.len() {
                law_pieces_hold_no_unenclosed(init, pat, k, i);
                assert(parts[k].take(i) =~= last.take(i));
            } else {
                lemma_last_piece_enclosure(init, pat);
                assert(parts[k].take(i) =~= last);
            }
        }
    }
}

/// A text without an unenclosed `pat` is its own only piece.
pub proof fn law_one_piece(s: Seq<char>, pat: char)
    requires
        forall|i: int| 0 <= i < s.len() ==> !unenclosed(s, i, pat),
    ensures
        pieces(s, pat) == seq![s],
    decreases s.len(),
{
    if s.len() > 0 {
        let init = s.drop_last();
        assert forall|i: int| 0 <= i < init.len() implies !unenclosed(init, i, pat) by {
            assert(init.take(i) =~= s.take(i));
            assert(!unenclosed(s, i, pat));
        }
        law_one_piece(init, pat);
        assert(init.push(s.last()) =~= s);
        assert(pieces(s, pat) =~= seq![s]);
    } else {
        assert(s =~= seq![]);
    }
}

/// The first unenclosed place is one, and no place before it is.
pub proof fn law_first_unenclosed(s: Seq<char>, pat: char)
    ensures
        match first_unenclosed(s, pat) {
            Some(n) => {
                &&& 0 <= n < s.len()
                &&& unenclosed(s, n, pat)
                &&& forall|i: int| 0 <= i < n ==> !unenclosed(s, i, pat)
            },
            None => forall|i: int| 0 <= i < s.len() ==> !unenclosed(s, i, pat),
        },
    decreases s.len(),
{
    if s.len() > 0 {
        let init = s.drop_last();
        law_first_unenclosed(init, pat);
        assert forall|i: int| 0 <= i < init.len() implies unenclosed(init, i, pat) == unenclosed(
            s,
            i,
            pat,
        ) by {
            assert(init.take(i) =~= s.take(i));
        }
    }
}

/// A text that is cut once is the text before the cut, the character cut at, which is the first that
/// nothing encloses, and the text behind. Only a text without such a character is not cut.
pub proof fn law_cut_once_unenclosed(s: Seq<char>, pat: char)
    ensures
        match cut_once_unenclosed(s, pat) {
            Some((before, after)) => {
                &&& s == before.push(pat) + after
                &&& unenclosed(s, before.len() as int, pat)
                &&& forall|i: int| 0 <= i < before.len() ==> !unenclosed(s, i, pat)
            },
            None => forall|i: int| 0 <= i < s.len() ==> !unenclosed(s, i, pat),
        },
{
    law_first_unenclosed(s, pat);
    if let Some(i) = first_unenclosed(s, pat) {
        assert(s =~= s.take(i).push(pat) + s.skip(i + 1));
    }
}

/// Behind a text that leaves nothing open, a text is enclosed as if it stood alone.
pub proof fn law_enclosure_restarts(first: Seq<char>, second: Seq<char>)
    requires
        enclosure_of(first) == no_enclosure(),
    ensures
        enclosure_of(first + second) == enclosure_of(second),
    decreases second.len(),
{
    let all = first + second;
    if second.len() == 0 {
        assert(all =~= first);
    } else {
        assert(all.drop_last() =~= first + second.drop_last());
        law_enclosure_restarts(first, second.drop_last());
    }
}

/// In a text behind one that leaves nothing open, the same characters are unenclosed as in the text
/// alone.
pub(crate) proof fn lemma_unenclosed_behind(first: Seq<char>, second: Seq<char>, i: int, pat: char)
    requires
        enclosure_of(first) == no_enclosure(),
        0 <= i < second.len(),
    ensures
        unenclosed(first + second, first.len() + i, pat) == unenclosed(second, i, pat),
{
    assert((first + second).take(first.len() + i) =~= first + second.take(i));
    law_enclosure_restarts(first, second.take(i));
}

/// What follows a text makes no difference to which of its characters are unenclosed.
pub(crate) proof fn lemma_unenclosed_before(first: Seq<char>, second: Seq<char>, i: int, pat: char)
    requires
        0 <= i < first.len(),
    ensures
        unenclosed(first + second, i, pat) == unenclosed(first, i, pat),
{
    assert((first + second).take(i) =~= first.take(i));
}

/// A text without an unenclosed `pat`.
pub open spec fn without_unenclosed(s: Seq<char>, pat: char) -> bool {
    forall|i: int| 0 <= i < s.len() ==> !#[trigger] unenclosed(s, i, pat)
}

/// Behind a text that leaves nothing open, a text without an unenclosed `pat` adds none.
pub(crate) proof fn lemma_without_unenclosed_append(first: Seq<char>, second: Seq<char>, pat: char)
    requires
        enclosure_of(first) == no_enclosure(),
    ensures
        without_unenclosed(first + second, pat) <==> without_unenclosed(first, pat)
            && without_unenclosed(second, pat),
{
    let all = first + second;
    let n = first.len() as int;
    assert forall|i: int| 0 <= i < n implies #[trigger] unenclosed(first, i, pat) == unenclosed(
        all,
        i,
        pat,
    ) by {
        lemma_unenclosed_before(first, second, i, pat);
    }
    assert forall|i: int| 0 <= i < second.len() implies #[trigger] unenclosed(second, i, pat)
        == unenclosed(all, n + i, pat) by {
        lemma_unenclosed_behind(first, second, i, pat);
    }
    if without_unenclosed(first, pat) && without_unenclosed(second, pat) {
        assert forall|i: int| 0 <= i < all.len() implies !#[trigger] unenclosed(all, i, pat) by {
            if i < n {
                assert(!unenclosed(first, i, pat));
            } else {
                assert(!unenclosed(second, i - n, pat));
            }
        }
    }
}

/// No character is escaped in a text without backslashes.
pub(crate) proof fn lemma_not_escaped(s: Seq<char>)
    requires
        !s.contains('\\'),
    ensures
        !enclosure_of(s).escaped,
    decreases s.len(),
{
    if s.len() > 0 {
        assert(s[s.len() - 1] == s.last());
        assert forall|i: int| 0 <= i < s.len() - 1 implies s.drop_last()[i] != '\\' by {
            assert(s[i] != '\\');
        }
        lemma_not_escaped(s.drop_last());
    }
}

/// White space behind a text encloses nothing, unless it is escaped.
pub(crate) proof fn lemma_enclosure_padded(s: Seq<char>, behind: Seq<char>)
    requires
        !enclosure_of(s).escaped,
        forall|i: int| 0 <= i < behind.len() ==> white_space(#[trigger] behind[i]),
    ensures
        enclosure_of(s + behind) == enclosure_of(s),
    decreases behind.len(),
{
    if behind.len() == 0 {
        assert(s + behind =~= s);
    } else {
        let init = behind.drop_last();
        assert((s + behind).drop_last() =~= s + init);
        assert(white_space(behind[behind.len() - 1]));
        assert forall|i: int| 0 <= i < init.len() implies white_space(#[trigger] init[i]) by {
            assert(init[i] == behind[i]);
        }
        lemma_enclosure_padded(s, init);
    }
}

/// Each piece of a text but the last leaves nothing open.
pub proof fn law_pieces_leave_nothing_open(s: Seq<char>, pat: char, k: int)
    requires
        !encloses(pat),
        0 <= k < pieces(s, pat).len() - 1,
    ensures
        enclosure_of(pieces(s, pat)[k]) == no_enclosure(),
    decreases s.len(),
{
    if s.len() > 0 {
        let init = s.drop_last();
        let before = pieces(init, pat);
        lemma_pieces_nonempty(init, pat);
        if unenclosed(s, s.len() - 1, pat) && k == before.len() - 1 {
            lemma_last_piece_enclosure(init, pat);
            assert(s.take(s.len() - 1) =~= init);
        } else {
            law_pieces_leave_nothing_open(init, pat, k);
        }
    }
}

/// A character that a text does not have is in none of its pieces.
pub(crate) proof fn lemma_pieces_lack(s: Seq<char>, pat: char, c: char, k: int)
    requires
        !s.contains(c),
        0 <= k < pieces(s, pat).len(),
    ensures
        !pieces(s, pat)[k].contains(c),
    decreases s.len(),
{
    if s.len() > 0 {
        let init = s.drop_last();
        let before = pieces(init, pat);
        lemma_pieces_nonempty(init, pat);
        assert(s[s.len() - 1] == s.last());
        assert forall|i: int| 0 <= i < init.len() implies init[i] != c by {
            assert(s[i] != c);
        }
        if k < before.len() {
            lemma_pieces_lack(init, pat, c, k);
            let piece = pieces(s, pat)[k];
            if piece.contains(c) {
                let i = choose|i: int| 0 <= i < piece.len() && piece[i] == c;
                if i < before[k].len() {
                    assert(before[k][i] == c);
                }
            }
        }
    }
}

/// A text that is added behind an unenclosed `pat`, and has none itself, is one more piece.
proof fn lemma_one_more_piece(s: Seq<char>, pat: char, piece: Seq<char>)
    requires
        !encloses(pat),
        enclosure_of(s) == no_enclosure(),
        without_unenclosed(piece, pat),
    ensures
        pieces(s.push(pat) + piece, pat) == pieces(s, pat).push(piece),
    decreases piece.len(),
{
    let all = s.push(pat) + piece;
    assert(s.push(pat).drop_last() =~= s);
    assert(s.push(pat).take(s.len() as int) =~= s);
    if piece.len() == 0 {
        assert(all =~= s.push(pat));
        assert(piece =~= seq![]);
    } else {
        let init = piece.drop_last();
        assert(all.drop_last() =~= s.push(pat) + init);
        assert forall|i: int| 0 <= i < init.len() implies !#[trigger] unenclosed(init, i, pat) by {
            assert(init.take(i) =~= piece.take(i));
            assert(!unenclosed(piece, i, pat));
        }
        lemma_one_more_piece(s, pat, init);
        lemma_unenclosed_behind(s.push(pat), piece, piece.len() - 1, pat);
        assert(!unenclosed(piece, piece.len() - 1, pat));
        assert(init.push(piece.last()) =~= piece);
        assert(pieces(s, pat).push(init).drop_last() =~= pieces(s, pat));
    }
}

/// Texts that leave nothing open leave nothing open when joined.
proof fn lemma_joined_enclosure(parts: Seq<Seq<char>>, pat: char)
    requires
        !encloses(pat),
        forall|k: int| 0 <= k < parts.len() ==> enclosure_of(#[trigger] parts[k]) == no_enclosure(),
    ensures
        enclosure_of(joined(parts, pat)) == no_enclosure(),
    decreases parts.len(),
{
    if parts.len() > 1 {
        let init = parts.drop_last();
        assert forall|k: int| 0 <= k < init.len() implies enclosure_of(#[trigger] init[k])
            == no_enclosure() by {
            assert(init[k] == parts[k]);
        }
        lemma_joined_enclosure(init, pat);
        let before = joined(init, pat);
        assert(before.push(pat).drop_last() =~= before);
        assert(parts[parts.len() - 1] == parts.last());
        law_enclosure_restarts(before.push(pat), parts.last());
    } else if parts.len() == 1 {
        assert(parts[0] == joined(parts, pat));
    }
}

/// Texts that are joined are the pieces of what they are joined to, if none has an unenclosed
/// character like the one they are joined by, and each but the last leaves nothing open.
///
/// This is said of a character that is itself no quote, bracket or backslash.
pub proof fn law_joined_pieces(parts: Seq<Seq<char>>, pat: char)
    requires
        !encloses(pat),
        parts.len() > 0,
        forall|k: int| 0 <= k < parts.len() ==> without_unenclosed(#[trigger] parts[k], pat),
        forall|k: int|
            0 <= k < parts.len() - 1 ==> enclosure_of(#[trigger] parts[k]) == no_enclosure(),
    ensures
        pieces(joined(parts, pat), pat) == parts,
    decreases parts.len(),
{
    assert(without_unenclosed(parts[parts.len() - 1], pat));
    if parts.len() == 1 {
        law_one_piece(parts[0], pat);
        assert(parts =~= seq![parts[0]]);
    } else {
        let init = parts.drop_last();
        assert forall|k: int| 0 <= k < init.len() implies without_unenclosed(
            #[trigger] init[k],
            pat,
        ) && enclosure_of(init[k]) == no_enclosure() by {
            assert(init[k] == parts[k]);
        }
        law_joined_pieces(init, pat);
        lemma_joined_enclosure(init, pat);
        lemma_one_more_piece(joined(init, pat), pat, parts.last());
        assert(init.push(parts.last()) =~= parts);
    }
}

/// The search for a character that is not enclosed in quotes, braces or the like, which is
/// shown the characters of a text one after the other.
pub struct UnenclosedChar {
    pat: char,
    quoted: bool,
    single_quoted: bool,
    brackets: i128,
    braces: i128,
    parenthesis: i128,
    escaped: bool,
}

impl View for UnenclosedChar {
    type V = Enclosure;

    closed spec fn view(&self) -> Enclosure {
        Enclosure {
            quoted: self.quoted,
            single_quoted: self.single_quoted,
            brackets: self.brackets as int,
            braces: self.braces as int,
            parenthesis: self.parenthesis as int,
            escaped: self.escaped,
        }
    }
}

/// `n` can be counted up and down by one.
pub open spec fn countable(n: int) -> bool {
    i128::MIN < n < i128::MAX
}

impl UnenclosedChar {
    /// The character searched for.
    pub closed spec fn pattern(self) -> char {
        self.pat
    }

    /// Tells whether `c`, the next character of the text, is the one searched for and enclosed
    /// in nothing.
    pub fn accept(&mut self, c: char) -> (r: bool)
        requires
            countable(old(self)@.brackets),
            countable(old(self)@.braces),
            countable(old(self)@.parenthesis),
        ensures
            final(self)@ == old(self)@.after(c),
            final(self).pattern() == old(self).pattern(),
            r == old(self)@.finds(c, old(self).pattern()),
    {
        if self.escaped {
            self.escaped = false;
            return false;
        } else if c == '\\' {
            self.escaped = true;
        } else if (self.quoted && c != '"') || (self.single_quoted && c != '\'') {
            return false;
        } else if c == '"' {
            self.quoted = !self.quoted;
        } else if c == '\'' {
            self.single_quoted = !self.single_quoted;
        } else if c == '[' {
            self.brackets += 1;
        } else if c == ']' {
            self.brackets -= 1;
        } else if c == '{' {
            self.braces += 1;
        } else if c == '}' {
            self.braces -= 1;
        } else if c == '(' {
            self.parenthesis += 1;
        } else if c == ')' {
            self.parenthesis -= 1;
        }
        c == self.pat && !self.quoted && !self.single_quoted && self.brackets == 0 && self.braces
            == 0 && self.parenthesis == 0
    }
}

/// The search for the character `pat`, not enclosed in quotes, braces or the like.
pub fn find_unenclosed_char(pat: char) -> (r: UnenclosedChar)
    ensures
        r@ == no_enclosure(),
        r.pattern() == pat,
{
    UnenclosedChar {
        pat,
        quoted: false,
        single_quoted: false,
        brackets: 0,
        braces: 0,
        parenthesis: 0,
        escaped: false,
    }
}

/// A bracket count is at most the number of characters counted over.
proof fn lemma_counts_bounded(s: Seq<char>)
    ensures
        -s.len() <= enclosure_of(s).brackets <= s.len(),
        -s.len() <= enclosure_of(s).braces <= s.len(),
        -s.len() <= enclosure_of(s).parenthesis <= s.len(),
    decreases s.len(),
{
    if s.len() > 0 {
        lemma_counts_bounded(s.drop_last());
    }
}

/// Cuts a text at each `pat` that nothing encloses.
pub fn split_unenclosed(s: &str, pat: char) -> (r: Vec<String>)
    ensures
        r.deep_view() == pieces(s@, pat),
{
    let chars = chars_of(s);
    let len: usize = chars.len();
    let mut search = find_unenclosed_char(pat);
    let mut parts: Vec<String> = Vec::new();
    let mut part = String::new();
    let mut i: usize = 0;
    proof {
        assert(parts.deep_view().push(part@) =~= pieces(chars@.take(0), pat));
    }
    while i < len
        invariant
            i <= len == chars@.len(),
            search.pattern() == pat,
            search@ == enclosure_of(chars@.take(i as int)),
            parts.deep_view().push(part@) == pieces(chars@.take(i as int), pat),
        decreases len - i,
    {
        let c = chars[i];
        let ghost seen = chars@.take(i as int);
        let ghost now = chars@.take(i + 1);
        proof {
            lemma_counts_bounded(seen);
            assert(now.drop_last() =~= seen);
            assert(now.take(now.len() - 1) =~= seen);
        }
        let ghost old_parts = parts.deep_view();
        let ghost old_part = part@;
        if search.accept(c) {
            parts.push(part);
            part = String::new();
            proof {
                assert(parts.deep_view() =~= old_parts.push(old_part));
            }
        } else {
            part.push(c);
            proof {
                assert(old_parts.push(old_part).drop_last() =~= old_parts);
            }
        }
        i += 1;
    }
    let ghost last_parts = parts.deep_view();
    let ghost last_part = part@;
    parts.push(part);
    proof {
        assert(parts.deep_view() =~= last_parts.push(last_part));
        assert(chars@.take(len as int) =~= s@);
    }
    parts
}

/// Cuts a text at the first `pat` that nothing encloses.
pub fn split_once_unenclosed(s: &str, pat: char) -> (r: Option<(&str, &str)>)
    ensures
        match r {
            Some(parts) => cut_once_unenclosed(s@, pat) == Some((parts.0@, parts.1@)),
            None => cut_once_unenclosed(s@, pat) is None,
        },
{
    let chars = chars_of(s);
    let len: usize = chars.len();
    let mut search = find_unenclosed_char(pat);
    let mut i: usize = 0;
    while i < len
        invariant
            i <= len == chars@.len(),
            chars@ == s@,
            search.pattern() == pat,
            search@ == enclosure_of(chars@.take(i as int)),
            forall|j: int| 0 <= j < i ==> !unenclosed(s@, j, pat),
        decreases len - i,
    {
        let c = chars[i];
        proof {
            lemma_counts_bounded(chars@.take(i as int));
            assert(chars@.take(i + 1).drop_last() =~= chars@.take(i as int));
        }
        if search.accept(c) {
            proof {
                law_first_unenclosed(s@, pat);
                assert(unenclosed(s@, i as int, pat));
                assert(s@.subrange(0, i as int) =~= s@.take(i as int));
                assert(s@.subrange(i + 1, len as int) =~= s@.skip(i + 1));
            }
            return Some((s.substring_char(0, i), s.substring_char(i + 1, len)));
        }
        i += 1;
    }
    proof {
        law_first_unenclosed(s@, pat);
    }
    None
}

} // verus!

//! Which texts are read as numbers.

use vstd::prelude::*;

use crate::text::{chars_of, lower, lowered, starts, to_lower};

verus! {

/// A decimal digit.
pub open spec fn digit(c: char) -> bool {
    '0' <= c && c <= '9'
}

/// A text of one or more digits.
pub open spec fn digits(s: Seq<char>) -> bool {
    s.len() > 0 && forall|i: int| 0 <= i < s.len() ==> digit(#[trigger] s[i])
}

/// The number that a text of digits stands for.
pub open spec fn value_of(s: Seq<char>) -> nat
    decreases s.len(),
{
    if s.len() == 0 {
        0
    } else {
        10 * value_of(s.drop_last()) + (s.last() as nat - '0' as nat) as nat
    }
}

/// A text of digits whose number is at most `max`.
pub open spec fn digits_up_to(s: Seq<char>, max: nat) -> bool {
    digits(s) && value_of(s) <= max
}

/// A text that is read as an unsigned integer of 128 bits: an optional `+`, then digits.
pub open spec fn unsigned_text(s: Seq<char>) -> bool {
    if starts(s, '+') {
        digits_up_to(s.skip(1), u128::MAX as nat)
    } else {
        digits_up_to(s, u128::MAX as nat)
    }
}

/// A text that is read as a signed integer of 128 bits: an optional `+` or `-`, then digits.
pub open spec fn signed_text(s: Seq<char>) -> bool {
    if starts(s, '-') {
        digits_up_to(s.skip(1), (i128::MAX + 1) as nat)
    } else if starts(s, '+') {
        digits_up_to(s.skip(1), i128::MAX as nat)
    } else {
        digits_up_to(s, i128::MAX as nat)
    }
}

/// The number of digits that a text starts with.
pub open spec fn digit_run(s: Seq<char>) -> nat
    decreases s.len(),
{
    if s.len() > 0 && digit(s[0]) {
        1 + digit_run(s.drop_first())
    } else {
        0
    }
}

/// An exponent: `e` or `E`, an optional sign, then digits.
pub open spec fn exponent(s: Seq<char>) -> bool {
    &&& starts(s, 'e') || starts(s, 'E')
    &&& digits(unsigned_part(s.skip(1)))
}

/// The text without a sign at its start.
pub open spec fn unsigned_part(s: Seq<char>) -> Seq<char> {
    if starts(s, '+') || starts(s, '-') {
        s.skip(1)
    } else {
        s
    }
}

/// Digits with an optional point among or beside them, then an optional exponent.
pub open spec fn decimal(s: Seq<char>) -> bool {
    let whole = digit_run(s);
    let rest = s.skip(whole as int);
    let fraction = digit_run(rest.skip(1));
    if starts(rest, '.') {
        let tail = rest.skip(1 + fraction as int);
        whole + fraction > 0 && (tail.len() == 0 || exponent(tail))
    } else {
        whole > 0 && (rest.len() == 0 || exponent(rest))
    }
}

/// A text that is read as a floating-point number: an optional sign, then `inf`, `infinity` or
/// `nan` in any case, or a decimal number.
pub open spec fn float_text(s: Seq<char>) -> bool {
    let number = unsigned_part(s);
    ||| lowered(number) == "inf"@
    ||| lowered(number) == "infinity"@
    ||| lowered(number) == "nan"@
    ||| decimal(number)
}

proof fn lemma_value_grows(s: Seq<char>, n: int)
    requires
        0 <= n <= s.len(),
    ensures
        value_of(s.take(n)) <= value_of(s),
    decreases s.len(),
{
    if n < s.len() {
        lemma_value_grows(s.drop_last(), n);
        assert(s.drop_last().take(n) =~= s.take(n));
    } else {
        assert(s.take(n) =~= s);
    }
}

pub(crate) proof fn lemma_digit_run(s: Seq<char>, n: int)
    requires
        0 <= n <= s.len(),
        forall|i: int| 0 <= i < n ==> digit(#[trigger] s[i]),
        n < s.len() ==> !digit(s[n]),
    ensures
        digit_run(s) == n,
    decreases n,
{
    if n > 0 {
        assert(digit(s[0]));
        assert forall|i: int| 0 <= i < n - 1 implies digit(#[trigger] s.drop_first()[i]) by {
            assert(s.drop_first()[i] == s[i + 1]);
        }
        lemma_digit_run(s.drop_first(), n - 1);
    }
}

/// Digits alone are a decimal number.
proof fn lemma_digits_are_decimal(s: Seq<char>)
    requires
        digits(s),
    ensures
        decimal(s),
{
    lemma_digit_run(s, s.len() as int);
    assert(s.skip(s.len() as int).len() == 0);
}

/// What is read as an integer is read as a floating-point number too.
pub proof fn law_integers_are_floats(s: Seq<char>)
    ensures
        unsigned_text(s) || signed_text(s) ==> float_text(s),
{
    if unsigned_text(s) || signed_text(s) {
        let number = unsigned_part(s);
        if !starts(s, '+') && !starts(s, '-') {
            assert(digits(s));
        }
        assert(digits(number));
        lemma_digits_are_decimal(number);
    }
}

/// What is read as an unsigned integer is read as a signed one too, if it is small enough.
pub proof fn law_small_unsigned_is_signed(s: Seq<char>)
    requires
        unsigned_text(s),
        value_of(unsigned_part(s)) <= i128::MAX,
    ensures
        signed_text(s),
{
    if starts(s, '-') {
        assert(digit(s[0]));
    }
}

/// Tells whether a character is a decimal digit.
pub fn is_digit(c: char) -> (r: bool)
    ensures
        r == digit(c),
{
    '0' <= c && c <= '9'
}

/// The end of the digits that stand from `from` on.
fn digits_end(chars: &Vec<char>, from: usize) -> (r: usize)
    requires
        from <= chars@.len(),
    ensures
        from <= r <= chars@.len(),
        r - from == digit_run(chars@.skip(from as int)),
        forall|i: int| from <= i < r ==> digit(#[trigger] chars@[i]),
        r < chars@.len() ==> !digit(chars@[r as int]),
{
    let mut i: usize = from;
    while i < chars.len() && is_digit(chars[i])
        invariant
            from <= i <= chars@.len(),
            forall|j: int| from <= j < i ==> digit(#[trigger] chars@[j]),
        decreases chars.len() - i,
    {
        i += 1;
    }
    proof {
        let rest = chars@.skip(from as int);
        assert forall|j: int| 0 <= j < i - from implies digit(#[trigger] rest[j]) by {
            assert(rest[j] == chars@[j + from]);
        }
        lemma_digit_run(rest, i - from);
    }
    i
}

/// Tells whether the characters from `from` on are digits whose number is at most `max`.
fn are_digits_up_to(chars: &Vec<char>, from: usize, max: u128) -> (r: bool)
    requires
        from <= chars@.len(),
    ensures
        r == digits_up_to(chars@.skip(from as int), max as nat),
{
    let ghost text = chars@.skip(from as int);
    let len: usize = chars.len();
    if from == len {
        return false;
    }
    let mut value: u128 = 0;
    let mut i: usize = from;
    while i < len
        invariant
            from <= i <= len == chars@.len(),
            from < len,
            text == chars@.skip(from as int),
            forall|j: int| 0 <= j < i - from ==> digit(#[trigger] text[j]),
            value == value_of(text.take(i - from)),
            value <= max,
        decreases len - i,
    {
        let c = chars[i];
        proof {
            assert(text[i - from] == c);
        }
        if !is_digit(c) {
            return false;
        }
        let d: u32 = c as u32 - '0' as u32;
        let ghost now = text.take(i - from + 1);
        proof {
            assert(now.drop_last() =~= text.take(i - from));
            assert(now.last() == c);
            assert(value_of(now) == 10 * value + d);
            lemma_value_grows(text, i - from + 1);
        }
        if value > max / 10 || d as u128 > max - 10 * value {
            return false;
        }
        value = 10 * value + d as u128;
        i += 1;
    }
    proof {
        assert(text.take(len - from) =~= text);
    }
    true
}

/// Tells whether a text is read as an unsigned integer of 128 bits.
pub fn is_unsigned_text(s: &str) -> (r: bool)
    ensures
        r == unsigned_text(s@),
{
    let chars = chars_of(s);
    proof {
        assert(s@.skip(0) =~= s@);
    }
    if chars.len() > 0 && chars[0] == '+' {
        are_digits_up_to(&chars, 1, u128::MAX)
    } else {
        are_digits_up_to(&chars, 0, u128::MAX)
    }
}

/// Tells whether a text is read as a signed integer of 128 bits.
pub fn is_signed_text(s: &str) -> (r: bool)
    ensures
        r == signed_text(s@),
{
    let chars = chars_of(s);
    let max: u128 = i128::MAX as u128;
    proof {
        assert(s@.skip(0) =~= s@);
    }
    if chars.len() > 0 && chars[0] == '-' {
        are_digits_up_to(&chars, 1, max + 1)
    } else if chars.len() > 0 && chars[0] == '+' {
        are_digits_up_to(&chars, 1, max)
    } else {
        are_digits_up_to(&chars, 0, max)
    }
}

/// The place behind a sign that may stand at `from`.
fn sign_end(chars: &Vec<char>, from: usize) -> (r: usize)
    requires
        from <= chars@.len(),
    ensures
        from <= r <= chars@.len(),
        chars@.skip(r as int) == unsigned_part(chars@.skip(from as int)),
{
    proof {
        if from < chars@.len() {
            assert(chars@.skip(from as int).skip(1) =~= chars@.skip(from + 1));
        }
    }
    if from < chars.len() && (chars[from] == '+' || chars[from] == '-') {
        from + 1
    } else {
        from
    }
}

/// Tells whether an exponent, and nothing else, stands from `from` on.
fn is_exponent(chars: &Vec<char>, from: usize) -> (r: bool)
    requires
        from <= chars@.len(),
    ensures
        r == exponent(chars@.skip(from as int)),
{
    if from < chars.len() && (chars[from] == 'e' || chars[from] == 'E') {
        let start: usize = sign_end(chars, from + 1);
        let end: usize = digits_end(chars, start);
        proof {
            assert(chars@.skip(from as int).skip(1) =~= chars@.skip(from + 1));
            let part = chars@.skip(start as int);
            if end == chars@.len() {
                assert forall|i: int| 0 <= i < part.len() implies digit(#[trigger] part[i]) by {
                    assert(part[i] == chars@[i + start]);
                }
            } else {
                assert(part[end - start] == chars@[end as int]);
            }
        }
        start < end && end == chars.len()
    } else {
        false
    }
}

/// Tells whether a decimal number, and nothing else, stands from `from` on.
fn is_decimal(chars: &Vec<char>, from: usize) -> (r: bool)
    requires
        from <= chars@.len(),
    ensures
        r == decimal(chars@.skip(from as int)),
{
    let whole_end: usize = digits_end(chars, from);
    let ghost text = chars@.skip(from as int);
    proof {
        assert(text.skip(whole_end - from) =~= chars@.skip(whole_end as int));
    }
    if whole_end < chars.len() && chars[whole_end] == '.' {
        let end: usize = digits_end(chars, whole_end + 1);
        proof {
            let rest = text.skip(whole_end - from);
            assert(rest.skip(1) =~= chars@.skip(whole_end + 1));
            assert(rest.skip(end - whole_end) =~= chars@.skip(end as int));
        }
        (from < whole_end || whole_end + 1 < end) && (end == chars.len() || is_exponent(chars, end))
    } else {
        from < whole_end && (whole_end == chars.len() || is_exponent(chars, whole_end))
    }
}

/// Tells whether the characters from `from` on are `word`, in any case.
fn is_word(chars: &Vec<char>, from: usize, word: &str) -> (r: bool)
    requires
        from <= chars@.len(),
        lowered(word@) == word@,
    ensures
        r == (lowered(chars@.skip(from as int)) == word@),
{
    let letters = chars_of(word);
    let n: usize = letters.len();
    let ghost text = lowered(chars@.skip(from as int));
    let len: usize = chars.len();
    if len - from != n {
        return false;
    }
    let mut i: usize = 0;
    while i < n
        invariant
            i <= n == letters@.len() == text.len(),
            from + n == len == chars@.len(),
            letters@ == word@,
            text == lowered(chars@.skip(from as int)),
            forall|j: int| 0 <= j < i ==> text[j] == letters@[j],
        decreases n - i,
    {
        proof {
            assert(text[i as int] == lower(chars@[from + i]));
        }
        if to_lower(chars[from + i]) != letters[i] {
            return false;
        }
        i += 1;
    }
    proof {
        assert(text =~= word@);
    }
    true
}

/// Tells whether a text is read as a floating-point number.
pub fn is_float_text(s: &str) -> (r: bool)
    ensures
        r == float_text(s@),
{
    let chars = chars_of(s);
    let start: usize = sign_end(&chars, 0);
    proof {
        assert(s@.skip(0) =~= s@);
        reveal_strlit("inf");
        reveal_strlit("infinity");
        reveal_strlit("nan");
        assert(lowered("inf"@) =~= "inf"@);
        assert(lowered("infinity"@) =~= "infinity"@);
        assert(lowered("nan"@) =~= "nan"@);
    }
    is_word(&chars, start, "inf") || is_word(&chars, start, "infinity") || is_word(
        &chars,
        start,
        "nan",
    ) || is_decimal(&chars, start)
}

} // verus!

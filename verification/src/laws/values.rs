//! Which example values are accepted.

use vstd::prelude::*;

use crate::abort::Abort;
use crate::attrs::DefaultSource;
use crate::defaults::{entries_fit, entries_of, last_colons, normalized, source_fits, string_type};
use crate::defaults::{lemma_type_names, table_of, value_fits};
use crate::enclosure::{cut_once_unenclosed, pieces};
use crate::number::{decimal, digit, digits, float_text, lemma_digit_run, signed_text, unsigned_text};
use crate::number::{digit_run, exponent, unsigned_part, value_of};
use crate::table::lemma_body_in_braces;
use crate::text::{law_replaced_has_none, law_replaced_nothing, law_trimmed_twice};
use crate::text::{lowered, replaced, trimmed, trimmed_start};
use crate::types::FieldKind;

verus! {

/// A string is accepted if it starts with a quote.
pub proof fn law_string_value(value: Seq<char>, ty: Seq<char>)
    requires
        normalized(ty) == "String"@ || normalized(ty) == "str"@,
    ensures
        ({
            let text = trimmed(value);
            let quoted = text.len() > 0 && (text[0] == '"' || text[0] == '\'');
            &&& quoted ==> value_fits(value, Some(ty)) is Ok
            &&& !quoted ==> (value_fits(value, Some(ty)) matches Err(abort) && abort is NotQuoted)
        }),
{
    lemma_type_names(normalized(ty));
}

/// A boolean is accepted if it is `true` or `false`.
pub proof fn law_bool_value(value: Seq<char>, ty: Seq<char>)
    requires
        normalized(ty) == "bool"@,
    ensures
        trimmed(value) == "true"@ || trimmed(value) == "false"@ ==> value_fits(
            value,
            Some(ty),
        ) is Ok,
        trimmed(value) != "true"@ && trimmed(value) != "false"@ ==> (value_fits(
            value,
            Some(ty),
        ) matches Err(abort) && abort is NotBool),
{
    lemma_type_names(normalized(ty));
}

/// A number is accepted if it is read as one of its kind, without the underscores in it.
pub proof fn law_number_value(value: Seq<char>, ty: Seq<char>)
    ensures
        ({
            let name = normalized(ty);
            let number = replaced(trimmed(value), '_', seq![]);
            let fit = value_fits(value, Some(ty));
            &&& name == "usize"@ || name == "u8"@ || name == "u16"@ || name == "u32"@ || name
                == "u64"@ || name == "u128"@ ==> if unsigned_text(number) {
                fit is Ok
            } else {
                fit matches Err(abort) && abort is NotUnsigned
            }
            &&& name == "isize"@ || name == "i8"@ || name == "i16"@ || name == "i32"@ || name
                == "i64"@ || name == "i128"@ ==> if signed_text(number) {
                fit is Ok
            } else {
                fit matches Err(abort) && abort is NotSigned
            }
            &&& name == "f32"@ || name == "f64"@ ==> if float_text(number) {
                fit is Ok
            } else {
                fit matches Err(abort) && abort is NotFloat
            }
        }),
{
    lemma_type_names(normalized(ty));
}

/// Any value is accepted for another type, and for one without a name.
pub proof fn law_other_value(value: Seq<char>, ty: Seq<char>)
    requires
        ({
            let name = normalized(ty);
            &&& name != "String"@ && name != "str"@ && name != "bool"@
            &&& name != "usize"@ && name != "u8"@ && name != "u16"@ && name != "u32"@ && name
                != "u64"@ && name != "u128"@
            &&& name != "isize"@ && name != "i8"@ && name != "i16"@ && name != "i32"@ && name
                != "i64"@ && name != "i128"@
            &&& name != "f32"@ && name != "f64"@
        }),
    ensures
        value_fits(value, Some(ty)) is Ok,
        value_fits(value, None) is Ok,
{
}

/// The name of a type is what stands behind the last double colon of its path.
pub proof fn law_name_of_path(path: Seq<char>, name: Seq<char>)
    requires
        !path.contains(' '),
        !name.contains(' '),
        !name.contains(':'),
    ensures
        normalized(name) == name,
        normalized(path + seq![':', ':'] + name) == name,
    decreases name.len(),
{
    law_replaced_nothing(name, ' ', seq![]);
    lemma_no_colons(name);
    let all = path + seq![':', ':'] + name;
    assert forall|i: int| 0 <= i < all.len() implies all[i] != ' ' by {
        if i < path.len() {
            assert(path[i] != ' ');
        } else if i >= path.len() + 2 {
            assert(name[i - path.len() - 2] != ' ');
        }
    }
    law_replaced_nothing(all, ' ', seq![]);
    lemma_colons_before(path, name);
    assert(all.skip(path.len() as int + 2) =~= name);
}

proof fn lemma_no_colons(name: Seq<char>)
    requires
        !name.contains(':'),
    ensures
        last_colons(name) is None,
    decreases name.len(),
{
    if name.len() >= 2 {
        assert(name[name.len() - 1] != ':');
        assert forall|i: int| 0 <= i < name.len() - 1 implies name.drop_last()[i] != ':' by {
            assert(name[i] != ':');
        }
        lemma_no_colons(name.drop_last());
    }
}

proof fn lemma_colons_before(path: Seq<char>, name: Seq<char>)
    requires
        !name.contains(':'),
    ensures
        last_colons(path + seq![':', ':'] + name) == Some(path.len() as int),
    decreases name.len(),
{
    let all = path + seq![':', ':'] + name;
    if name.len() == 0 {
        assert(all =~= path + seq![':', ':']);
    } else {
        assert(name[name.len() - 1] != ':');
        assert forall|i: int| 0 <= i < name.len() - 1 implies name.drop_last()[i] != ':' by {
            assert(name[i] != ':');
        }
        assert(all.drop_last() =~= path + seq![':', ':'] + name.drop_last());
        lemma_colons_before(path, name.drop_last());
    }
}

/// Spaces in the name of a type make no difference.
pub proof fn law_name_without_spaces(ty: Seq<char>)
    ensures
        normalized(replaced(ty, ' ', seq![])) == normalized(ty),
{
    law_replaced_has_none(ty, ' ', seq![]);
    law_replaced_nothing(replaced(ty, ' ', seq![]), ' ', seq![]);
}

/// The types of strings are told by their names.
pub proof fn law_string_type(ty: Seq<char>)
    ensures
        string_type(Some(ty)) <==> normalized(ty) == "String"@ || normalized(ty) == "str"@,
        !string_type(None),
{
}

/// Any default that is no literal is accepted, and of a literal: for a list, one that starts an
/// array, and for a single value, one that is accepted for its type.
pub proof fn law_default_fits(
    default: DefaultSource<Seq<char>>,
    kind: FieldKind<Seq<char>>,
    ty: Option<Seq<char>>,
)
    ensures
        match default {
            DefaultSource::DefaultValue(value) => match kind {
                FieldKind::Scalar => source_fits(default, kind, ty) == value_fits(value, ty),
                FieldKind::List => {
                    let text = trimmed_start(value);
                    if text.len() > 0 && text[0] == '[' {
                        source_fits(default, kind, ty) is Ok
                    } else {
                        source_fits(default, kind, ty) matches Err(abort) && abort is NotArray
                    }
                },
                FieldKind::Dict { .. } => true,
            },
            _ => source_fits(default, kind, ty) is Ok,
        },
{
}

/// A literal for a map needs keys that are strings. An empty one is accepted then, and a table of
/// which each value is accepted for the type of the values. Of others, the first that is not
/// accepted decides.
pub proof fn law_map_default_fits(
    value: Seq<char>,
    key_ty: Option<Seq<char>>,
    value_ty: Option<Seq<char>>,
    ty: Option<Seq<char>>,
)
    ensures
        ({
            let fit = source_fits(
                DefaultSource::DefaultValue(value),
                FieldKind::Dict { key_ty, value_ty },
                ty,
            );
            let string_keys = key_ty matches Some(key) && (normalized(key) == "String"@
                || normalized(key) == "str"@);
            if !string_keys {
                fit matches Err(abort) && abort is MapKeyNotString
            } else if trimmed(value).len() == 0 {
                fit is Ok
            } else {
                match table_of(value) {
                    Err(abort) => fit == Err::<(), _>(abort),
                    Ok(entries) => {
                        &&& fit is Ok <==> forall|j: int|
                            #![trigger entries[j]]
                            0 <= j < entries.len() ==> value_fits(entries[j].1, value_ty) is Ok
                        &&& forall|j: int|
                            #![trigger entries[j]]
                            0 <= j < entries.len() && value_fits(entries[j].1, value_ty) is Err && (
                            forall|i: int|
                                #![trigger entries[i]]
                                0 <= i < j ==> value_fits(entries[i].1, value_ty) is Ok) ==> fit
                                == value_fits(entries[j].1, value_ty)
                    },
                }
            }
        }),
{
    if let Ok(entries) = table_of(value) {
        lemma_entries_fit(entries, value_ty);
    }
}

proof fn lemma_entries_fit(entries: Seq<(Seq<char>, Seq<char>)>, ty: Option<Seq<char>>)
    ensures
        entries_fit(entries, ty) is Ok <==> forall|j: int|
            #![trigger entries[j]]
            0 <= j < entries.len() ==> value_fits(entries[j].1, ty) is Ok,
        forall|j: int|
            #![trigger entries[j]]
            0 <= j < entries.len() && value_fits(entries[j].1, ty) is Err && (forall|i: int|
                #![trigger entries[i]]
                0 <= i < j ==> value_fits(entries[i].1, ty) is Ok) ==> entries_fit(entries, ty)
                == value_fits(entries[j].1, ty),
    decreases entries.len(),
{
    if entries.len() > 0 {
        let init = entries.drop_last();
        lemma_entries_fit(init, ty);
        assert(entries[entries.len() - 1] == entries.last());
        assert forall|i: int| 0 <= i < init.len() implies #[trigger] init[i] == entries[i] by {}
        assert forall|i: int| 0 <= i < init.len() implies init[i] == #[trigger] entries[i] by {}
        assert forall|j: int|
            #![trigger entries[j]]
            0 <= j < entries.len() && value_fits(entries[j].1, ty) is Err && (forall|i: int|
                #![trigger entries[i]]
                0 <= i < j ==> value_fits(entries[i].1, ty) is Ok) implies entries_fit(entries, ty)
            == value_fits(entries[j].1, ty) by {
            if j < init.len() {
                assert(init[j] == entries[j]);
                assert forall|i: int| #![trigger init[i]] 0 <= i < j implies value_fits(
                    init[i].1,
                    ty,
                ) is Ok by {
                    assert(entries[i] == init[i]);
                }
            } else {
                assert forall|i: int| #![trigger init[i]] 0 <= i < init.len() implies value_fits(
                    init[i].1,
                    ty,
                ) is Ok by {
                    assert(entries[i] == init[i]);
                }
            }
        }
    }
}

/// A table is a text in braces, with white space around it or not, and has the entries of the pieces
/// of what is inside. Anything else is no table.
pub proof fn law_table(default: Seq<char>, body: Seq<char>)
    ensures
        table_of("{"@ + body + "}"@) == entries_of(pieces(body, ',')),
        table_of(trimmed(default)) == table_of(default),
        trimmed(default).len() == 0 || trimmed(default)[0] != '{' || trimmed(default).last() != '}'
            ==> (table_of(default) matches Err(abort) && abort is NotInlineTable),
{
    lemma_body_in_braces(body);
    law_trimmed_twice(default);
}

/// The entries of two parts of a table are those of the one, then those of the other. None is left
/// out for another.
pub proof fn law_entries_append(first: Seq<Seq<char>>, second: Seq<Seq<char>>)
    ensures
        entries_of(first + second) == match (entries_of(first), entries_of(second)) {
            (Ok(a), Ok(b)) => Ok::<_, Abort<Seq<char>>>(a + b),
            (Err(abort), _) => Err(abort),
            (_, Err(abort)) => Err(abort),
        },
    decreases second.len(),
{
    let all = first + second;
    if second.len() == 0 {
        assert(all =~= first);
        if let Ok(a) = entries_of(first) {
            assert(a + Seq::<(Seq<char>, Seq<char>)>::empty() =~= a);
        }
    } else {
        let init = second.drop_last();
        assert(all.drop_last() =~= first + init);
        law_entries_append(first, init);
        if let (Ok(a), Ok(b)) = (entries_of(first), entries_of(init)) {
            if let Ok(c) = entries_of(second) {
                assert(entries_of(all)->Ok_0 =~= a + c);
            }
        }
    }
}

/// A piece of a table that is white space has no entry, one with an unenclosed equals sign the key
/// before the first of them and the value behind it, and another is refused.
pub proof fn law_one_entry(piece: Seq<char>)
    ensures
        ({
            let text = trimmed(piece);
            let entries = entries_of(seq![piece]);
            if text.len() == 0 {
                entries matches Ok(none) && none.len() == 0
            } else {
                match cut_once_unenclosed(text, '=') {
                    Some((key, value)) => entries matches Ok(one) && one.len() == 1 && one[0] == (
                        trimmed(key),
                        trimmed(value),
                    ),
                    None => entries matches Err(abort) && abort is EntryWithoutValue,
                }
            }
        }),
{
    let parts = seq![piece];
    assert(parts.drop_last() =~= seq![]);
    assert(parts.last() == piece);
    assert(entries_of(parts.drop_last()) == Ok::<_, Abort<Seq<char>>>(
        Seq::<(Seq<char>, Seq<char>)>::empty(),
    ));
}

/// The characters are decimal digits.
pub open spec fn all_digits(s: Seq<char>) -> bool {
    forall|i: int| 0 <= i < s.len() ==> '0' <= #[trigger] s[i] && s[i] <= '9'
}

/// Ten to the power of a number.
spec fn ten(n: nat) -> nat
    decreases n,
{
    if n == 0 {
        1
    } else {
        10 * ten((n - 1) as nat)
    }
}

proof fn lemma_value_bound(s: Seq<char>)
    requires
        all_digits(s),
    ensures
        value_of(s) < ten(s.len()),
    decreases s.len(),
{
    if s.len() > 0 {
        let init = s.drop_last();
        assert forall|i: int| 0 <= i < init.len() implies '0' <= #[trigger] init[i] && init[i]
            <= '9' by {
            assert(init[i] == s[i]);
        }
        lemma_value_bound(init);
        assert('0' <= s[s.len() - 1] && s[s.len() - 1] <= '9');
    }
}

proof fn lemma_ten_grows(n: nat, m: nat)
    requires
        n <= m,
    ensures
        ten(n) <= ten(m),
    decreases m,
{
    if n < m {
        lemma_ten_grows(n, (m - 1) as nat);
    }
}

proof fn lemma_ten_of_limit()
    ensures
        ten(38) == 100000000000000000000000000000000000000,
{
    assert(ten(0) == 1);
    assert(ten(1) == 10);
    assert(ten(2) == 100);
    assert(ten(3) == 1000);
    assert(ten(4) == 10000);
    assert(ten(5) == 100000);
    assert(ten(6) == 1000000);
    assert(ten(7) == 10000000);
    assert(ten(8) == 100000000);
    assert(ten(9) == 1000000000);
    assert(ten(10) == 10000000000);
    assert(ten(11) == 100000000000);
    assert(ten(12) == 1000000000000);
    assert(ten(13) == 10000000000000);
    assert(ten(14) == 100000000000000);
    assert(ten(15) == 1000000000000000);
    assert(ten(16) == 10000000000000000);
    assert(ten(17) == 100000000000000000);
    assert(ten(18) == 1000000000000000000);
    assert(ten(19) == 10000000000000000000);
    assert(ten(20) == 100000000000000000000);
    assert(ten(21) == 1000000000000000000000);
    assert(ten(22) == 10000000000000000000000);
    assert(ten(23) == 100000000000000000000000);
    assert(ten(24) == 1000000000000000000000000);
    assert(ten(25) == 10000000000000000000000000);
    assert(ten(26) == 100000000000000000000000000);
    assert(ten(27) == 1000000000000000000000000000);
    assert(ten(28) == 10000000000000000000000000000);
    assert(ten(29) == 100000000000000000000000000000);
    assert(ten(30) == 1000000000000000000000000000000);
    assert(ten(31) == 10000000000000000000000000000000);
    assert(ten(32) == 100000000000000000000000000000000);
    assert(ten(33) == 1000000000000000000000000000000000);
    assert(ten(34) == 10000000000000000000000000000000000);
    assert(ten(35) == 100000000000000000000000000000000000);
    assert(ten(36) == 1000000000000000000000000000000000000);
    assert(ten(37) == 10000000000000000000000000000000000000);
    assert(ten(38) == 100000000000000000000000000000000000000);
}

/// Up to thirty-eight digits are read as an integer, behind a plus sign too, and behind a minus sign
/// as a signed one only.
pub proof fn law_digits_are_integers(s: Seq<char>)
    requires
        all_digits(s),
        0 < s.len() <= 38,
    ensures
        unsigned_text(s),
        signed_text(s),
        unsigned_text(seq!['+'] + s),
        signed_text(seq!['+'] + s),
        signed_text(seq!['-'] + s),
        !unsigned_text(seq!['-'] + s),
{
    lemma_value_bound(s);
    lemma_ten_grows(s.len(), 38);
    lemma_ten_of_limit();
    assert(value_of(s) < 100000000000000000000000000000000000000);
    assert forall|i: int| 0 <= i < s.len() implies digit(#[trigger] s[i]) by {
        assert('0' <= s[i]);
    }
    assert('0' <= s[0]);
    assert((seq!['+'] + s).skip(1) =~= s);
    assert((seq!['-'] + s).skip(1) =~= s);
    assert(!digit((seq!['-'] + s)[0]));
}

/// Nothing is read as an integer that has another character than digits, a sign at its start aside,
/// or has no digits.
pub proof fn law_integers_are_digits(s: Seq<char>)
    ensures
        unsigned_text(s) ==> ({
            &&& s.len() > 0
            &&& all_digits(s) || (s[0] == '+' && s.len() > 1 && all_digits(s.skip(1)))
        }),
        signed_text(s) ==> ({
            &&& s.len() > 0
            &&& all_digits(s) || ((s[0] == '+' || s[0] == '-') && s.len() > 1 && all_digits(
                s.skip(1),
            ))
        }),
{
    assert forall|t: Seq<char>| #[trigger] digits(t) implies all_digits(t) by {
        assert forall|i: int| 0 <= i < t.len() implies '0' <= #[trigger] t[i] && t[i] <= '9' by {
            assert(digit(t[i]));
        }
    }
}

/// Digits with a point among them, before them or behind them are read as a floating-point number.
pub proof fn law_decimals_are_floats(whole: Seq<char>, fraction: Seq<char>)
    requires
        all_digits(whole),
        all_digits(fraction),
        whole.len() + fraction.len() > 0,
    ensures
        float_text(whole + seq!['.'] + fraction),
{
    let s = whole + seq!['.'] + fraction;
    let n = whole.len() as int;
    assert(s[n] == '.');
    assert forall|i: int| 0 <= i < n implies digit(#[trigger] s[i]) by {
        assert(s[i] == whole[i]);
    }
    assert(!digit(s[n]));
    lemma_digit_run(s, n);
    assert(s.skip(n).skip(1) =~= fraction);
    assert forall|i: int| 0 <= i < fraction.len() implies digit(#[trigger] fraction[i]) by {
        assert('0' <= fraction[i]);
    }
    lemma_digit_run(fraction, fraction.len() as int);
    assert(s.skip(n).skip(1 + fraction.len() as int).len() == 0);
    assert(decimal(s));
    if n > 0 {
        assert(s[0] == whole[0]);
    }
}

/// A sign of an exponent, or none.
pub open spec fn is_sign(sign: Seq<char>) -> bool {
    sign.len() == 0 || sign == seq!['+'] || sign == seq!['-']
}

/// An exponent is the letter `e` in either case, a sign or none, and digits.
proof fn lemma_exponent(mark: char, sign: Seq<char>, power: Seq<char>)
    requires
        mark == 'e' || mark == 'E',
        is_sign(sign),
        all_digits(power),
        power.len() > 0,
    ensures
        exponent(seq![mark] + sign + power),
{
    let s = seq![mark] + sign + power;
    assert(s[0] == mark);
    assert forall|i: int| 0 <= i < power.len() implies digit(#[trigger] power[i]) by {
        assert('0' <= power[i]);
    }
    assert(s.skip(1) =~= sign + power);
    assert('0' <= power[0] && power[0] <= '9');
    if sign.len() == 0 {
        assert(sign + power =~= power);
    } else {
        assert((sign + power)[0] == sign[0]);
        assert((sign + power).skip(1) =~= power);
    }
}

/// A whole number or one with a point is read as a floating-point number with an exponent behind it
/// too.
pub proof fn law_exponents_are_floats(
    whole: Seq<char>,
    fraction: Seq<char>,
    mark: char,
    sign: Seq<char>,
    power: Seq<char>,
)
    requires
        all_digits(whole),
        all_digits(fraction),
        mark == 'e' || mark == 'E',
        is_sign(sign),
        all_digits(power),
        power.len() > 0,
    ensures
        whole.len() + fraction.len() > 0 ==> float_text(
            whole + seq!['.'] + fraction + (seq![mark] + sign + power),
        ),
        whole.len() > 0 ==> float_text(whole + (seq![mark] + sign + power)),
{
    let tail = seq![mark] + sign + power;
    let n = whole.len() as int;
    lemma_exponent(mark, sign, power);
    assert(tail[0] == mark);
    if whole.len() + fraction.len() > 0 {
        let s = whole + seq!['.'] + fraction + tail;
        assert(s[n] == '.');
        assert forall|i: int| 0 <= i < n implies digit(#[trigger] s[i]) by {
            assert(s[i] == whole[i]);
        }
        lemma_digit_run(s, n);
        let rest = s.skip(n).skip(1);
        assert(rest =~= fraction + tail);
        assert forall|i: int| 0 <= i < fraction.len() implies digit(#[trigger] rest[i]) by {
            assert(rest[i] == fraction[i]);
        }
        assert(rest[fraction.len() as int] == mark);
        lemma_digit_run(rest, fraction.len() as int);
        assert(s.skip(n).skip(1 + fraction.len() as int) =~= tail);
        assert(decimal(s));
        if n > 0 {
            assert(s[0] == whole[0]);
        }
    }
    if whole.len() > 0 {
        let s = whole + tail;
        assert forall|i: int| 0 <= i < n implies digit(#[trigger] s[i]) by {
            assert(s[i] == whole[i]);
        }
        assert(s[n] == mark);
        lemma_digit_run(s, n);
        assert(s.skip(n) =~= tail);
        assert(decimal(s));
        assert(s[0] == whole[0]);
    }
}

/// A sign in front of a floating-point number without one makes no difference. Nothing is no number.
pub proof fn law_signed_floats(s: Seq<char>)
    requires
        s.len() > 0 ==> s[0] != '+' && s[0] != '-',
    ensures
        float_text(seq!['+'] + s) == float_text(s),
        float_text(seq!['-'] + s) == float_text(s),
        !float_text(seq![]),
{
    assert((seq!['+'] + s).skip(1) =~= s);
    assert((seq!['-'] + s).skip(1) =~= s);
    reveal_strlit("inf");
    reveal_strlit("infinity");
    reveal_strlit("nan");
    assert(lowered(seq![]).len() == 0);
}

/// A text with a character that is no digit, point, sign or `e` is read as a floating-point number
/// only if it is `inf`, `infinity` or `nan`, in any case and with a sign or none.
pub proof fn law_floats_are_numbers(s: Seq<char>, i: int)
    requires
        float_text(s),
        0 <= i < s.len(),
        !('0' <= s[i] && s[i] <= '9'),
        s[i] != '.' && s[i] != '+' && s[i] != '-' && s[i] != 'e' && s[i] != 'E',
    ensures
        ({
            let word = if s[0] == '+' || s[0] == '-' {
                s.skip(1)
            } else {
                s
            };
            lowered(word) == "inf"@ || lowered(word) == "infinity"@ || lowered(word) == "nan"@
        }),
{
    let number = unsigned_part(s);
    let j = i - (s.len() - number.len());
    assert(number[j] == s[i]);
    if decimal(number) {
        lemma_decimal_characters(number, j);
    }
}

proof fn lemma_decimal_characters(s: Seq<char>, i: int)
    requires
        decimal(s),
        0 <= i < s.len(),
    ensures
        digit(s[i]) || s[i] == '.' || s[i] == '+' || s[i] == '-' || s[i] == 'e' || s[i] == 'E',
{
    let whole = digit_run(s) as int;
    lemma_run_is_digits(s);
    let rest = s.skip(whole);
    let fraction = digit_run(rest.skip(1)) as int;
    let tail = if rest.len() > 0 && rest[0] == '.' {
        lemma_run_is_digits(rest.skip(1));
        rest.skip(1 + fraction)
    } else {
        rest
    };
    let start = s.len() - tail.len();
    if i >= start {
        assert(tail[i - start] == s[i]);
        let power = unsigned_part(tail.skip(1));
        if tail.len() > 0 && i > start {
            let k = i - start - (tail.len() - power.len());
            if k >= 0 {
                assert(power[k] == s[i]);
                assert(digit(power[k]));
            }
        }
    } else if i > whole {
        assert(rest.skip(1)[i - whole - 1] == s[i]);
    }
}

proof fn lemma_run_is_digits(s: Seq<char>)
    ensures
        digit_run(s) <= s.len(),
        forall|i: int| 0 <= i < digit_run(s) ==> digit(#[trigger] s[i]),
    decreases s.len(),
{
    if s.len() > 0 && digit(s[0]) {
        let rest = s.drop_first();
        lemma_run_is_digits(rest);
        assert forall|i: int| 0 <= i < digit_run(s) implies digit(#[trigger] s[i]) by {
            if i > 0 {
                assert(rest[i - 1] == s[i]);
            }
        }
    }
}

} // verus!

//! How the names of fields are changed.

use vstd::prelude::*;

use crate::text::{chars_of, replace, same_text, to_lower, to_upper};
use crate::text::{law_replaced_has_none, lower, raised, replaced, upper};

verus! {

/// How `rename_all` changes the names of fields, which are in snake case.
#[derive(Clone, Copy, PartialEq, Eq, Structural, Debug)]
pub enum RenameRule {
    /// Names stay as they are.
    Unchanged,
    /// `lowercase`
    LowerCase,
    /// `UPPERCASE`
    UpperCase,
    /// `PascalCase`
    PascalCase,
    /// `camelCase`
    CamelCase,
    /// `snake_case`
    SnakeCase,
    /// `SCREAMING_SNAKE_CASE`
    ScreamingSnakeCase,
    /// `kebab-case`
    KebabCase,
    /// `SCREAMING-KEBAB-CASE`
    ScreamingKebabCase,
}

/// The rule that a text names.
pub open spec fn rule_named(s: Seq<char>) -> Option<RenameRule> {
    if s == "lowercase"@ {
        Some(RenameRule::LowerCase)
    } else if s == "UPPERCASE"@ {
        Some(RenameRule::UpperCase)
    } else if s == "PascalCase"@ {
        Some(RenameRule::PascalCase)
    } else if s == "camelCase"@ {
        Some(RenameRule::CamelCase)
    } else if s == "snake_case"@ {
        Some(RenameRule::SnakeCase)
    } else if s == "SCREAMING_SNAKE_CASE"@ {
        Some(RenameRule::ScreamingSnakeCase)
    } else if s == "kebab-case"@ {
        Some(RenameRule::KebabCase)
    } else if s == "SCREAMING-KEBAB-CASE"@ {
        Some(RenameRule::ScreamingKebabCase)
    } else {
        None
    }
}

/// The words of a name in snake case, each with a capital and without underscores.
pub open spec fn pascal(s: Seq<char>) -> Seq<char>
    decreases s.len(),
{
    if s.len() == 0 {
        seq![]
    } else if s.last() == '_' {
        pascal(s.drop_last())
    } else if s.len() == 1 || s[s.len() - 2] == '_' {
        pascal(s.drop_last()).push(upper(s.last()))
    } else {
        pascal(s.drop_last()).push(s.last())
    }
}

/// `s` with a lower case letter at its start.
pub open spec fn uncapitalized(s: Seq<char>) -> Seq<char> {
    if s.len() == 0 {
        s
    } else {
        s.update(0, lower(s[0]))
    }
}

/// The name of a field under a rule.
pub open spec fn renamed(rule: RenameRule, field: Seq<char>) -> Seq<char> {
    match rule {
        RenameRule::Unchanged | RenameRule::LowerCase | RenameRule::SnakeCase => field,
        RenameRule::UpperCase | RenameRule::ScreamingSnakeCase => raised(field),
        RenameRule::PascalCase => pascal(field),
        RenameRule::CamelCase => uncapitalized(pascal(field)),
        RenameRule::KebabCase => replaced(field, '_', seq!['-']),
        RenameRule::ScreamingKebabCase => replaced(raised(field), '_', seq!['-']),
    }
}

/// A name in pascal case has no underscores.
pub proof fn law_pascal_has_no_underscore(field: Seq<char>)
    ensures
        !pascal(field).contains('_'),
    decreases field.len(),
{
    if field.len() > 0 {
        law_pascal_has_no_underscore(field.drop_last());
        let before = pascal(field.drop_last());
        if pascal(field).contains('_') {
            let i = choose|i: int| 0 <= i < pascal(field).len() && pascal(field)[i] == '_';
            if i < before.len() {
                assert(before[i] == '_');
            }
        }
    }
}

/// A name in either of the kebab cases has no underscores.
pub proof fn law_kebab_has_no_underscore(field: Seq<char>)
    ensures
        !renamed(RenameRule::KebabCase, field).contains('_'),
        !renamed(RenameRule::ScreamingKebabCase, field).contains('_'),
{
    assert(!seq!['-'].contains('_'));
    law_replaced_has_none(field, '_', seq!['-']);
    law_replaced_has_none(raised(field), '_', seq!['-']);
}

/// The name in upper case.
fn to_upper_case(field: &str) -> (r: String)
    ensures
        r@ == raised(field@),
{
    let chars = chars_of(field);
    let len: usize = chars.len();
    let mut name = String::new();
    let mut i: usize = 0;
    while i < len
        invariant
            i <= len == chars@.len(),
            name@ == raised(chars@.take(i as int)),
        decreases len - i,
    {
        name.push(to_upper(chars[i]));
        proof {
            assert(raised(chars@.take(i + 1)) =~= raised(chars@.take(i as int)).push(
                upper(chars@[i as int]),
            ));
        }
        i += 1;
    }
    proof {
        assert(chars@.take(len as int) =~= field@);
    }
    name
}

/// The name in pascal case, with a lower case letter at its start if `camel`.
fn to_pascal_case(field: &str, camel: bool) -> (r: String)
    ensures
        r@ == if camel {
            uncapitalized(pascal(field@))
        } else {
            pascal(field@)
        },
{
    let chars = chars_of(field);
    let len: usize = chars.len();
    let mut name = String::new();
    let mut capitalize: bool = true;
    let mut first: bool = true;
    let mut i: usize = 0;
    while i < len
        invariant
            i <= len == chars@.len(),
            capitalize == (i == 0 || chars@[i - 1] == '_'),
            first == (pascal(chars@.take(i as int)).len() == 0),
            name@ == if camel {
                uncapitalized(pascal(chars@.take(i as int)))
            } else {
                pascal(chars@.take(i as int))
            },
        decreases len - i,
    {
        let c = chars[i];
        let ghost seen = chars@.take(i as int);
        proof {
            let now = chars@.take(i + 1);
            assert(now.drop_last() =~= seen);
            assert(i > 0 ==> now[now.len() - 2] == chars@[i - 1]);
        }
        if c == '_' {
            capitalize = true;
        } else {
            let letter = if capitalize {
                to_upper(c)
            } else {
                c
            };
            capitalize = false;
            if camel && first {
                name.push(to_lower(letter));
                proof {
                    assert(name@ =~= uncapitalized(seen.take(0).push(letter)));
                    assert(pascal(seen).push(letter) =~= seen.take(0).push(letter));
                }
            } else {
                name.push(letter);
                proof {
                    if camel {
                        assert(name@ =~= uncapitalized(pascal(seen).push(letter)));
                    }
                }
            }
            first = false;
        }
        i += 1;
    }
    proof {
        assert(chars@.take(len as int) =~= field@);
    }
    name
}

impl RenameRule {
    /// The rule that a text names.
    pub fn from_str(rename_all: &str) -> (r: Result<RenameRule, ()>)
        ensures
            match r {
                Ok(rule) => rule_named(rename_all@) == Some(rule),
                Err(_) => rule_named(rename_all@) is None,
            },
    {
        if same_text(rename_all, "lowercase") {
            Ok(RenameRule::LowerCase)
        } else if same_text(rename_all, "UPPERCASE") {
            Ok(RenameRule::UpperCase)
        } else if same_text(rename_all, "PascalCase") {
            Ok(RenameRule::PascalCase)
        } else if same_text(rename_all, "camelCase") {
            Ok(RenameRule::CamelCase)
        } else if same_text(rename_all, "snake_case") {
            Ok(RenameRule::SnakeCase)
        } else if same_text(rename_all, "SCREAMING_SNAKE_CASE") {
            Ok(RenameRule::ScreamingSnakeCase)
        } else if same_text(rename_all, "kebab-case") {
            Ok(RenameRule::KebabCase)
        } else if same_text(rename_all, "SCREAMING-KEBAB-CASE") {
            Ok(RenameRule::ScreamingKebabCase)
        } else {
            Err(())
        }
    }

    /// The name of a field under this rule.
    pub fn apply_to_field(self, field: &str) -> (r: String)
        ensures
            r@ == renamed(self, field@),
    {
        proof {
            reveal_strlit("-");
            assert("-"@ =~= seq!['-']);
        }
        match self {
            RenameRule::Unchanged | RenameRule::LowerCase | RenameRule::SnakeCase => {
                field.to_owned()
            },
            RenameRule::UpperCase | RenameRule::ScreamingSnakeCase => to_upper_case(field),
            RenameRule::PascalCase => to_pascal_case(field, false),
            RenameRule::CamelCase => to_pascal_case(field, true),
            RenameRule::KebabCase => replace(field, '_', "-"),
            RenameRule::ScreamingKebabCase => replace(to_upper_case(field).as_str(), '_', "-"),
        }
    }
}

} // verus!

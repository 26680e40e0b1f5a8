//! The implementation that is derived.

use quote::ToTokens;
use vstd::prelude::*;

use crate::example::{Intermediate, IntermediateView};
use crate::text::cut_once;

verus! {

/// Why a text cannot be cut into tokens.
#[verifier::external_type_specification]
#[verifier::external_body]
pub struct ExLexError(proc_macro2::LexError);

/// The implementation up to the name of the struct.
pub const IMPL_START: &'static str = "impl toml_example::TomlExample for ";

/// The implementation between the two uses of the name of the struct.
pub const IMPL_EXAMPLE: &'static str = " {
    fn toml_example() -> String {
        ";

/// The implementation from the name of the struct to its documentation.
pub const IMPL_WITH_PREFIX: &'static str = "::toml_example_with_prefix(\"\", (\"\", \"\"), \"\")
    }
    fn toml_example_with_prefix(label: &str, label_format: (&str, &str), prefix: &str) -> String {
        let wrapped_label = if label_format.0.is_empty() {
            String::new()
        } else {
            label_format.0.to_string() + label + label_format.1
        };
        ";

/// The implementation between the documentation of the struct and its values and sections.
pub const IMPL_LABEL: &'static str = ".to_string() + &wrapped_label + &";

/// The implementation behind the values and sections of the struct.
pub const IMPL_END: &'static str = "
    }
}
";

/// The implementation for a struct, whose documentation is written as this literal.
pub open spec fn impl_text(parts: IntermediateView, doc_literal: Seq<char>) -> Seq<char> {
    IMPL_START@ + parts.struct_name + IMPL_EXAMPLE@ + parts.struct_name + IMPL_WITH_PREFIX@
        + doc_literal + IMPL_LABEL@ + parts.field_example + IMPL_END@
}

/// The number that a hexadecimal digit stands for.
pub open spec fn hex_digit(c: char) -> Option<nat> {
    if '0' <= c && c <= '9' {
        Some((c as nat - '0' as nat) as nat)
    } else if 'a' <= c && c <= 'f' {
        Some((c as nat - 'a' as nat + 10) as nat)
    } else if 'A' <= c && c <= 'F' {
        Some((c as nat - 'A' as nat + 10) as nat)
    } else {
        None
    }
}

/// The number that hexadecimal digits stand for.
pub open spec fn hex_value(s: Seq<char>) -> Option<nat>
    decreases s.len(),
{
    if s.len() == 0 {
        Some(0)
    } else {
        match (hex_value(s.drop_last()), hex_digit(s.last())) {
            (Some(high), Some(low)) => Some(16 * high + low),
            _ => None,
        }
    }
}

/// The character that an escape stands for, which a text starts with, and the length of the escape.
pub open spec fn escape_at(s: Seq<char>) -> Option<(char, int)> {
    if s.len() < 2 || s[0] != '\\' {
        None
    } else {
        match s[1] {
            'n' => Some(('\n', 2)),
            'r' => Some(('\r', 2)),
            't' => Some(('\t', 2)),
            '0' => Some(('\0', 2)),
            '\\' => Some(('\\', 2)),
            '\'' => Some(('\'', 2)),
            '"' => Some(('"', 2)),
            'x' => match hex_value(s.subrange(2, 4)) {
                Some(code) if s.len() >= 4 && code < 128 => Some((code as char, 4)),
                _ => None,
            },
            'u' => match cut_once(s, '}') {
                Some((digits, _)) => match hex_value(digits.skip(3)) {
                    Some(code) if digits.len() > 3 && s[2] == '{' => Some(
                        (code as char, digits.len() as int + 1),
                    ),
                    _ => None,
                },
                None => None,
            },
            _ => None,
        }
    }
}

/// The text that stands between the quotes of a string literal as `s`.
pub open spec fn unescaped(s: Seq<char>) -> Option<Seq<char>>
    decreases s.len(),
{
    if s.len() == 0 {
        Some(seq![])
    } else {
        let (c, n) = match escape_at(s) {
            Some(escape) => escape,
            None => (s[0], 1),
        };
        if (n == 1 && (c == '"' || c == '\\')) || !(1 <= n <= s.len()) {
            None
        } else {
            match unescaped(s.skip(n)) {
                Some(rest) => Some(seq![c] + rest),
                None => None,
            }
        }
    }
}

/// A string literal with `value` for its value.
pub open spec fn literal_of(literal: Seq<char>, value: Seq<char>) -> bool {
    &&& literal.len() >= 2
    &&& literal[0] == '"'
    &&& literal.last() == '"'
    &&& unescaped(literal.subrange(1, literal.len() - 1)) == Some(value)
}

/// Cutting this text into tokens by `proc_macro2` can end in this way: it succeeds, or it fails with
/// this error.
///
/// A text may have more than one outcome, since inside of a compiler the rules of the compiler count
/// too.
pub uninterp spec fn cut_ends(text: Seq<char>, outcome: Result<(), proc_macro2::LexError>) -> bool;

/// The implementation for a struct, whose documentation is written as a literal. The expression for
/// the values and sections can be cut into tokens.
pub open spec fn implements(text: Seq<char>, parts: IntermediateView) -> bool {
    &&& cut_ends(parts.field_example, Ok(()))
    &&& exists|doc_literal: Seq<char>| #[trigger]
        literal_of(doc_literal, parts.struct_doc) && text == impl_text(parts, doc_literal)
}

/// Calls `proc_macro2::TokenStream::from_str`, which cuts a text into tokens.
///
/// The contract says that the outcome, with the error of a failure, is one that cutting this text can
/// have. It does not say which texts can be cut: inside of a compiler the rules of the compiler have
/// to allow it too.
#[verifier::external_body]
fn check_tokens(text: &str) -> (r: Result<(), proc_macro2::LexError>)
    ensures
        cut_ends(text@, r),
{
    text.parse::<proc_macro2::TokenStream>().map(|_tokens| ())
}

/// Calls `quote::ToTokens::to_token_stream` of a text, which is one string literal, made by
/// `proc_macro2::Literal::string`, and gives the literal as it is written.
///
/// The contract says that the text is the value of the literal. It does not say which characters
/// are escaped: this differs between compilers.
#[verifier::external_body]
fn literal_text(text: &str) -> (r: String)
    ensures
        literal_of(r@, text@),
{
    text.to_token_stream().to_string()
}

impl Intermediate {
    /// The text of the tokens of the implementation for the struct, whose documentation is written
    /// as this literal, if the expression for the values and sections could be cut into tokens.
    pub fn assemble(&self, tokens: Result<(), proc_macro2::LexError>, doc_literal: &str) -> (r: Result<
        String,
        proc_macro2::LexError,
    >)
        ensures
            match tokens {
                Ok(_) => r matches Ok(text) && text@ == impl_text(self.deep_view(), doc_literal@),
                Err(error) => r == Err::<String, _>(error),
            },
    {
        match tokens {
            Ok(_) => Ok(
                IMPL_START.to_owned().concat(self.struct_name.as_str()).concat(IMPL_EXAMPLE).concat(
                    self.struct_name.as_str(),
                ).concat(IMPL_WITH_PREFIX).concat(doc_literal).concat(IMPL_LABEL).concat(
                    self.field_example.as_str(),
                ).concat(IMPL_END),
            ),
            Err(error) => Err(error),
        }
    }

    /// The text of the tokens of the implementation for the struct.
    ///
    /// It is an error if the expression for the values and sections cannot be cut into tokens: the
    /// one that cutting the expression ends with.
    pub fn to_token_stream(&self) -> (r: Result<String, proc_macro2::LexError>)
        ensures
            match r {
                Ok(text) => implements(text@, self.deep_view()),
                Err(error) => cut_ends(self.deep_view().field_example, Err(error)),
            },
    {
        let tokens = check_tokens(self.field_example.as_str());
        let doc_literal = literal_text(self.struct_doc.as_str());
        proof {
            assert(literal_of(doc_literal@, self.deep_view().struct_doc));
            if let Ok(done) = tokens {
                assert(done == ());
            }
        }
        self.assemble(tokens, doc_literal.as_str())
    }
}

} // verus!

//! Derives implementations of `toml_example::TomlExample`, which give an example of a struct as a
//! TOML document.

use vstd::prelude::*;

pub mod abort;
pub mod ast;
pub mod attrs;
pub mod case;
pub mod defaults;
pub mod enclosure;
pub mod example;
pub mod expansion;
pub mod field;
pub mod laws;
pub mod number;
pub mod parts;
pub mod reader;
pub mod reading;
pub mod table;
pub mod text;
pub mod types;

use crate::abort::Fault;
use crate::example::{derived_from, Intermediate};
use crate::expansion::{cut_ends, implements};
use crate::reader::{item_of, parsed_item, read_item};

verus! {

/// Why no implementation is derived.
pub enum DeriveError {
    /// The tokens are no item.
    Syntax(syn::Error),
    /// No example can be derived from the item.
    Abort(Fault<String, usize>),
    /// The expression for the example cannot be cut into tokens.
    Lex(proc_macro2::LexError),
}

/// Derives the implementation for an item, given by its tokens. Attributes of `serde` count only
/// if `serde` holds.
pub fn derive(stream: proc_macro2::TokenStream, serde: bool) -> (r: Result<String, DeriveError>)
    ensures
        match parsed_item(stream) {
            Ok(raw) => match derived_from(item_of(raw), serde) {
                Ok(parts) => match r {
                    Ok(text) => implements(text@, parts),
                    Err(DeriveError::Lex(error)) => cut_ends(parts.field_example, Err(error)),
                    Err(_) => false,
                },
                Err(fault) => r matches Err(DeriveError::Abort(said)) && said.deep_view() == fault,
            },
            Err(errors) => r matches Err(DeriveError::Syntax(error)) && errors.contains(error),
        },
{
    let item = match read_item(stream) {
        Ok(item) => item,
        Err(error) => {
            return Err(DeriveError::Syntax(error));
        },
    };
    let parts = match Intermediate::from_ast(item, serde) {
        Ok(parts) => parts,
        Err(fault) => {
            return Err(DeriveError::Abort(fault));
        },
    };
    match parts.to_token_stream() {
        Ok(text) => Ok(text),
        Err(error) => Err(DeriveError::Lex(error)),
    }
}

} // verus!

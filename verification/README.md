# toml-example-derive

Derives implementations of `toml_example::TomlExample`: the example of a struct as a TOML document,
with the documentation of the struct and its fields as comments and a value for each field.

The library under `src/` is verified with Verus:

- `ast` holds the parts of an item that an example is derived from, `reader` reads them from tokens.
- `attrs`, `types`, `defaults` and `case` say what the attributes and the type of a field mean, which
  values the field can have, and how it is named.
- `field` puts this together for a field, `example` for a struct, as the text of an expression.
- `parts` is about such expressions, which are made of raw strings and code between them, and
  `reading` about what the expression for an example reads as.
- `expansion` makes an implementation of the expression, and `derive` in the crate root goes the
  whole way from tokens to the text of the implementation.
- `abort` lists why no example can be derived, and what of an item that points to.
- `table` is about what becomes of the entries of an inline table.
- `enclosure`, `text` and `number` are about texts: what quotes and brackets enclose, trimming and
  replacing, and what is read as a number.

Functions named `law_...` prove what holds of these together.

`app/` is the entry point for a crate of procedural macros, `tests/` holds the tests.

# database

The in-memory core of a small relational database, verified with Verus.

* `SymbolInterner` turns texts into four-byte symbols. All texts stand in one
  arena of at most 256 MB, which can be saved as bytes and loaded again.
* `StringInterner` turns texts into shared strings, each text held once.
* `Value` and `ValueType` are the values of columns and their types.
* `DatabaseSchema` holds tables, columns and foreign keys, and finds them by
  index, by name and by symbol.

## Layout

* `src/` is the library. `interner_model.rs` and `schema_model.rs` say what an
  interner and a schema hold and state the laws; the contracts of the
  executable functions speak of these models. What the library takes on trust
  from other crates stands in `hash.rs`, `symbol_table.rs`, `text_set.rs`,
  `scalars.rs`, `boxed.rs` and `record.rs`, one small function for each call.
* `app/` is ordinary Rust around the library: interners that threads share
  behind a lock, and conversions of floating-point numbers and zoned times.
* `tests/` runs the library on concrete values.

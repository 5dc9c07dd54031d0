# lojix-macros

Code generation from a datalog schema: enumerations for domains, structs for
products, traits for RPC interfaces, exhaustive folds over enumerations, and a
registry of every enumeration domain.

- `src/` — the verified library (Verus):
  - `text.rs` — whitespace, trimming, lines and comment-only statements,
    snake case and Pascal case of names;
  - `rows.rs` — the query answers as the decoding reads them;
  - `db.rs` — query texts, decoding of every answer, the scan for
    enumeration domains, and the loading of the schemas, statement by statement;
  - `search.rs` — first occurrence of a string among strings;
  - `ident.rs` — which strings are Rust identifiers;
  - `codegen.rs` — what each macro generates, and its compile errors;
  - `laws.rs` — properties of the generated conversions, the fold check
    and the registry.
- `app/` — the proc-macro entry points: input parsing, the database
  itself, and writing the tokens.
- `tests/` — scenarios and unit tests of the library.

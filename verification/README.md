# graphql_linter

Lint rules for GraphQL documents and schemas, with their configuration and
the comment directives that suppress them, written in Verus: each rule's
check states in its contract exactly which diagnostics it reports, and
Verus proves the code against it.

## Layout

- `src/` — the verified library.
  - `document.rs`, `schema.rs`: plain models of executable documents and of
    schema definitions, each node with the byte range it covers.
  - `schema_assembly.rs`: the root operation types of a schema, and each
    type with its extensions merged in.
  - `rules/`: one module per rule; each `check` takes the models (and the
    rule's options) and returns the diagnostics.
  - `config.rs`, `registry.rs`: lint configuration, presets, validation and
    the registered rules.
  - `eslint_disable.rs`, `ignore.rs`: suppression directives in comments.
  - `diagnostics.rs`, `text.rs`, `unicode.rs`, `pattern.rs`: diagnostics,
    text helpers, and the calls into `std`'s Unicode tables and the `regex`
    crate, behind contracts.
- `tests/`: scenarios on concrete inputs; `rule_scenarios.rs` parses
  GraphQL text with `apollo_parser` and runs the rules on it.
- `app/`: the unverified shell: reading configuration and options from JSON
  with serde, turning `apollo_parser` syntax trees into the library's models,
  and running the rules over a project's files.

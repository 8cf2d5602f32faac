# grok_rs

Grok patterns in verified Rust: a pattern text such as
`%{IP:client} %{NUMBER:bytes:int}` is expanded, token by token, into one
regular expression with a named capture group per token, and a matched text is
turned into fields by alias, converted to `int` or `float` where asked.

Layout:

- `src/token.rs`: the grammar of grok tokens and the leftmost-token search.
- `src/table.rs`: pattern tables, and the format of pattern files.
- `src/grok.rs`: the pattern compiler (`Grok::compile`) and its specification.
- `src/pattern.rs`: compiled patterns and `Pattern::parse`.
- `src/numbers.rs`: reading `i64` values and checking float literals.
- `src/engine.rs`: the regular-expression engine (the `regex` crate), whose
  results are named by spec functions.
- `src/text.rs`: character-sequence helpers.
- `src/laws.rs`: properties that span several functions.
- `app/`: loading the default pattern files from `src/patterns/*`, and
  reading float literals into `f64`.

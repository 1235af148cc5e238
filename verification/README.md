# unidpp_projector

Lens projection of digital product passports, verified with Verus.

A passport is an append-only event log. A lens is a registered profile with the
bindings that say where its data points stand, what is derived from them and
how they are presented. The library folds a passport as-of an instant, projects
it under a lens, and reports what it could not see.

- `src/` is the verified library. It does no I/O. The contracts say what the
  functions return; the laws of the library are public proof functions beside
  the functions they speak of.
- `app/` is the HTTP service around it: axum handlers, the registry reader, the
  stores on disk, and the bridge to the core crates that read passport
  documents, seal logs and evaluate triggers.
- `tests/` runs the library on concrete values.

What is believed without proof: `String::push` (`src/text.rs`),
`HashMap::get` on parameters (`src/query.rs`), `serde_json::from_str` with the
walk over its result (`src/json.rs`), and the `Debug` form of a text in messages
(`src/record.rs`).

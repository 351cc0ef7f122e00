# library_system

A lending library (books, members, loans) whose rules are written as
Verus contracts and proved.

- `src/time.rs` — timestamps, due dates (through chrono), when a loan is overdue.
- `src/model.rs` — the rows and the requests and answers of each operation.
- `src/tables.rs` — tables of rows with ascending ids: lookup, counting, lemmas.
- `src/state.rs` — the library as a mathematical value and what each operation does to it.
- `src/library.rs` — the executable library, proved to follow `state.rs`.
- `src/laws.rs` — properties that hold across operations (copies are conserved,
  refused requests change nothing, a returned loan cannot be returned again, ...).
- `app/` — the HTTP server (axum) and the SQLite file (sqlx) that keeps the tables.
- `tests/` — scenarios run against the compiled library.

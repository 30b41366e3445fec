# recall

Search and resume conversations of coding assistants. This crate is the
verified core; its contracts are checked by Verus.

Sessions are discovered for Codex CLI, Factory, per-project JSON-lines logs and
OpenCode. Of these, the library parses OpenCode sessions (its database and its
older file storage); a session file of another tool is refused as of unknown
format (`ParseError::UnknownFormat`).

- `src/session.rs` – sessions, messages and their mathematical models.
- `src/parser/` – session locators, joining of consecutive messages, and the
  OpenCode session builders (database rows and file storage).
- `src/index/` – the index state (which sessions are indexed, with which
  fingerprint), pruning, ordering of work and the decisions of an indexing run.
- `src/order.rs`, `src/text.rs` – stable sorting and text helpers.
- `src/json.rs`, `src/paths.rs`, `src/clock.rs` – the calls into `serde_json`,
  `std::path`, `std::time` and `chrono`, with the contracts the library relies
  on. The system clock is read only when a stored timestamp is missing or out
  of `chrono`'s range.
- `app/` – reading files and databases, discovery on disk, the state file and
  the search-index loop.

# qbank

The core of a desktop question bank: question documents, grading and
spaced-repetition bookkeeping, content-addressed image assets, and a
two-phase sync merge between a hub and its leaves, over an SQLite store.
The library is written in Verus; its functions carry contracts that Verus
proves.

## Layout

- `src/` – the verified library.
  - `text.rs`, `json.rs` – strings and a JSON value with a mathematical view;
    parsing and printing go through `serde_json`.
  - `doc.rs` – the rich-text document model: plain text for search, child ids.
  - `assets.rs`, `blobs.rs` – asset references in documents, the
    content-addressed file layout, upload preparation (base64, SHA-256) and
    the collection of unused assets.
  - `clock.rs`, `ids.rs` – ISO times (through `chrono`) and ids (through
    `uuid`).
  - `merge.rs`, `plan.rs` – last-writer-wins and the sync merge as a pure
    plan over plain values, with its laws.
  - `db.rs`, `schema.rs` – statements through `rusqlite`, and the schema.
    Every statement and query handed to SQLite is recorded in a ghost
    journal (`Db::log`), with its parameters and what came back; the
    commands' contracts state their effect on the store as the calls they
    add to it (which rows are written, with which values, inside which
    transaction), not what SQLite does with them.
  - `banks.rs`, `questions.rs`, `practice.rs`, `settings.rs`, `sync.rs`,
    `backup.rs` – the commands of the application.
- `tests/` – tests on concrete values, run against the real outside crates.
- `app/` – the desktop shell: commands, file system, paths.

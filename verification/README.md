# jotty_core

The core of an offline desktop client for a self-hosted jotty·page instance:
notes and checklists live in a local store, every edit works offline and is
queued, and synchronisation pushes the queue (first in, first out) and then
pulls the server's catalogue under last-write-wins.

## Layout

- `src/` — the verified library (Verus). Every public function has a
  contract; the store (`db::Store`) is a set of tables held as vectors with a
  well-formedness invariant (`Store::wf`) that every operation keeps.
  - `db/` — notes, checklists and their items, the outbox (the queue of
    pending operations), the key/value settings, voice recordings, board
    columns, and the category tree derived from the rows.
  - `sync/` — the push planner and the handling of each outcome, item path
    resolution, and applying a pulled snapshot (imports and tombstones).
  - `commands/` — the logic behind each command of the interface.
  - `client`, `voice_ai`, `updater`, `desktop_branding`, `keys`, `audio` —
    URL rules, the AI server's API prefix and task parsing, release and
    version checks, the branded launcher entry, the key store, and recording
    paths.
  - Calls into outside crates (base64, semver, keyring, serde_json, uuid,
    chrono, the URL parser) sit behind small trusted wrappers whose contracts
    state what those crates document.
- `app/` — ordinary Rust around the library: the SQLite file, the HTTP
  clients, the loops that await the server, file-system work, and the audio
  pipeline (floating point).
- `tests/` — tests of the library.

# codex-tools

Provider management, token-usage statistics, WebDAV thread sync and the WeChat
connection for Codex, with the logic verified by Verus.

- `src/` is the verified library. Each module states its behaviour in `requires` /
  `ensures` over mathematical models (`Seq`, `Map`, `Set`, views of the data types), and
  the public `lemma_*` proof functions state what holds across calls.
  - `text`, `json`, `toml`: strings, and the parsed JSON and TOML documents as plain data
    (JSON text read and written through serde_json).
  - `toml_doc`: TOML documents as toml_edit parses, edits and renders them.
  - `paths`, `pathparts`: where Codex and this tool keep their files.
  - `providers`: the provider store, the built-in `openai` provider, and the
    `config.toml` / `auth.json` written on a switch (through toml_edit).
  - `usage`, `usage_tally`: token usage read from the session logs, by day and provider.
  - `dav`, `webdav`, `manifest`, `sync_plan`: WebDAV multistatus answers (through
    quick-xml), store URLs, the thread manifest, and the plans of a push and a pull.
  - `bridge`: the WeChat connection's configuration, commands and state.
  - `codex_threads`, `models`, `tray`: the overview, moving threads onto the provider in
    use, the models of a provider, and the tray menu.
- `app/` is the command-line program around it: files, HTTP, SQLite and processes.
- `tests/` runs the library on concrete values.

Calls into outside crates stand behind `#[verifier::external_body]` wrappers whose
contracts say what the crate's documentation and source promise.

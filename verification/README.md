# actionbook

The library behind the `actionbook` command line program, verified with Verus.

- `src/json.rs` — JSON documents (`Json`), their mathematical view (`JsonV`),
  member lookup and update, and reading and writing JSON text through
  serde_json.
- `src/text.rs` — character level text operations: trimming, splitting,
  lines, joining, decimal numbers.
- `src/hooks.rs` — registering the session hooks in settings documents, and
  turning the codex hooks feature on in a codex configuration.
- `src/hook_laws.rs`, `src/codex_laws.rs` — what repeated repairs do.
- `src/commands/` — what `search` and `get` show for a reply of the API.
- `src/api/client.rs` — what a request sends and how a reply is answered.
- `app/` — the program: arguments, HTTP, files and printing.

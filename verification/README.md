# Shadow

Explicit, content-addressed large-file storage for Git repositories. Git
tracks small TOML refs under `.shadow/refs/`; file bodies stay in the
worktree, pass through a verified local cache, and live in object storage
(Volcengine TOS) under `<prefix>/<name>/objects/sha256/<2 hex>/<62 hex>`.

## Layout

- `src/` — the library, written in Verus and verified:
  - `model`, `digest`: object IDs, refs, blob keys, SHA-256 digests;
  - `config`, `repository`, `init`: `shadow.toml`, the `# shadow` rules of
    the root `.gitignore`, path and ref mapping;
  - `status`, `publish`, `restore`: the decisions of each command, the
    latter two as step functions from phase and event to phase and action;
  - `backend`: error normalization, key prefixes, multipart planning;
  - `gc`, `history`: reading committed refs out of Git history and planning
    remote garbage collection;
  - `legacy`: helpers of the first on-disk layout and its staging index;
  - `text`, `order`: text utilities and the order of text.
- `app/` — the `shadow` command line: argument parsing, Git, the file
  system, TOML documents and the TOS client, driving the library.
- `tests/` — tests of the library on concrete values.

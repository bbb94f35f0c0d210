# rl

A reading list kept in SQLite: bookmarks with a URL, a name, tags and the
times they were created, updated and visited.

- `src/` is the library, with contracts proved by Verus:
  `text` (trimming, splitting, joining, searching text), `time` (UTC times
  as plain values), `bookmark` (bookmarks, their builder, their printed
  forms, URL fields), `autocomplete` (ranked search suggestions), `cli`
  (validation, tags, menus, edits, how a bookmark is opened), `config` and
  `utils` (configuration from arguments, environment and `config.local`),
  `database` (the statements that add, delete and update a bookmark),
  `context`, `db` and `build_env`.
- `app/` is the interactive program: prompts, the SQLite connection, the
  environment and the file system.
- `tests/` exercises the library on concrete values.

# Ashes of Khorvaire Wiki

A local-first, server-rendered campaign wiki. Pages are HTML with `[[Page Title]]`
wiki links; every save keeps a revision, changed slugs keep their old address as a
redirect, archived pages leave lists, search and link resolution, and content packs
move campaign pages between wikis without overwriting local edits. One session
page can be the active session, to which quick notes are appended.

## Layout

- `src/` — the verified library (Verus):
  - `text.rs` — characters, trimming, case, numerals, word splitting, string order
  - `encode.rs` — HTML escaping, percent-encoding, slugs, JSON strings, SHA-256
  - `models.rs` — pages, revisions, forms and the content types
  - `render.rs` — the tag and link grammar, link rendering, linked titles,
    linked pages, backlinks and broken links
  - `db.rs` — validation, slugs, search text, full-text queries, summaries, time,
    the active session and quick notes
  - `content.rs` — content pack validation, hashes, conflicts and apply steps
  - `error.rs`, `web.rs`, `cli.rs`, `seed.rs` — error pages, page framing,
    command-line arguments, and the campaign seed
- `app/` — the server (axum, askama, sqlx on SQLite) and the `ashes-content`
  tool (run under that name), which do the I/O and call the library.
- `tests/` — tests of the library.

## Running

```
DATABASE_URL=sqlite://ashes.db BIND_ADDRESS=127.0.0.1:3000 cargo run
```

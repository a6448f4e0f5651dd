# kb_app

A verified library for a personal knowledge base kept in a Vault of plain
files: configuration layering, source admission and review, text extraction
(plain text, HTML, EPUB, DOCX), search, resource paging, managed Markdown
regions, template and Skill installation plans, backups, sync checks and the
apply/recovery bookkeeping of writing operations.

Every function in `src/` is written in Verus and carries a contract that is
proved. Calls into outside crates (ZIP reading, XML and HTML parsing, HTML
rendering, SHA-256, JSON and YAML error reporting) go through small trusted
wrappers whose contracts are stated in their doc comments.

Layout:

- `src/` — the verified library, one module per area.
- `tests/` — executable tests of the library.
- `app/` — ordinary Rust around the library: reading and writing files,
  and the serde forms of the library's types.

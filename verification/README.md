# rubber_duck

The core of a planning assistant: sessions hold notes, tickets, attached code
repositories and a conversation with a language model, and documents are
written section by section from templates.

`src/` is a Verus library: it is verified, and every public function there
carries a contract. It holds what the assistant decides and computes:

- `context` — the messages sent to the model (system prompt with the
  session's context, recent conversation), and `@` mentions.
- `stream` — decoding of a streamed completion (server-sent-event lines in,
  chunk and completion events out).
- `templates`, `docs` — built-in document templates, their section markers,
  and the sections of a new document.
- `chunker`, `syntax`, `indexer` — cutting files into chunks for retrieval,
  by line windows or along a tree-sitter syntax tree.
- `search`, `history` — full-text queries and previews.
- `summary`, `file_search`, `file_tree` — what is shown of a repository.
- `files`, `images` — which file contents count as text, pasted images.
- `jira`, `ticket`, `repo`, `models`, `rag` — records and their rules.
- `text`, `order`, `pattern` — text primitives, a verified sort, and the
  regular-expression calls.

Calls into outside crates (regex, serde_json, base64, percent-encoding,
tree-sitter) and a few std functions stand behind small trusted wrappers. Their
contracts state what those crates' sources show, or name a result that
depends on the arguments alone.

`app/` is ordinary Rust around the library: the SQLite stores, the HTTP
clients, the directory walks, the keyring, and the floating-point ranking of
retrieval results.

`tests/` runs the library on concrete values.

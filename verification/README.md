# knowlix

A local-first knowledge tool: it indexes the documents of a project
(text, code, Markdown, PDF, Office files), searches them by keyword with
reciprocal rank fusion for hybrid results, answers questions through a
local or remote language model, and writes project and global wikis.

The library under `src/` is verified with Verus. It holds the logic:

- `chunking` — overlapping chunks of at most 3600 bytes, ending on newlines;
- `filetypes`, `xmltext`, `digest` — file classification, text out of
  document XML and spreadsheets, SHA-256 content hashes;
- `indexer` — what indexing a file does, the re-index run over a project,
  and the index status;
- `storage` — rows turned into records and back, snippets;
- `search` — ranked results and their fusion;
- `ai_agent` — provider configuration, health checks, query expansion and
  the question-answering prompt;
- `wiki` — content hashes, batches, titles, the project wiki run (one
  model call and one page per batch) and the global context;
- `project`, `viewer`, `watcher` — project folders, file views, file events.

`app/` is an unverified command-line program around it: SQLite and Tantivy
storage, file reading, HTTP calls to Ollama or an OpenAI-compatible API, and
the file watcher. `tests/` runs the library on concrete values.

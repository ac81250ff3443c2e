# grafium_core

The verified core of a personal knowledge-graph application: the parsers,
formatters, budgets and decision rules behind importing books and Anki decks,
answering questions from notes, and keeping the registry of graphs. Every
function under `src/` carries a `requires`/`ensures` contract proved by Verus;
the few calls into outside crates (regex, HTML and Markdown parsing, JSON,
hashing, dates, zip archives) go through small trusted wrappers whose contracts are stated
next to them.

Layout:

- `src/text.rs`, `src/unicode.rs`, `src/numbers.rs`, `src/patterns.rs`:
  character-level primitives, Unicode classes, decimal numbers and the regex
  wrappers.
- `src/archive.rs`: zip entries and UTF-8 text through small trusted
  wrappers.
- `src/books/`: reading EPUB archives (`epub_archive.rs`), HTML, Markdown
  and PDF text into chapters, their assets and outlines.
- `src/anki.rs`: turning an Anki deck's notes, note types and media map into
  a page of flashcards.
- `src/ask_budget.rs`, `src/answer_plan.rs`, `src/engine.rs`,
  `src/conversation.rs`, `src/reading_scope.rs`, `src/assistant_scope.rs`:
  fitting a question, its history and its excerpts into a model's context,
  the prompts, and what is told to the user.
- `src/providers.rs`: which model clients an AI configuration asks for.
- `src/registry.rs`, `src/collections.rs`, `src/chat_title.rs`,
  `src/ink.rs`: the graph registry and smaller models.
- `tests/`: tests run against the compiled library.
- `app/`: file and JSON work around the library (registry persistence,
  Anki package import, book files).

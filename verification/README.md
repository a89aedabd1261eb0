# seekr

Local code search: a workspace is scanned, each file is cut into chunks and scanned for the
symbols it declares, and everything is put into a full-text index that the command line and
the desktop front end query.

## Layout

- `src/` is the verified library (Verus). Each function states what it returns in its
  `ensures`, over the spec functions beside it, and the proof functions named `lemma_*`
  state the library's laws.
  - `text`, `paths`: the string and path operations the rest is written with (`str::lines`,
    `split_whitespace`, `trim`, `Path::file_name`, `Path::extension`, ...), each with its
    specification.
  - `digest`: SHA-256 (from `sha2`) as lowercase hex (from `hex`), and the ids built on it.
  - `grammar`: the tree-sitter grammars, each built together with the language that
    implements it, and a parsed tree as plain values (nodes with the positions of their
    children); the stack walk over that tree is verified in `parser`.
  - `parser`: line windows, line-pattern symbols, and chunks and symbols from tree-sitter
    syntax trees.
  - `scanner`, `crawler`, `watcher`: which files are indexed, under which language.
  - `text_index`, `query`, `search`, `models`: which stored documents answer a query and how
    hits, excerpts and results are shaped.
  - `ingest`, `workspace`: file ids, the per-file documents, the running account of a
    snapshot, workspace ids and status.
  - `cli`: usage text, flag parsing and default paths of the command line.
- `tests/`: tests of the library on concrete values.
- `app/`: the command line and the services around the library that do I/O: the SQLite
  stores, the tantivy index, the directory walks, git, the file watcher and PDF text.

# lsp_locations

A picker for LSP location results such as find-all-references. The locations are
grouped by file, filtered by what is typed, previewed one at a time, and opened by a
double click or the Enter key.

- `src/` is the library: what the picker computes and decides, verified with Verus.
  It works on plain values. A location is the identity of its buffer and the place
  where the editor keeps its anchors; a file is its rank in the project's order of
  paths and its path text; times are nanoseconds.
- `tests/` runs the library on concrete values.
- `app/` is the modal in the workspace. It reads buffers, runs the query, draws rows
  and opens locations. It is built inside the editor's own workspace, whose crates
  (`gpui`, `editor`, `picker`, `project` and others) it uses.

One function of the standard library is taken on trust: `str::to_lowercase` is a
function of the characters it is given, and keeps the empty text empty.

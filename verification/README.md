# semantit

Semantic diff and merge for TypeScript source files. Each file is modelled as an index of
semantic entities (functions, classes, methods, interfaces, type aliases, variables) with
stable ids and hashes; two indexes are diffed entity by entity, and three are merged.

## Layout

- `src/` — the library, verified with Verus:
  - `model.rs`: the index, entities, changes, conflicts and merge results;
  - `hash.rs`, `text.rs`: BLAKE3 digests, whitespace normalization, ids and hashes;
  - `ts_source.rs`, `ts_render.rs`, `ts_entity.rs`, `ts_index.rs`: the TypeScript index
    builder, from the declarations of a module to its index;
  - `deps.rs`, `sort.rs`: dependency sets and stable sorting;
  - `diff.rs`, `merge.rs`: the semantic diff and the three-way merge;
  - `one_sided.rs`: merges against a branch that left the base unchanged;
  - `ts_layout.rs`: what an index and a diff keep when declarations are reordered, moved,
    respaced or given a new header;
  - `parser.rs`, `registry.rs`, `error.rs`: parsers, the registry and errors;
  - `report.rs`: the lines of the human-readable reports.
- `app/` — the command line (`parse`, `diff`, `merge`), the swc front end that lowers a
  parsed module to the builder's declarations, and the JSON forms of the results.
- `tests/` — tests of the library.

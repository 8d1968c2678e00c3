# oxc_openapi_order

OpenAPI-aware key ordering for YAML and JSON formatters, verified with Verus.

The library decides the order of an OpenAPI document's mappings and nothing else: it never
renames, deletes or rewrites a value, and never changes a node's kind. Every public function
carries a contract, and Verus proves each body against it.

## Layout

- `src/tables.rs`, `src/rule.rs`: the built-in key-order tables, user overrides, and the rule
  that picks the table ordering a mapping from its ancestry.
- `src/compare.rs`, `src/lex.rs`, `src/units.rs`: case-insensitive and code-unit comparison of
  keys (UTF-16 code units, as JavaScript compares strings), with total-order laws.
- `src/permute.rs`, `src/paths.rs`: turning a table, or the `paths` sub-option, and a mapping's
  keys into a permutation, with idempotence laws.
- `src/session.rs`: the per-run state both formatter backends share (ancestry, frames, blank-line
  snapshots), with the laws that frames nest and unwind.
- `src/config.rs`, `src/format_config.rs`: the `sortOpenapi` option and its configuration form.
- `src/json_openapi.rs`, `src/yaml_openapi.rs`, `src/yaml_text.rs`: the printers' side: the
  content gate, the refusals that keep source order, and the strings a mapping is ordered by,
  over plain models of a parsed document (`JsonTree`, `YamlTree`).
- `src/block_collection.rs`: the walk over a YAML block collection's items.

The tests under `tests/` run the library on concrete inputs.

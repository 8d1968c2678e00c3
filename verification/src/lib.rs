//! OpenAPI-aware key ordering policy.
//!
//! Only the ORDERING of an OpenAPI document's mappings is decided here: nothing renames,
//! deletes, or rewrites a value, and nothing changes a node's kind.
//!
//! The crate knows no AST. Callers supply a mapping's ancestry and its key texts; they get back
//! a permutation (or "no permutation"). Both the YAML and JSON formatter backends use it, so the
//! policy is defined exactly once.
//!
//! A table can order a node's own entries, the entries of each of its children, or the entries
//! of each element of a sequence. Rather than applying those roles from a traversal, this crate
//! asks one question per mapping: "which table orders THIS mapping's own entries?" The answer is
//! a pure function of the mapping's ancestry ([`resolve`]), and a mapping is ordered exactly once.
//!
//! [`permutation`] compares the strings it is given. A formatter must pass each key's resolved
//! scalar value, with quotes and escapes already removed; otherwise a quoted `"beta"` would sort
//! before a plain `alpha`, because `"` is 0x22.
//!
//! Integer-like keys are ordered as text, never numerically; a sequence under an ordered key
//! stays a sequence; every key is kept, `__proto__` included; ties break by source position; and
//! sequence elements are never reordered.
pub mod block_collection;
pub mod compare;
pub mod config;
pub mod format_config;
pub mod json_openapi;
pub mod lex;
pub mod paths;
pub mod permute;
pub mod rule;
pub mod session;
pub mod tables;
pub mod units;
pub mod yaml_openapi;
pub mod yaml_text;

pub use config::{KeyOrderEntry, SortOpenapi};
pub use paths::{PathsOrder, TAG_METHOD_ORDER, order_by_path, order_by_tags};
pub use permute::{Scratch, permutation};
pub use rule::{KeyOrder, Options, Step, is_paths_mapping, resolve, resolve_root};
pub use session::{Frame, MappingOrder, Session};
pub use tables::{Table, alphabetical};

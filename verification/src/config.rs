//! What `sortOpenapi` accepts, owned rather than borrowed.
//!
//! This is the user's side of the crate; [`Options`] is the rule's side. A formatter holds this for
//! the whole run, while [`Options`] is a borrowed view built for the length of one question.

use vstd::prelude::*;

use crate::paths::PathsOrder;
use crate::rule::{KeyOrder, Options, OverridesView, PolicyView, entries_view};

verus! {

/// One `keyOrder` override: a parent key, and the field order to use for it.
#[derive(Debug, Clone, PartialEq, Eq)]
pub struct KeyOrderEntry {
    /// The parent key whose table this replaces: `"get"`, `"responses"`, `"root"`, and so on.
    pub key: String,
    /// The field order. Keys not listed follow the listed ones, compared case-insensitively.
    ///
    /// An empty list is a real answer rather than an omission: it ranks nothing, so the mapping is
    /// ordered alphabetically. Leaving the entry out instead keeps the built-in table, or source
    /// order.
    pub fields: Vec<String>,
}

/// `sortOpenapi`: whether to order OpenAPI documents, and how.
///
/// [`Default`] is enabled with every sub-option at its own default, which is the default pass.
/// The option is on by default, so the type's default has to be the on state.
#[derive(Debug, Clone, PartialEq, Eq)]
pub struct SortOpenapi {
    /// Whether to order at all.
    pub enabled: bool,
    /// How the members of the `paths` mapping are ordered.
    pub paths: PathsOrder,
    /// Order the members of every direct member of the root `components` mapping alphabetically.
    pub components: bool,
    /// Order `properties` mappings under `components.schemas` alphabetically.
    pub properties: bool,
    /// Field-order overrides, layered over the built-in tables.
    ///
    /// Naming one table leaves every other one intact.
    pub key_order: Vec<KeyOrderEntry>,
}

impl SortOpenapi {
    /// The overrides, as `(key, fields)` pairs of character sequences.
    pub open spec fn key_order_view(&self) -> OverridesView {
        entries_view(self.key_order@)
    }

    /// What the rule reads of these options.
    pub open spec fn policy_view(&self) -> PolicyView {
        (self.key_order_view(), self.components, self.properties)
    }

    /// The borrowed view the rule resolves against.
    ///
    /// Cheap enough to build per mapping: it borrows the overrides rather than copying them.
    pub fn options(&self) -> (options: Options<'_>)
        ensures
            options@ == self.policy_view(),
    {
        Options {
            key_order: KeyOrder::new(self.key_order.as_slice()),
            components: self.components,
            properties: self.properties,
        }
    }
}

impl Default for SortOpenapi {
    fn default() -> (sort: Self)
        ensures
            sort.enabled,
            sort.paths == PathsOrder::Original,
            !sort.components,
            !sort.properties,
            sort.key_order@.len() == 0,
    {
        SortOpenapi {
            enabled: true,
            paths: PathsOrder::Original,
            components: false,
            properties: false,
            key_order: Vec::new(),
        }
    }
}

impl From<bool> for SortOpenapi {
    /// `true` is the default pass; `false` disables the feature entirely.
    fn from(enabled: bool) -> (sort: Self)
        ensures
            sort.enabled == enabled,
            sort.paths == PathsOrder::Original,
            !sort.components,
            !sort.properties,
            sort.key_order@.len() == 0,
    {
        SortOpenapi {
            enabled,
            paths: PathsOrder::Original,
            components: false,
            properties: false,
            key_order: Vec::new(),
        }
    }
}

impl vstd::std_specs::convert::FromSpecImpl<bool> for SortOpenapi {
    /// The conversion is described by the field-wise `ensures` of `from` instead: a value holding
    /// a fresh `Vec` has no spec-level constructor to equal.
    open spec fn obeys_from_spec() -> bool {
        false
    }

    open spec fn from_spec(enabled: bool) -> SortOpenapi {
        choose|sort: SortOpenapi|
            sort.enabled == enabled && sort.paths == PathsOrder::Original && !sort.components
                && !sort.properties && sort.key_order@.len() == 0
    }
}

} // verus!

//! `sortOpenapi` as the formatter's configuration spells it, and its conversion into
//! [`SortOpenapi`], the option type both formatter backends consume.
//!
//! Shared by the YAML and JSON backends rather than written twice: the option means the same
//! thing in both, and a per-backend copy is exactly where the two would drift.

use vstd::prelude::*;

use crate::config::{KeyOrderEntry, SortOpenapi};
use crate::paths::PathsOrder;
use crate::rule::{OverridesView, entries_view};

verus! {

/// `sortOpenapi.paths` as written in a configuration file.
#[derive(Debug, Clone, Copy, PartialEq, Eq)]
pub enum PathsOrderConfig {
    /// `"original"`.
    Original,
    /// `"path"`.
    Path,
    /// `"tags"`.
    Tags,
}

/// The object form of `sortOpenapi`: every sub-option independently optional.
#[derive(Debug, Clone, PartialEq, Eq)]
pub struct SortOpenapiConfig {
    /// How the members of `paths` are ordered.
    pub paths: Option<PathsOrderConfig>,
    /// Order component types alphabetically.
    pub components: Option<bool>,
    /// Order `components.schemas` properties alphabetically.
    pub properties: Option<bool>,
    /// Field-order overrides, as `(table name, fields)` pairs in ascending name order.
    pub key_order: Option<Vec<(String, Vec<String>)>>,
}

/// `sortOpenapi` as a user writes it: a switch, or an object of sub-options.
#[derive(Debug, Clone, PartialEq, Eq)]
pub enum SortOpenapiUserConfig {
    /// `true` is the default pass, `false` turns the feature off.
    Enabled(bool),
    /// The sub-options, which also turn the feature on.
    Config(SortOpenapiConfig),
}

/// The formatter configuration, as far as OpenAPI ordering reads it.
#[derive(Debug, Clone, PartialEq, Eq)]
pub struct FormatConfig {
    /// `sortOpenapi`, unset when the configuration does not mention it.
    pub sort_openapi: Option<SortOpenapiUserConfig>,
}

/// `(key, fields)` pairs as character sequences.
pub open spec fn pairs_view(pairs: Seq<(String, Vec<String>)>) -> OverridesView {
    pairs.map_values(|pair: (String, Vec<String>)| (pair.0@, pair.1.deep_view()))
}

/// The overrides a configuration's `keyOrder` yields: none when it is unset.
pub open spec fn key_order_of(config: SortOpenapiConfig) -> OverridesView {
    match config.key_order {
        Some(pairs) => pairs_view(pairs@),
        None => Seq::empty(),
    }
}

/// The `paths` order a configuration asks for: source order when unset.
pub open spec fn paths_of(config: SortOpenapiConfig) -> PathsOrder {
    match config.paths {
        Some(PathsOrderConfig::Path) => PathsOrder::Path,
        Some(PathsOrderConfig::Tags) => PathsOrder::Tags,
        _ => PathsOrder::Original,
    }
}

/// Whether `sort` carries the sub-options `config` over, each unset one at its default.
pub open spec fn mirrors(sort: SortOpenapi, config: SortOpenapiConfig) -> bool {
    &&& sort.enabled
    &&& sort.paths == paths_of(config)
    &&& sort.components == (config.components == Some(true))
    &&& sort.properties == (config.properties == Some(true))
    &&& sort.key_order_view() == key_order_of(config)
}

/// Every sub-option a configuration spells out is carried over as written, and every one it
/// leaves unset takes its default: both passes off, `paths` in source order.
pub proof fn lemma_sub_options_carry_over(sort: SortOpenapi, config: SortOpenapiConfig)
    requires
        mirrors(sort, config),
    ensures
        sort.enabled,
        config.components matches Some(on) ==> sort.components == on,
        config.components is None ==> !sort.components,
        config.properties matches Some(on) ==> sort.properties == on,
        config.properties is None ==> !sort.properties,
        config.paths == Some(PathsOrderConfig::Path) ==> sort.paths == PathsOrder::Path,
        config.paths == Some(PathsOrderConfig::Tags) ==> sort.paths == PathsOrder::Tags,
        config.paths == Some(PathsOrderConfig::Original) ==> sort.paths == PathsOrder::Original,
        config.paths is None ==> sort.paths == PathsOrder::Original,
        config.key_order is None ==> sort.key_order@.len() == 0,
{
    assert(sort.key_order_view().len() == sort.key_order@.len());
}

/// A copy of `strings`.
fn clone_strings(strings: &Vec<String>) -> (copy: Vec<String>)
    ensures
        copy.deep_view() == strings.deep_view(),
{
    let mut copy: Vec<String> = Vec::new();
    let mut i: usize = 0;
    while i < strings.len()
        invariant
            i <= strings@.len(),
            copy.deep_view() =~= strings.deep_view().take(i as int),
        decreases strings@.len() - i,
    {
        let ghost before = copy.deep_view();
        let s = strings[i].clone();
        copy.push(s);
        assert(copy.deep_view() =~= before.push(strings@[i as int]@));
        assert(strings.deep_view().take(i + 1) =~= strings.deep_view().take(i as int).push(
            strings@[i as int]@,
        ));
        i = i + 1;
    }
    copy
}

/// The `keyOrder` entries for `pairs`, in the same order.
fn key_order_entries(pairs: &Vec<(String, Vec<String>)>) -> (entries: Vec<KeyOrderEntry>)
    ensures
        entries_view(entries@) == pairs_view(pairs@),
{
    let mut entries: Vec<KeyOrderEntry> = Vec::new();
    let mut i: usize = 0;
    while i < pairs.len()
        invariant
            i <= pairs@.len(),
            entries_view(entries@) =~= pairs_view(pairs@.take(i as int)),
        decreases pairs@.len() - i,
    {
        let pair = &pairs[i];
        let entry = KeyOrderEntry { key: pair.0.clone(), fields: clone_strings(&pair.1) };
        let ghost before = entries@;
        entries.push(entry);
        assert(entries@ =~= before.push(entry));
        assert(pairs@.take(i + 1) =~= pairs@.take(i as int).push(pairs@[i as int]));
        assert(entries_view(entries@) =~= entries_view(before).push(
            (entry.key@, entry.fields.deep_view()),
        ));
        assert(pairs_view(pairs@.take(i + 1)) =~= pairs_view(pairs@.take(i as int)).push(
            (pairs@[i as int].0@, pairs@[i as int].1.deep_view()),
        ));
        i = i + 1;
    }
    entries
}

/// The sub-options an unset `sortOpenapi` stands for: every one unset.
pub fn default_sort_config() -> (config: SortOpenapiConfig)
    ensures
        config.paths is None,
        config.components is None,
        config.properties is None,
        config.key_order is None,
{
    SortOpenapiConfig { paths: None, components: None, properties: None, key_order: None }
}

/// The option value for the sub-options `config`.
fn from_config(config: &SortOpenapiConfig) -> (sort: SortOpenapi)
    ensures
        mirrors(sort, *config),
{
    let paths = match config.paths {
        Some(PathsOrderConfig::Path) => PathsOrder::Path,
        Some(PathsOrderConfig::Tags) => PathsOrder::Tags,
        Some(PathsOrderConfig::Original) | None => PathsOrder::Original,
    };
    let components = match config.components {
        Some(on) => on,
        None => false,
    };
    let properties = match config.properties {
        Some(on) => on,
        None => false,
    };
    let key_order = match &config.key_order {
        Some(pairs) => key_order_entries(pairs),
        None => Vec::new(),
    };
    let sort = SortOpenapi { enabled: true, paths, components, properties, key_order };
    assert(sort.key_order_view() =~= key_order_of(*config));
    sort
}

/// Convert `sortOpenapi` into the option type both formatter backends consume.
///
/// Opt-out: unset means enabled with defaults, and only an explicit `sortOpenapi: false`
/// disables it. Every sub-option is independently optional, so `{ "components": true }` leaves
/// the other three at their defaults.
///
/// Pure field conversion, and infallible: an unparsable value is a configuration error long
/// before this runs.
pub fn to_sort_openapi(config: &FormatConfig) -> (sort: SortOpenapi)
    ensures
        match config.sort_openapi {
            Some(SortOpenapiUserConfig::Enabled(false)) => {
                &&& !sort.enabled
                &&& sort.paths == PathsOrder::Original
                &&& !sort.components
                &&& !sort.properties
                &&& sort.key_order@.len() == 0
            },
            Some(SortOpenapiUserConfig::Config(sub)) => mirrors(sort, sub),
            _ => {
                &&& sort.enabled
                &&& sort.paths == PathsOrder::Original
                &&& !sort.components
                &&& !sort.properties
                &&& sort.key_order@.len() == 0
            },
        },
{
    match &config.sort_openapi {
        Some(SortOpenapiUserConfig::Enabled(false)) => SortOpenapi::from(false),
        Some(SortOpenapiUserConfig::Config(sub)) => from_config(sub),
        _ => {
            let sort = from_config(&default_sort_config());
            assert(sort.key_order@.len() == 0) by {
                assert(sort.key_order_view().len() == sort.key_order@.len());
            }
            sort
        },
    }
}

} // verus!

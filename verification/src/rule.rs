//! Which table orders a mapping's own entries.
//!
//! One question, asked once per mapping: "which table orders THIS mapping's own entries?" The
//! answer is a function of the mapping's ancestry alone, so a mapping is ordered exactly once.

use vstd::prelude::*;

use crate::config::KeyOrderEntry;
use crate::tables::{Table, alphabetical, builtin, builtin_entries};

verus! {

/// One step of a mapping's ancestry, from the document root down to and including the
/// mapping's own step.
///
/// [`Step::Index`] steps are load-bearing: the guards index the ancestry absolutely
/// (`path[0]`, `path[1]`, `path[3]`) with array indices counted as segments, so dropping them
/// would shift every later index.
#[derive(Debug, Clone, Copy, PartialEq, Eq)]
pub enum Step<'a> {
    /// An entry of a mapping, identified by its key text.
    Key(&'a str),
    /// An element of a sequence, identified by its position.
    Index(u32),
}

impl<'a> Step<'a> {
    /// The step for the element at `index`.
    ///
    /// Saturates rather than wrapping. No table names a millionth element, so every index past
    /// `u32::MAX` is equally unnamed and collapsing them is safe; wrapping would alias one onto a
    /// small index that a guard does name.
    pub fn index(index: usize) -> (step: Self)
        ensures
            step == Step::<'a>::Index(if index <= u32::MAX { index as u32 } else { u32::MAX }),
    {
        if index <= u32::MAX as usize {
            Step::Index(index as u32)
        } else {
            Step::Index(u32::MAX)
        }
    }
}

/// The key a step names, or `None` for a sequence index.
pub open spec fn step_key(step: Step) -> Option<Seq<char>> {
    match step {
        Step::Key(key) => Some(key@),
        Step::Index(_) => None,
    }
}

/// The key at absolute index `index` of `path`; `None` when out of range or a sequence index.
pub open spec fn key_at_spec(path: Seq<Step>, index: int) -> Option<Seq<char>> {
    if 0 <= index < path.len() {
        step_key(path[index])
    } else {
        None
    }
}

/// [`key_at_spec`] counted back from the end: `0` is the node's own step, `1` its parent's.
pub open spec fn key_back_spec(path: Seq<Step>, back: int) -> Option<Seq<char>> {
    key_at_spec(path, path.len() - 1 - back)
}

/// The `keyOrder` overrides as `(key, fields)` pairs of character sequences.
pub type OverridesView = Seq<(Seq<char>, Seq<Seq<char>>)>;

/// What the rule reads of the options: the overrides, and the two alphabetical passes
/// (`components`, `properties`).
pub type PolicyView = (OverridesView, bool, bool);

/// The `keyOrder` overrides as `(key, fields)` pairs of character sequences.
pub open spec fn entries_view(entries: Seq<KeyOrderEntry>) -> OverridesView {
    entries.map_values(|entry: KeyOrderEntry| (entry.key@, entry.fields.deep_view()))
}

/// The index of the last override named `key`, if any.
pub open spec fn last_override(overrides: OverridesView, key: Seq<char>) -> Option<int>
    decreases overrides.len(),
{
    if overrides.len() == 0 {
        None
    } else if overrides.last().0 == key {
        Some(overrides.len() - 1)
    } else {
        last_override(overrides.drop_last(), key)
    }
}

/// The effective table for `key`: the last override that names it, else the built-in one.
pub open spec fn effective_table(overrides: OverridesView, key: Seq<char>) -> Option<Seq<Seq<char>>> {
    match last_override(overrides, key) {
        Some(i) => Some(overrides[i].1),
        None => builtin_entries(key),
    }
}

/// An override replaces one table by name and leaves every other table intact: the name it
/// gives gets its fields, and every other name keeps the table it had.
pub proof fn lemma_override_replaces_one_table(
    overrides: OverridesView,
    name: Seq<char>,
    fields: Seq<Seq<char>>,
    key: Seq<char>,
)
    ensures
        effective_table(overrides.push((name, fields)), name) == Some(fields),
        key != name ==> effective_table(overrides.push((name, fields)), key) == effective_table(
            overrides,
            key,
        ),
{
    let pushed = overrides.push((name, fields));
    assert(pushed.drop_last() =~= overrides);
    if key != name {
        lemma_last_override_in_range(overrides, key);
        if let Some(i) = last_override(overrides, key) {
            assert(pushed[i] == overrides[i]);
        }
    }
}

/// The last override named `key` is an override of `overrides`, and is named `key`.
proof fn lemma_last_override_in_range(overrides: OverridesView, key: Seq<char>)
    ensures
        last_override(overrides, key) matches Some(i) ==> 0 <= i < overrides.len()
            && overrides[i].0 == key,
    decreases overrides.len(),
{
    if overrides.len() > 0 && overrides.last().0 != key {
        lemma_last_override_in_range(overrides.drop_last(), key);
    }
}

/// A built-in table can never be removed: whatever the overrides, every name with a built-in
/// table still has a table, the built-in one unless an override names it.
pub proof fn lemma_builtin_tables_survive(overrides: OverridesView, key: Seq<char>)
    requires
        builtin_entries(key) is Some,
    ensures
        effective_table(overrides, key) is Some,
        last_override(overrides, key) is None ==> effective_table(overrides, key)
            == builtin_entries(key),
{
}

/// `Some` table's entries, or `None`.
pub open spec fn table_view(table: Option<Table>) -> Option<Seq<Seq<char>>> {
    match table {
        Some(t) => Some(t@),
        None => None,
    }
}

/// The key-order tables: the built-ins, with user overrides layered over them.
///
/// An override replaces one table by name and leaves every other table intact, so a built-in
/// table can never be removed: [`KeyOrder::table`] answers `Some` for all fifteen built-in names
/// no matter what.
#[derive(Debug, Clone, Copy)]
pub struct KeyOrder<'a> {
    overrides: &'a [KeyOrderEntry],
}

impl<'a> KeyOrder<'a> {
    /// The overrides, as `(key, fields)` pairs.
    pub closed spec fn overrides_view(self) -> OverridesView {
        entries_view(self.overrides@)
    }

    /// The effective table for `key`.
    pub open spec fn table_of(self, key: Seq<char>) -> Option<Seq<Seq<char>>> {
        effective_table(self.overrides_view(), key)
    }

    /// Layer `overrides` over the built-in tables.
    pub fn new(overrides: &'a [KeyOrderEntry]) -> (order: Self)
        ensures
            order.overrides_view() == entries_view(overrides@),
    {
        KeyOrder { overrides }
    }

    /// The effective table for `key`, if it has one.
    ///
    /// An empty table means "order alphabetically"; `None` means "keep source order". Those are
    /// different answers.
    ///
    /// A repeated override name resolves to the last entry, matching what JSON object parsing
    /// would have produced for the same source.
    pub fn table(&self, key: &str) -> (table: Option<Table<'a>>)
        ensures
            table_view(table) == self.table_of(key@),
            table matches Some(Table::User(_)) <==> last_override(
                self.overrides_view(),
                key@,
            ) is Some,
    {
        let mut i = self.overrides.len();
        assert(self.overrides_view().take(i as int) =~= self.overrides_view());
        while i > 0
            invariant
                i <= self.overrides@.len(),
                last_override(self.overrides_view(), key@) == last_override(
                    self.overrides_view().take(i as int),
                    key@,
                ),
            decreases i,
        {
            let entry = &self.overrides[i - 1];
            assert(self.overrides_view().take(i as int).drop_last() =~= self.overrides_view().take(
                i - 1,
            ));
            if entry.key.as_str().eq(key) {
                return Some(Table::User(entry.fields.as_slice()));
            }
            i = i - 1;
        }
        match builtin(key) {
            Some(entries) => Some(Table::Builtin(entries)),
            None => None,
        }
    }
}

impl<'a> Default for KeyOrder<'a> {
    fn default() -> (order: Self)
        ensures
            order.overrides_view().len() == 0,
    {
        KeyOrder { overrides: &[] }
    }
}

/// The ordering policy for one format run.
#[derive(Debug, Clone, Copy)]
pub struct Options<'a> {
    /// Field-order tables.
    pub key_order: KeyOrder<'a>,
    /// Order the members of every direct member of the root `components` mapping
    /// alphabetically.
    ///
    /// `true` means every string-keyed member, which is wider than "every standard component
    /// type": `components.anything` qualifies. A sequence element is deliberately not a member.
    pub components: bool,
    /// Order `properties` mappings under `components.schemas` alphabetically.
    pub properties: bool,
}

impl<'a> View for Options<'a> {
    type V = PolicyView;

    open spec fn view(&self) -> PolicyView {
        (self.key_order.overrides_view(), self.components, self.properties)
    }
}

impl<'a> Default for Options<'a> {
    fn default() -> (options: Self)
        ensures
            options.key_order.overrides_view().len() == 0,
            !options.components,
            !options.properties,
    {
        Options { key_order: KeyOrder::default(), components: false, properties: false }
    }
}

/// A key whose table orders the mapping's children rather than its own entries.
pub open spec fn is_child_role_key(key: Seq<char>) -> bool {
    key == "responses"@ || key == "schemas"@ || key == "properties"@
}

/// Would the node at `path` have its children ordered, rather than its own entries?
///
/// Its key must be a child-role key with a table, its parent must not be keyed `properties` or
/// `value` (a parent that is a sequence element has no key, which passes), and the key at
/// absolute index 1 must not be `examples` (out of range passes).
pub open spec fn child_role(overrides: OverridesView, path: Seq<Step>) -> bool {
    match key_back_spec(path, 0) {
        Some(key) => {
            &&& is_child_role_key(key)
            &&& effective_table(overrides, key) is Some
            &&& key_back_spec(path, 1) != Some("properties"@)
            &&& key_back_spec(path, 1) != Some("value"@)
            &&& key_at_spec(path, 1) != Some("examples"@)
        },
        None => false,
    }
}

/// `components.examples.*.value` and everything below it: absolute index 3 is `value`.
pub open spec fn under_components_examples_value(path: Seq<Step>) -> bool {
    key_at_spec(path, 0) == Some("components"@) && key_at_spec(path, 1) == Some("examples"@)
        && key_at_spec(path, 3) == Some("value"@)
}

/// A sequence item inside an `example` payload whose elements are skipped: the enclosing
/// sequence is keyed `example`, under `components` or with `requestBody` at absolute index 3.
pub open spec fn skipped_example_element(path: Seq<Step>) -> bool {
    path.len() >= 1 && {
        let sequence = path.drop_last();
        key_back_spec(sequence, 1) == Some("example"@) && (key_at_spec(sequence, 0) == Some(
            "components"@,
        ) || key_at_spec(sequence, 3) == Some("requestBody"@))
    }
}

/// The opt-in alphabetical passes (rule 3).
pub open spec fn alphabetical_pass(policy: PolicyView, path: Seq<Step>) -> bool {
    ||| policy.1 && key_back_spec(path, 0) is Some && key_at_spec(path, 0) == Some(
        "components"@,
    ) && key_back_spec(path, 1) == Some("components"@)
    ||| policy.2 && key_back_spec(path, 0) == Some("properties"@) && key_at_spec(path, 0)
        == Some("components"@) && key_at_spec(path, 1) == Some("schemas"@)
}

/// Whether the last step of `path` is a sequence index.
pub open spec fn ends_in_index(path: Seq<Step>) -> bool {
    path.len() > 0 && path.last() is Index
}

/// The table that orders the entries of the mapping at `path`, or `None` for source order.
///
/// With `K` = this mapping's own key, `P` = the key of the mapping directly containing it,
/// and `S` = the key of the enclosing sequence when this mapping is a sequence item:
///
/// 1. `K` has a table, `K` is not in child role, and the mapping is not under
///    `components.examples.*.value` -> `K`'s table.
/// 2. Else the mapping is a sequence item and `S` has a table (and the item is not a skipped
///    `example` element) -> `S`'s table; any other sequence item keeps source order.
/// 3. Else an opt-in alphabetical pass applies -> alphabetical.
/// 4. Else `P` is in child role -> `P`'s table.
/// 5. Else source order.
pub open spec fn resolved(policy: PolicyView, path: Seq<Step>) -> Option<Seq<Seq<char>>> {
    let overrides = policy.0;
    if key_back_spec(path, 0) is Some && effective_table(overrides, key_back_spec(path, 0)->0) is Some
        && !child_role(overrides, path) && !under_components_examples_value(path) {
        effective_table(overrides, key_back_spec(path, 0)->0)
    } else if ends_in_index(path) {
        if key_back_spec(path, 1) is Some && effective_table(overrides, key_back_spec(path, 1)->0) is Some
            && !skipped_example_element(path) {
            effective_table(overrides, key_back_spec(path, 1)->0)
        } else {
            None
        }
    } else if alphabetical_pass(policy, path) {
        Some(Seq::empty())
    } else if key_back_spec(path, 1) is Some && child_role(overrides, path.drop_last()) {
        effective_table(overrides, key_back_spec(path, 1)->0)
    } else {
        None
    }
}

/// The `components` pass orders only the direct members of the root `components` mapping: for
/// every other mapping, turning it on or off leaves the table unchanged.
pub proof fn lemma_components_pass_only_direct_members(
    overrides: OverridesView,
    properties: bool,
    path: Seq<Step>,
)
    requires
        !(key_at_spec(path, 0) == Some("components"@) && key_back_spec(path, 1) == Some(
            "components"@,
        )),
    ensures
        resolved((overrides, true, properties), path) == resolved(
            (overrides, false, properties),
            path,
        ),
{
}

/// With the `components` pass on, a direct member of the root `components` mapping whose own
/// key has no table is ordered alphabetically.
pub proof fn lemma_components_pass_orders_direct_members(
    overrides: OverridesView,
    properties: bool,
    path: Seq<Step>,
    key: Seq<char>,
)
    requires
        path.len() == 2,
        key_at_spec(path, 0) == Some("components"@),
        key_at_spec(path, 1) == Some(key),
        effective_table(overrides, key) is None,
    ensures
        resolved((overrides, true, properties), path) == Some(Seq::<Seq<char>>::empty()),
{
}

/// Whether the table [`resolved`] picks for the mapping at `path` is a `keyOrder` override:
/// the key whose table it is (the mapping's own key under rule 1, the sequence's under rule 2,
/// the parent's under rule 4) is named by an override. The alphabetical passes of rule 3 are
/// never overrides.
pub open spec fn resolved_by_override(policy: PolicyView, path: Seq<Step>) -> bool {
    let overrides = policy.0;
    if key_back_spec(path, 0) is Some && effective_table(overrides, key_back_spec(path, 0)->0) is Some
        && !child_role(overrides, path) && !under_components_examples_value(path) {
        last_override(overrides, key_back_spec(path, 0)->0) is Some
    } else if ends_in_index(path) {
        key_back_spec(path, 1) is Some && effective_table(overrides, key_back_spec(path, 1)->0) is Some
            && !skipped_example_element(path) && last_override(overrides, key_back_spec(path, 1)->0)
            is Some
    } else if alphabetical_pass(policy, path) {
        false
    } else if key_back_spec(path, 1) is Some && child_role(overrides, path.drop_last()) {
        last_override(overrides, key_back_spec(path, 1)->0) is Some
    } else {
        false
    }
}

/// The table that orders the document root, behind the caller's content gate.
pub open spec fn resolved_root(policy: PolicyView, is_openapi_root: bool) -> Option<Seq<Seq<char>>> {
    if is_openapi_root {
        effective_table(policy.0, "root"@)
    } else {
        None
    }
}

/// Whether the mapping at `path` is keyed `paths`.
pub open spec fn paths_mapping(path: Seq<Step>) -> bool {
    key_back_spec(path, 0) == Some("paths"@)
}

/// A key at absolute index `index` of `path`.
fn key_at<'a>(path: &[Step<'a>], index: usize) -> (key: Option<&'a str>)
    ensures
        match key {
            Some(k) => key_at_spec(path@, index as int) == Some(k@),
            None => key_at_spec(path@, index as int) is None,
        },
{
    if index < path.len() {
        match path[index] {
            Step::Key(key) => Some(key),
            Step::Index(_) => None,
        }
    } else {
        None
    }
}

/// [`key_at`] counted back from the end: `0` is the node's own step, `1` its parent's.
fn key_back<'a>(path: &[Step<'a>], back: usize) -> (key: Option<&'a str>)
    requires
        back < usize::MAX,
    ensures
        match key {
            Some(k) => key_back_spec(path@, back as int) == Some(k@),
            None => key_back_spec(path@, back as int) is None,
        },
{
    if back + 1 <= path.len() {
        key_at(path, path.len() - (back + 1))
    } else {
        None
    }
}

/// Whether an optional key is exactly `name`.
fn key_is(key: Option<&str>, name: &str) -> (is: bool)
    ensures
        is == (key is Some && key->0@ == name@),
{
    match key {
        Some(k) => k.eq(name),
        None => false,
    }
}

/// Would the node at `path` have its children ordered, rather than its own entries?
///
/// Called with the mapping's path to answer "am I in child role?" (rule 1) and with the parent's
/// path to answer "does my parent order me?" (rule 4).
fn is_child_role(order: &KeyOrder<'_>, path: &[Step<'_>]) -> (is: bool)
    ensures
        is == child_role(order.overrides_view(), path@),
{
    let key = match key_back(path, 0) {
        Some(key) => key,
        None => return false,
    };
    let parent = key_back(path, 1);
    (key.eq("responses") || key.eq("schemas") || key.eq("properties")) && order.table(key).is_some()
        && !key_is(parent, "properties") && !key_is(parent, "value") && !key_is(
        key_at(path, 1),
        "examples",
    )
}

/// `components.examples.*.value` and everything below it is left alone.
fn is_under_components_examples_value(path: &[Step<'_>]) -> (is: bool)
    ensures
        is == under_components_examples_value(path@),
{
    key_is(key_at(path, 0), "components") && key_is(key_at(path, 1), "examples") && key_is(
        key_at(path, 3),
        "value",
    )
}

/// Is this sequence item inside an `example` payload whose elements are skipped?
///
/// The guard is evaluated on the enclosing sequence, so the item's own index step is dropped
/// first. An `example` array under a `requestBody` is skipped, the same array under a
/// `responses` is not.
fn is_skipped_example_element(path: &[Step<'_>]) -> (is: bool)
    ensures
        is == skipped_example_element(path@),
{
    if path.len() == 0 {
        return false;
    }
    let sequence = slice_take(path, path.len() - 1);
    key_is(key_back(sequence, 1), "example") && (key_is(key_at(sequence, 0), "components")
        || key_is(key_at(sequence, 3), "requestBody"))
}

/// The first `n` steps of `path`.
fn slice_take<'p, 'a>(path: &'p [Step<'a>], n: usize) -> (prefix: &'p [Step<'a>])
    requires
        n <= path@.len(),
    ensures
        prefix@ == path@.take(n as int),
{
    let prefix = path.split_at(n).0;
    assert(prefix@ =~= path@.take(n as int));
    prefix
}

/// The table that orders the entries of the mapping at `path`, or `None` to keep source
/// order; [`resolved`] states the five rules.
///
/// `path` ends with the mapping's own step. An empty `path` is the document root, which is
/// never ordered here: the root needs a content gate the caller owns, so it goes through
/// [`resolve_root`].
///
/// Rule 1 beats rule 4 because the mapping's own visit comes after its parent's. `P` is the
/// directly containing mapping and is therefore absent across a sequence boundary.
///
/// NOTE: this answers the key-order question only. A mapping keyed `paths` is additionally
/// subject to [`PathsOrder`](crate::PathsOrder); see [`is_paths_mapping`].
pub fn resolve<'a>(options: &Options<'a>, path: &[Step<'_>]) -> (table: Option<Table<'a>>)
    ensures
        table_view(table) == resolved(options@, path@),
        table matches Some(Table::User(_)) <==> resolved_by_override(options@, path@),
{
    let order = &options.key_order;

    // Rule 1: this mapping's own key orders it.
    if let Some(key) = key_back(path, 0) {
        if let Some(table) = order.table(key) {
            if !is_child_role(order, path) && !is_under_components_examples_value(path) {
                return Some(table);
            }
        }
    }
    // Rule 2: a sequence item is ordered by the sequence's key.

    if path.len() > 0 {
        if let Step::Index(_) = path[path.len() - 1] {
            if let Some(key) = key_back(path, 1) {
                if let Some(table) = order.table(key) {
                    if !is_skipped_example_element(path) {
                        return Some(table);
                    }
                }
            }
            // A sequence item's direct container is a sequence, not a mapping, so there is no
            // `P` and rule 4 cannot apply. Neither alphabetical pass can either: both name a
            // mapping key, and this step is an index.
            return None;
        }
    }
    // Rule 3: the opt-in alphabetical passes.

    if is_alphabetical(options, path) {
        return Some(Table::Builtin(alphabetical()));
    }
    // Rule 4: the containing mapping is in child role and orders us.

    if let Some(parent_key) = key_back(path, 1) {
        let parent = slice_take(path, path.len() - 1);
        assert(parent@ == path@.drop_last());
        if is_child_role(order, parent) {
            return order.table(parent_key);
        }
    }
    None
}

/// Whether one of the two opt-in alphabetical passes (rule 3) applies.
fn is_alphabetical(options: &Options<'_>, path: &[Step<'_>]) -> (is: bool)
    ensures
        is == alphabetical_pass(options@, path@),
{
    // A direct member of the root `components` mapping, named by a string key.
    if options.components && key_back(path, 0).is_some() && key_is(key_at(path, 0), "components")
        && key_is(key_back(path, 1), "components") {
        return true;
    }
    // Any `properties` mapping under `components.schemas`, at any depth.

    options.properties && key_is(key_back(path, 0), "properties") && key_is(
        key_at(path, 0),
        "components",
    ) && key_is(key_at(path, 1), "schemas")
}

/// Is this the `paths` mapping, whose members [`PathsOrder`](crate::PathsOrder) reorders?
///
/// The key alone decides, with no path constraint, so a mapping named `paths` at any depth
/// participates, including a schema property called `paths`.
pub fn is_paths_mapping(path: &[Step<'_>]) -> (is: bool)
    ensures
        is == paths_mapping(path@),
{
    key_is(key_back(path, 0), "paths")
}

/// The table that orders the document root's entries.
///
/// `is_openapi_root` is the caller's content gate: whether the root has an `openapi` key. This is
/// the only place the root is ordered: the root has no key of its own, so no rule can fire for it.
pub fn resolve_root<'a>(options: &Options<'a>, is_openapi_root: bool) -> (table: Option<Table<'a>>)
    ensures
        table_view(table) == resolved_root(options@, is_openapi_root),
        table matches Some(Table::User(_)) <==> is_openapi_root && last_override(
            options@.0,
            "root"@,
        ) is Some,
{
    if !is_openapi_root {
        return None;
    }
    options.key_order.table("root")
}

} // verus!

use oxc_openapi_order::tables::builtin;
use oxc_openapi_order::{
    KeyOrder, KeyOrderEntry, Options, Step, Table, is_paths_mapping, resolve, resolve_root,
};

/// `keyOrder` overrides from a terser literal form.
fn overrides(entries: &[(&str, &[&str])]) -> Vec<KeyOrderEntry> {
    entries
        .iter()
        .map(|(key, fields)| KeyOrderEntry {
            key: (*key).to_string(),
            fields: fields.iter().map(|field| (*field).to_string()).collect(),
        })
        .collect()
}

/// The table `resolve` picked, named by its first entry.
fn described(table: Option<Table<'_>>) -> Option<&str> {
    table.map(Table::describe)
}

/// The built-in table `name`, named the same way [`described`] names one.
fn builtin_table(name: &str) -> Option<&'static str> {
    builtin(name).map(|table| Table::Builtin(table).describe())
}

/// `a.b.c` -> `[Key("a"), Key("b"), Key("c")]`, with `#n` meaning `Index(n)`.
fn path(spec: &str) -> Vec<Step<'_>> {
    if spec.is_empty() {
        return Vec::new();
    }
    spec.split('.')
        .map(|step| {
            step.strip_prefix('#')
                .map_or(Step::Key(step), |index| Step::Index(index.parse().unwrap()))
        })
        .collect()
}

fn table_for(spec: &str) -> Option<Table<'static>> {
    resolve(&Options::default(), &path(spec))
}

fn first_of(spec: &str) -> Option<&'static str> {
    table_for(spec).map(Table::describe)
}

#[test]
fn rule_1_self_table() {
    assert_eq!(first_of("paths./p.get"), Some("operationId"));
    assert_eq!(first_of("paths./p.post.requestBody"), Some("description"));
    assert_eq!(first_of("components"), Some("parameters"));
    // An empty table is still a table: `content` orders alphabetically.
    assert_eq!(
        described(table_for("paths./p.get.responses.200.content")),
        Some("<alphabetical>")
    );
}

#[test]
fn rule_2_sequence_item_takes_the_sequence_key_table() {
    assert_eq!(first_of("paths./p.get.parameters.#0"), Some("name"));
    assert_eq!(first_of("paths./p.get.parameters.#7"), Some("name"));
}

#[test]
fn rule_2_nested_sequence_has_no_key() {
    // The inner sequence's own step is an index, so it names no table.
    assert_eq!(table_for("paths./p.get.parameters.#0.#0"), None);
}

#[test]
fn a_child_role_key_does_not_order_itself() {
    // `responses` orders its children, so its own entries (status codes) are untouched.
    assert_eq!(table_for("paths./p.get.responses"), None);
    assert_eq!(table_for("components.schemas"), None);
    assert_eq!(table_for("components.schemas.Pet.properties"), None);
}

#[test]
fn rule_4_a_parent_in_child_role_orders_the_mapping() {
    assert_eq!(first_of("paths./p.get.responses.properties"), Some("description"));
    assert_eq!(
        described(table_for("paths./p.get.responses.properties")),
        builtin_table("responses")
    );
    // A status-code mapping is ordered by the response table too.
    assert_eq!(first_of("paths./p.get.responses.200"), Some("description"));
    // A schema under `components.schemas` takes the schemas table.
    assert_eq!(first_of("components.schemas.Pet"), Some("description"));
}

#[test]
fn rule_4_parent_must_be_the_direct_container() {
    // Across a sequence boundary there is no containing mapping.
    assert_eq!(table_for("components.schemas.#0.inner"), None);
    assert_eq!(table_for("x.responses.a.#0"), None);
    assert_eq!(table_for("x.responses.a.#0.inner"), None);
}

#[test]
fn a_child_role_key_holding_a_sequence_orders_its_elements() {
    assert_eq!(described(table_for("components.schemas.#0")), builtin_table("schemas"));
    assert_eq!(first_of("components.schemas.#0"), Some("description"));
}

#[test]
fn rule_1_beats_child_role_pre_order() {
    assert_eq!(
        described(table_for("components.schemas.S.properties.content")),
        Some("<alphabetical>"),
        "rule 1 must win: ordering is pre-order"
    );
}

#[test]
fn child_role_guard_parent_is_properties_or_value() {
    assert_eq!(first_of("components.schemas.S.properties.schemas"), Some("description"));
    assert_eq!(first_of("x.value.properties"), Some("description"));
}

#[test]
fn child_role_guard_second_segment_is_examples() {
    assert_eq!(first_of("x.examples.properties"), Some("description"));
    assert_eq!(table_for("x.examples.properties.child"), None);
}

#[test]
fn child_role_container_at_depth_one_has_no_path_index_1() {
    assert_eq!(first_of("schemas.A"), Some("description"));
    assert_eq!(table_for("schemas"), None);
}

#[test]
fn components_examples_value_is_untouched() {
    assert_eq!(table_for("components.examples.Foo.value.schema"), None);
    // Any depth: absolute index 3 stays `value`.
    assert_eq!(table_for("components.examples.Foo.value.a.b.schema"), None);
    // A sibling that is not `value` is still ordered.
    assert_eq!(first_of("components.examples.Foo.notvalue.schema"), Some("description"));
    // Inline (non-`components`) examples are ordered.
    assert_eq!(
        first_of("paths./p.get.responses.200.content.app/json.examples.Foo.value.schema"),
        Some("description")
    );
}

#[test]
fn example_array_elements_are_skipped_under_components_or_request_body() {
    assert_eq!(
        table_for("components.requestBodies.RB.content.app/json.example.parameters.#0"),
        None
    );
    assert_eq!(
        table_for("paths./p.post.requestBody.content.app/json.example.parameters.#0"),
        None
    );
    assert_eq!(
        first_of("paths./p.post.responses.200.content.app/json.example.parameters.#0"),
        Some("name")
    );
}

#[test]
fn root_is_never_resolved_by_the_general_rule() {
    assert_eq!(table_for(""), None);
    assert_eq!(resolve_root(&Options::default(), false), None);
    assert_eq!(resolve_root(&Options::default(), true).map(Table::describe), Some("openapi"));
}

#[test]
fn a_mapping_literally_keyed_root_gets_the_root_table() {
    assert_eq!(first_of("components.schemas.S.properties.root"), Some("openapi"));
}

#[test]
fn key_order_overrides_replace_one_table_and_leave_the_rest() {
    let over = overrides(&[("get", &["summary", "operationId"])]);
    let options = Options { key_order: KeyOrder::new(&over), ..Options::default() };
    assert_eq!(resolve(&options, &path("paths./p.get")).map(Table::describe), Some("summary"));
    // Untouched tables still resolve.
    assert_eq!(
        resolve(&options, &path("paths./p.post")).map(Table::describe),
        Some("operationId")
    );
    assert_eq!(
        resolve(&options, &path("x.requestBody")).map(Table::describe),
        Some("description")
    );
}

#[test]
fn components_option_orders_component_types_alphabetically() {
    let options = Options { components: true, ..Options::default() };
    assert_eq!(
        described(resolve(&options, &path("components.schemas"))),
        Some("<alphabetical>")
    );
    assert_eq!(
        described(resolve(&options, &path("components.responses"))),
        Some("<alphabetical>")
    );
    // A component type whose key has a table keeps the table (rule 1 wins).
    assert_eq!(
        resolve(&options, &path("components.parameters")).map(Table::describe),
        Some("name")
    );
    // Off by default.
    assert_eq!(table_for("components.schemas"), None);
    // Only a direct member of the root `components` mapping.
    assert_eq!(resolve(&options, &path("x.components.schemas")), None);
}

#[test]
fn a_components_sequence_element_takes_the_table_not_alphabetical() {
    let options = Options { components: true, ..Options::default() };
    assert_eq!(
        described(resolve(&options, &path("components.#0"))),
        builtin_table("components")
    );
    assert_ne!(described(resolve(&options, &path("components.#0"))), Some("<alphabetical>"));
}

#[test]
fn properties_option_orders_component_schema_properties() {
    let options = Options { properties: true, ..Options::default() };
    assert_eq!(
        described(resolve(&options, &path("components.schemas.Pet.properties"))),
        Some("<alphabetical>")
    );
    // Any depth.
    assert_eq!(
        described(resolve(&options, &path("components.schemas.Pet.properties.a.properties"))),
        Some("<alphabetical>")
    );
    // Outside `components.schemas`, untouched.
    assert_eq!(resolve(&options, &path("paths./p.get.properties")), None);
    // Off by default.
    assert_eq!(table_for("components.schemas.Pet.properties"), None);
}

#[test]
fn an_alphabetical_pass_beats_child_role() {
    let options = Options { properties: true, ..Options::default() };
    assert_eq!(
        described(resolve(&options, &path("components.schemas.properties"))),
        Some("<alphabetical>")
    );
    assert_eq!(
        described(resolve(&options, &path("components.schemas.S.responses.properties"))),
        Some("<alphabetical>")
    );
    // With the option off, rule 4 applies again.
    assert_eq!(described(table_for("components.schemas.properties")), builtin_table("schemas"));
    // Rule 1 still beats the alphabetical pass: `components.parameters` keeps its table.
    let options = Options { components: true, ..Options::default() };
    assert_eq!(
        resolve(&options, &path("components.parameters")).map(Table::describe),
        Some("name")
    );
}

#[test]
fn paths_mapping_is_recognised_at_any_depth() {
    assert!(is_paths_mapping(&path("paths")));
    assert!(is_paths_mapping(&path("components.schemas.S.properties.paths")));
    assert!(!is_paths_mapping(&path("paths./p")));
    assert!(!is_paths_mapping(&path("")));
    assert!(!is_paths_mapping(&path("paths.#0")));
}

#[test]
fn a_repeated_override_name_resolves_to_the_last() {
    let over = overrides(&[("get", &["first"]), ("get", &["last"])]);
    let options = Options { key_order: KeyOrder::new(&over), ..Options::default() };
    assert_eq!(described(resolve(&options, &path("x.get"))), Some("last"));
}

#[test]
fn an_override_can_add_a_table_for_a_new_name() {
    let over = overrides(&[("x-custom", &["b", "a"])]);
    let options = Options { key_order: KeyOrder::new(&over), ..Options::default() };
    assert_eq!(described(resolve(&options, &path("paths.x-custom"))), Some("b"));
    assert_eq!(table_for("paths.x-custom"), None);
}

#[test]
fn a_builtin_table_survives_any_override() {
    let over = overrides(&[("get", &[]), ("other", &["x"])]);
    let key_order = KeyOrder::new(&over);
    assert!(key_order.table("responses").is_some());
    assert_eq!(key_order.table("get").map(Table::describe), Some("<alphabetical>"));
    assert!(matches!(key_order.table("get"), Some(Table::User(_))));
    assert!(matches!(key_order.table("post"), Some(Table::Builtin(_))));
}

#[test]
fn step_index_saturates() {
    assert_eq!(Step::index(0), Step::Index(0));
    assert_eq!(Step::index(u32::MAX as usize), Step::Index(u32::MAX));
}

#[test]
fn resolve_tells_builtin_tables_from_overrides() {
    let options = Options::default();
    assert_eq!(
        resolve(&options, &path("paths./p.get.responses.200.content")),
        Some(Table::Builtin(&[]))
    );
    assert_eq!(
        resolve(&options, &path("paths./p.get")),
        Some(Table::Builtin(builtin("get").unwrap()))
    );
    let over = overrides(&[("get", &["summary", "operationId"])]);
    let options = Options { key_order: KeyOrder::new(&over), ..Options::default() };
    assert_eq!(resolve(&options, &path("paths./p.get")), Some(Table::User(&over[0].fields)));
    assert_eq!(
        resolve(&options, &path("paths./p.post")),
        Some(Table::Builtin(builtin("post").unwrap()))
    );
    let root = overrides(&[("root", &["info"])]);
    let options = Options { key_order: KeyOrder::new(&root), ..Options::default() };
    assert_eq!(resolve_root(&options, true), Some(Table::User(&root[0].fields)));
    assert_eq!(resolve_root(&Options::default(), true), Some(Table::Builtin(builtin("root").unwrap())));
}

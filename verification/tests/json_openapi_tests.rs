use oxc_openapi_order::json_openapi::{
    JsonKey, JsonMember, JsonNode, JsonObject, JsonProperty, JsonTree, begin_object, blank_before,
    end, is_openapi_root, key_text, may_reorder, push_blanks, source_index, tag_key, value_step,
    with_step,
};
use oxc_openapi_order::{PathsOrder, Session, SortOpenapi, Step};

fn property(key: &str, value: usize) -> JsonMember<'_> {
    JsonMember::Property(JsonProperty { key: JsonKey::String(key), value })
}

fn object(properties: Vec<JsonMember<'_>>, span_end: u32) -> JsonObject<'_> {
    JsonObject { properties, span_end }
}

/// `{"paths":{},"openapi":"3.0.0","info":{}}`
fn document() -> JsonTree<'static> {
    JsonTree {
        nodes: vec![
            JsonNode::Object(object(
                vec![property("paths", 1), property("openapi", 2), property("info", 3)],
                42,
            )),
            JsonNode::Object(object(vec![], 11)),
            JsonNode::String("3.0.0"),
            JsonNode::Object(object(vec![], 41)),
        ],
    }
}

fn root<'a>(tree: &JsonTree<'a>) -> JsonObject<'a> {
    match &tree.nodes[0] {
        JsonNode::Object(o) => o.clone(),
        _ => unreachable!(),
    }
}

#[test]
fn the_root_object_is_ordered_by_the_root_table() {
    let tree = document();
    let root = root(&tree);
    let mut session = Session::new();
    let frame = begin_object(&tree, &root, &SortOpenapi::default(), true, None, &mut session)
        .expect("the root table reorders it");
    push_blanks(&frame, &[true, false], &mut session);
    let order: Vec<(usize, bool)> = (0..frame.len())
        .map(|p| (source_index(&frame, p, &session), blank_before(&frame, p, &session)))
        .collect();
    // openapi(1), info(2), paths(0); the blank before `openapi` travels with it.
    assert_eq!(order, vec![(1, true), (2, false), (0, false)]);
    end(frame, &mut session);
    assert_eq!(session.depth(), 0);
}

#[test]
fn a_json_document_without_the_gate_is_untouched() {
    let tree = document();
    let root = root(&tree);
    let mut session = Session::new();
    assert!(begin_object(&tree, &root, &SortOpenapi::default(), false, None, &mut session).is_none());
    assert!(begin_object(&tree, &root, &SortOpenapi::from(false), true, None, &mut session).is_none());
}

#[test]
fn the_json_gate_is_a_string_or_identifier_key() {
    assert!(is_openapi_root(&object(vec![property("x", 1), property("openapi", 2)], 10)));
    assert!(is_openapi_root(&object(
        vec![JsonMember::Property(JsonProperty { key: JsonKey::Identifier("openapi"), value: 1 })],
        10,
    )));
    assert!(!is_openapi_root(&object(vec![property("swagger", 1)], 10)));
    assert!(!is_openapi_root(&object(vec![property("OpenAPI", 1)], 10)));
    assert!(!is_openapi_root(&object(vec![property("openapix", 1)], 10)));
    assert!(!is_openapi_root(&object(vec![JsonMember::Spread], 10)));
    assert!(!is_openapi_root(&object(
        vec![JsonMember::Property(JsonProperty {
            key: JsonKey::Numeric { printed: "openapi", round_trips: true },
            value: 1,
        })],
        10,
    )));
}

#[test]
fn numeric_keys_have_an_identity_only_when_they_round_trip() {
    assert_eq!(key_text(&JsonKey::Numeric { printed: "42", round_trips: true }), Some("42"));
    assert_eq!(key_text(&JsonKey::Numeric { printed: "1.0", round_trips: false }), None);
    assert_eq!(key_text(&JsonKey::Identifier("info")), Some("info"));
    assert_eq!(key_text(&JsonKey::Other), None);
    let unreadable = JsonProperty { key: JsonKey::Other, value: 0 };
    assert_eq!(value_step(&unreadable), Step::Key("\0"));
    let readable = JsonProperty { key: JsonKey::String("get"), value: 0 };
    assert_eq!(value_step(&readable), Step::Key("get"));
}

#[test]
fn spreads_comments_and_unreadable_keys_refuse_an_object() {
    let plain = object(vec![property("b", 1), property("a", 2)], 20);
    assert!(may_reorder(&plain, None));
    assert!(may_reorder(&plain, Some(20)));
    assert!(!may_reorder(&plain, Some(5)));
    assert!(!may_reorder(&object(vec![property("b", 1), JsonMember::Spread], 20), None));
    let numeric = JsonMember::Property(JsonProperty {
        key: JsonKey::Numeric { printed: "1.0", round_trips: false },
        value: 1,
    });
    assert!(!may_reorder(&object(vec![property("b", 1), numeric], 20), None));
}

/// `{"/b":{"get":{"tags":["beta"]}},"/a":{"put":{"tags":["alpha"]},"get":{"tags":[1]}}}`
fn tagged_paths() -> JsonTree<'static> {
    JsonTree {
        nodes: vec![
            JsonNode::Object(object(vec![property("/b", 1), property("/a", 5)], 90)),
            JsonNode::Object(object(vec![property("get", 2)], 30)),
            JsonNode::Object(object(vec![property("tags", 3)], 29)),
            JsonNode::Array(vec![Some(4)]),
            JsonNode::String("beta"),
            JsonNode::Object(object(vec![property("put", 6), property("get", 9)], 89)),
            JsonNode::Object(object(vec![property("tags", 7)], 60)),
            JsonNode::Array(vec![Some(8)]),
            JsonNode::String("alpha"),
            JsonNode::Object(object(vec![property("tags", 10)], 88)),
            JsonNode::Array(vec![Some(11)]),
            JsonNode::Other,
        ],
    }
}

#[test]
fn json_tag_keys_follow_the_method_order() {
    let tree = tagged_paths();
    let JsonNode::Object(paths) = &tree.nodes[0] else { unreachable!() };
    let JsonMember::Property(b) = paths.properties[0] else { unreachable!() };
    let JsonMember::Property(a) = paths.properties[1] else { unreachable!() };
    assert_eq!(tag_key(&tree, &b), "beta");
    // `get` comes before `put`, but its first tag is not a string, so `put` supplies the key.
    assert_eq!(tag_key(&tree, &a), "alpha");
    let scalar = JsonProperty { key: JsonKey::String("/c"), value: 4 };
    assert_eq!(tag_key(&tree, &scalar), "");
}

#[test]
fn the_json_paths_object_orders_by_tag_under_paths_tags() {
    let tree = tagged_paths();
    let JsonNode::Object(paths) = &tree.nodes[0] else { unreachable!() };
    let sort = SortOpenapi { paths: PathsOrder::Tags, ..SortOpenapi::default() };
    let mut session = Session::new();
    let order = with_step(Step::Key("paths"), &mut session, |session| {
        let frame = begin_object(&tree, paths, &sort, true, None, session).expect("ordered by tag");
        push_blanks(&frame, &[false], session);
        let order = (source_index(&frame, 0, session), source_index(&frame, 1, session));
        end(frame, session);
        order
    });
    assert_eq!(order, (1, 0));
    assert_eq!(session.depth(), 0);
}

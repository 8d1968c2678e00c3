use oxc_openapi_order::yaml_openapi::{
    FlowEntry, OpenapiState, SequenceItem, YamlContent, YamlItem, YamlMapping, YamlNode, YamlTree,
    anchor_and_alias_starts, begin_mapping, blank_before, document_is_openapi, finish,
    may_reorder, source_index, tag_key, value_step, with_step,
};
use oxc_openapi_order::{PathsOrder, SortOpenapi, Step};

fn node(content: YamlContent, text: &str) -> YamlNode<'_> {
    YamlNode { content, text, span_end: 0, anchor: None, tag: None }
}

fn plain(text: &str) -> YamlNode<'_> {
    node(YamlContent::Plain, text)
}

fn entry(key: usize, value: usize, span_start: u32, span_end: u32) -> YamlItem {
    YamlItem { span_start, span_end, key: Some(key), value: Some(value), last_block: None }
}

fn mapping(children: Vec<YamlItem>, span_start: u32, span_end: u32) -> YamlMapping {
    YamlMapping { children, span_start, span_end }
}

fn mapping_of<'t>(tree: &'t YamlTree<'_>, index: usize) -> &'t YamlMapping {
    match &tree.nodes[index].content {
        YamlContent::Mapping(m) | YamlContent::FlowMapping(m) => m,
        _ => panic!("not a mapping"),
    }
}

const SOURCE: &str = "paths: {}\nopenapi: 3.1.0\ninfo: x\n";

/// `paths: {}` / `openapi: 3.1.0` / `info: x`, with keys `k0`, `k1`, `k2` in place of the three
/// root keys.
fn root_document<'a>(k0: &'a str, k1: &'a str, k2: &'a str) -> YamlTree<'a> {
    YamlTree {
        nodes: vec![
            node(
                YamlContent::Mapping(mapping(
                    vec![entry(1, 2, 0, 9), entry(3, 4, 10, 24), entry(5, 6, 25, 32)],
                    0,
                    32,
                )),
                "",
            ),
            plain(k0),
            node(YamlContent::FlowMapping(mapping(vec![], 7, 9)), "{}"),
            plain(k1),
            plain("3.1.0"),
            plain(k2),
            plain("x"),
        ],
    }
}

fn begin_root(
    tree: &YamlTree<'_>,
    next_comment_start: Option<u32>,
    comment_leads_first_entry: bool,
    anchors: &[u32],
) -> Option<Vec<(usize, bool)>> {
    let mut state = OpenapiState::new(anchors);
    let sort = SortOpenapi::default();
    let frame = begin_mapping(
        tree,
        mapping_of(tree, 0),
        &sort,
        true,
        SOURCE,
        next_comment_start,
        32,
        comment_leads_first_entry,
        &[false, true],
        &mut state,
    )?;
    let order = (0..frame.len())
        .map(|position| {
            (source_index(&frame, position, &state), blank_before(&frame, position, &state))
        })
        .collect();
    finish(frame, &mut state);
    assert_eq!(state.session.depth(), 0);
    Some(order)
}

#[test]
fn the_root_mapping_takes_the_root_table_and_blanks_travel() {
    let tree = root_document("paths", "openapi", "info");
    // openapi(1), info(2), paths(0); the blank line before `info` travels with it.
    assert_eq!(begin_root(&tree, None, false, &[]), Some(vec![(1, false), (2, true), (0, false)]));
}

#[test]
fn an_already_ordered_mapping_keeps_source_order() {
    let tree = root_document("openapi", "info", "paths");
    assert_eq!(begin_root(&tree, None, false, &[]), None);
}

#[test]
fn a_comment_inside_the_scope_refuses_the_mapping() {
    let tree = root_document("paths", "openapi", "info");
    assert_eq!(begin_root(&tree, Some(12), false, &[]), None);
    // One past the trivia after the mapping is out of reach.
    assert!(begin_root(&tree, Some(33), false, &[]).is_some());
}

#[test]
fn an_anchor_inside_the_span_refuses_the_mapping() {
    let tree = root_document("paths", "openapi", "info");
    assert_eq!(begin_root(&tree, None, false, &[3, 12]), None);
    assert!(begin_root(&tree, None, false, &[40]).is_some());
}

#[test]
fn a_leading_comment_refuses_only_when_the_first_entry_would_move() {
    let moved = root_document("paths", "openapi", "info");
    assert_eq!(begin_root(&moved, None, true, &[]), None);
    // `openapi` stays first; only the two below it swap.
    let kept = root_document("openapi", "paths", "info");
    assert_eq!(begin_root(&kept, None, true, &[]), Some(vec![(0, false), (2, true), (1, false)]));
}

#[test]
fn a_merge_key_refuses_the_mapping() {
    let tree = root_document("paths", "<<", "info");
    assert_eq!(begin_root(&tree, None, false, &[]), None);
    let mut tagged = root_document("paths", "openapi", "info");
    tagged.nodes[5].tag = Some("!m!merge");
    assert_eq!(begin_root(&tagged, None, false, &[]), None);
}

#[test]
fn an_unreadable_key_refuses_the_mapping() {
    let mut tree = root_document("paths", "openapi", "info");
    tree.nodes[1] = node(YamlContent::QuoteDouble, "\"pa\\u0074hs\"");
    assert_eq!(begin_root(&tree, None, false, &[]), None);
    let mut spaced = root_document("paths", "openapi", "info");
    spaced.nodes[1] = node(YamlContent::QuoteSingle, "'pa ths'");
    assert_eq!(begin_root(&spaced, None, false, &[]), None);
}

#[test]
fn a_quoted_key_reads_as_its_text() {
    let mut tree = root_document("paths", "openapi", "info");
    tree.nodes[3] = node(YamlContent::QuoteSingle, "'openapi'");
    assert_eq!(begin_root(&tree, None, false, &[]), Some(vec![(1, false), (2, true), (0, false)]));
}

#[test]
fn a_position_dependent_block_scalar_refuses_the_mapping() {
    // `info: |+` keep-chomped.
    let source = "paths: {}\nopenapi: 3.1.0\ninfo: |+\n  x\n\n";
    let mut tree = root_document("paths", "openapi", "info");
    tree.nodes[6] = YamlNode {
        content: YamlContent::BlockLiteral { content_end: 37, keep: true },
        text: "|+\n  x\n\n",
        span_end: 39,
        anchor: None,
        tag: None,
    };
    let YamlContent::Mapping(m) = &mut tree.nodes[0].content else { unreachable!() };
    m.children[2].last_block = Some(6);
    let root = mapping_of(&tree, 0).clone();
    assert!(!may_reorder(&tree, &root, &[], source, None, 100));
    // Clip-chomped with no blank line after it, and not the stream's last node: free to move.
    let source = "paths: {}\nopenapi: 3.1.0\ninfo: |\n  x\n";
    tree.nodes[6].content = YamlContent::BlockLiteral { content_end: 36, keep: false };
    tree.nodes[6].span_end = 37;
    assert!(may_reorder(&tree, &root, &[], source, None, 100));
    // The same scalar as the stream's last descendant.
    assert!(!may_reorder(&tree, &root, &[], source, None, 37));
}

#[test]
fn a_non_openapi_document_is_never_reordered() {
    let tree = root_document("paths", "openapi", "info");
    let mut state = OpenapiState::new(&[]);
    let frame = begin_mapping(
        &tree,
        mapping_of(&tree, 0),
        &SortOpenapi::default(),
        false,
        SOURCE,
        None,
        32,
        false,
        &[false, true],
        &mut state,
    );
    assert!(frame.is_none());
    let disabled = SortOpenapi::from(false);
    let frame = begin_mapping(
        &tree,
        mapping_of(&tree, 0),
        &disabled,
        true,
        SOURCE,
        None,
        32,
        false,
        &[false, true],
        &mut state,
    );
    assert!(frame.is_none());
}

#[test]
fn the_openapi_gate_is_key_presence_at_the_root() {
    assert!(document_is_openapi(&root_document("paths", "openapi", "info"), Some(0)));
    assert!(!document_is_openapi(&root_document("paths", "swagger", "info"), Some(0)));
    assert!(!document_is_openapi(&root_document("paths", "OpenAPI", "info"), Some(0)));
    assert!(!document_is_openapi(&root_document("paths", "openapix", "info"), Some(0)));
    assert!(!document_is_openapi(&root_document("paths", "openapi", "info"), None));
    // `openapi` as a value, not a key.
    let mut valued = root_document("paths", "version", "info");
    valued.nodes[4] = plain("openapi");
    assert!(!document_is_openapi(&valued, Some(0)));
    // A root that is not a block mapping.
    assert!(!document_is_openapi(&root_document("paths", "openapi", "info"), Some(2)));
}

/// `/b: {get: {tags: [beta]}}` then `/a: {post: {tags: [alpha]}}`, the second tag list written
/// as a block sequence.
fn tagged_paths() -> YamlTree<'static> {
    YamlTree {
        nodes: vec![
            node(
                YamlContent::Mapping(mapping(vec![entry(1, 2, 0, 20), entry(8, 9, 21, 50)], 0, 50)),
                "",
            ),
            plain("/b"),
            node(YamlContent::FlowMapping(mapping(vec![entry(3, 4, 5, 19)], 4, 20)), ""),
            plain("get"),
            node(YamlContent::FlowMapping(mapping(vec![entry(5, 6, 10, 18)], 9, 19)), ""),
            plain("tags"),
            node(YamlContent::FlowSequence(vec![FlowEntry::Item(7)]), ""),
            plain("beta"),
            plain("/a"),
            node(YamlContent::FlowMapping(mapping(vec![entry(10, 11, 26, 49)], 25, 50)), ""),
            plain("post"),
            node(YamlContent::Mapping(mapping(vec![entry(12, 13, 32, 48)], 32, 48)), ""),
            plain("tags"),
            node(
                YamlContent::Sequence(vec![SequenceItem {
                    content: Some(14),
                    span_start: 40,
                    span_end: 48,
                    last_block: None,
                }]),
                "",
            ),
            plain("alpha"),
        ],
    }
}

#[test]
fn tag_keys_read_the_first_tagged_method() {
    let tree = tagged_paths();
    let paths = mapping_of(&tree, 0);
    assert_eq!(tag_key(&tree, &paths.children[0]), "beta");
    assert_eq!(tag_key(&tree, &paths.children[1]), "alpha");
    // A path item with no value keys on the empty string.
    let bare = YamlItem { span_start: 0, span_end: 3, key: Some(1), value: None, last_block: None };
    assert_eq!(tag_key(&tree, &bare), "");
}

#[test]
fn the_paths_mapping_orders_by_tag_under_paths_tags() {
    let tree = tagged_paths();
    let source = " ".repeat(60);
    let mut state = OpenapiState::new(&[]);
    let sort = SortOpenapi { paths: PathsOrder::Tags, ..SortOpenapi::default() };
    let order = with_step(Step::Key("paths"), &mut state, |state| {
        let frame = begin_mapping(
            &tree,
            mapping_of(&tree, 0),
            &sort,
            true,
            &source,
            None,
            50,
            false,
            &[false],
            state,
        )
        .expect("ordered by tag");
        let order = (source_index(&frame, 0, state), source_index(&frame, 1, state));
        finish(frame, state);
        order
    });
    assert_eq!(order, (1, 0));
    assert_eq!(state.session.depth(), 0);
}

#[test]
fn value_steps_prefer_resolved_text() {
    let mut tree = root_document("paths", "openapi", "info");
    let root = mapping_of(&tree, 0).clone();
    assert_eq!(value_step(&tree, &root.children[1]), Step::Key("openapi"));
    tree.nodes[1] = node(YamlContent::QuoteDouble, "\"a\\u0073\"");
    assert_eq!(value_step(&tree, &root.children[0]), Step::Key("\"a\\u0073\""));
    let keyless = YamlItem { span_start: 0, span_end: 1, key: None, value: Some(2), last_block: None };
    assert_eq!(value_step(&tree, &keyless), Step::Key(""));
}

#[test]
fn anchors_and_aliases_are_collected_in_ascending_order() {
    // `&k a: &v {}` then `b: *k`, with an anchor on the key, the value, and an alias.
    let mut tree = YamlTree {
        nodes: vec![
            node(YamlContent::Mapping(mapping(vec![entry(1, 2, 0, 20), entry(3, 4, 21, 30)], 0, 30)), ""),
            plain("a"),
            node(YamlContent::FlowMapping(mapping(vec![], 12, 14)), "{}"),
            plain("b"),
            node(YamlContent::Alias { start: 24 }, "*k"),
        ],
    };
    tree.nodes[1].anchor = Some(0);
    tree.nodes[2].anchor = Some(8);
    let mut starts = vec![16];
    anchor_and_alias_starts(&tree, &[Some(0), None], &mut starts);
    assert_eq!(starts, vec![0, 8, 16, 24]);
}

#[test]
fn anchors_in_every_collection_kind_are_found() {
    let mut tree = YamlTree {
        nodes: vec![
            node(
                YamlContent::Sequence(vec![
                    SequenceItem { content: Some(1), span_start: 0, span_end: 5, last_block: None },
                    SequenceItem { content: None, span_start: 6, span_end: 7, last_block: None },
                    SequenceItem { content: Some(2), span_start: 8, span_end: 30, last_block: None },
                ]),
                "",
            ),
            plain("x"),
            node(
                YamlContent::FlowSequence(vec![
                    FlowEntry::Item(3),
                    FlowEntry::Pair(YamlItem {
                        span_start: 15,
                        span_end: 25,
                        key: Some(4),
                        value: Some(5),
                        last_block: None,
                    }),
                ]),
                "",
            ),
            plain("y"),
            plain("k"),
            node(YamlContent::Alias { start: 22 }, "*a"),
        ],
    };
    tree.nodes[1].anchor = Some(2);
    tree.nodes[3].anchor = Some(11);
    tree.nodes[4].anchor = Some(16);
    let mut starts = Vec::new();
    anchor_and_alias_starts(&tree, &[Some(0)], &mut starts);
    assert_eq!(starts, vec![2, 11, 16, 22]);
    // Another document of the stream contributes its own.
    let mut both = Vec::new();
    anchor_and_alias_starts(&tree, &[Some(3), Some(0)], &mut both);
    assert_eq!(both, vec![2, 11, 11, 16, 22]);
}

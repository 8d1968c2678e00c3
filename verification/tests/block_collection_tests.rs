use oxc_openapi_order::block_collection::{
    FinishPlan, ItemTail, LineBreak, PrintStep, Separator, finish_previous_item, mapping_plan,
    sequence_marker, sequence_plan,
};
use oxc_openapi_order::yaml_openapi::{
    OpenapiState, SequenceItem, YamlContent, YamlItem, YamlMapping, YamlNode, YamlTree,
    begin_mapping,
};
use oxc_openapi_order::{SortOpenapi, Step};

#[test]
fn a_plain_tail_gets_its_trailing_comment_and_end_comments() {
    assert_eq!(
        finish_previous_item(ItemTail::Plain, Separator::Measured(40)),
        FinishPlan {
            trailing_comment: true,
            end_comments_bound: Some(40),
            line_break: LineBreak::Measured { next_start: 40 },
        }
    );
    assert_eq!(
        finish_previous_item(ItemTail::Plain, Separator::End),
        FinishPlan {
            trailing_comment: true,
            end_comments_bound: Some(u32::MAX),
            line_break: LineBreak::Nothing,
        }
    );
}

#[test]
fn a_block_scalar_tail_skips_what_it_cannot_own() {
    let permuted = Separator::Permuted { next_start: 5, blank_before: true, mapping_end: 90 };
    assert_eq!(
        finish_previous_item(ItemTail::EndsInBlockScalar, permuted),
        FinishPlan {
            trailing_comment: false,
            end_comments_bound: Some(5),
            line_break: LineBreak::Blank,
        }
    );
    let permuted = Separator::Permuted { next_start: 5, blank_before: false, mapping_end: 90 };
    assert_eq!(
        finish_previous_item(ItemTail::ValueIsBlockScalar, permuted),
        FinishPlan { trailing_comment: false, end_comments_bound: None, line_break: LineBreak::Hard }
    );
    assert_eq!(Separator::End.next_start(), None);
    assert_eq!(permuted.next_start(), Some(5));
}

#[test]
fn sequence_markers_leave_no_trailing_space() {
    assert_eq!(sequence_marker(true, false), "- ");
    assert_eq!(sequence_marker(false, true), "- ");
    assert_eq!(sequence_marker(false, false), "-");
}

#[test]
fn a_sequence_prints_in_source_order() {
    let items = [
        SequenceItem { content: Some(1), span_start: 0, span_end: 4, last_block: None },
        SequenceItem { content: Some(2), span_start: 5, span_end: 20, last_block: Some(3) },
    ];
    assert_eq!(
        sequence_plan(&items, &[4, 18]),
        vec![
            PrintStep::Enter,
            PrintStep::Item { index: 0, step: Some(Step::Index(0)) },
            PrintStep::Finish { prev_end: 4, tail: ItemTail::Plain, separator: Separator::Measured(5) },
            PrintStep::Item { index: 1, step: Some(Step::Index(1)) },
            PrintStep::Finish {
                prev_end: 18,
                tail: ItemTail::EndsInBlockScalar,
                separator: Separator::End,
            },
            PrintStep::Leave,
        ]
    );
    assert_eq!(sequence_plan(&[], &[]), vec![PrintStep::Enter, PrintStep::Leave]);
    // An empty item opens no ancestry step.
    let bare = [SequenceItem { content: None, span_start: 0, span_end: 1, last_block: None }];
    assert_eq!(
        sequence_plan(&bare, &[1])[1],
        PrintStep::Item { index: 0, step: None }
    );
}

fn plain(text: &str) -> YamlNode<'_> {
    YamlNode { content: YamlContent::Plain, text, span_end: 0, anchor: None, tag: None }
}

/// `paths: x` / `openapi: |` block scalar / `info: y`.
fn document() -> YamlTree<'static> {
    let items = vec![
        YamlItem { span_start: 0, span_end: 8, key: Some(1), value: Some(2), last_block: None },
        YamlItem { span_start: 9, span_end: 20, key: Some(3), value: Some(4), last_block: Some(4) },
        YamlItem { span_start: 21, span_end: 28, key: Some(5), value: Some(6), last_block: None },
    ];
    YamlTree {
        nodes: vec![
            YamlNode {
                content: YamlContent::Mapping(YamlMapping { children: items, span_start: 0, span_end: 28 }),
                text: "",
                span_end: 28,
                anchor: None,
                tag: None,
            },
            plain("paths"),
            plain("x"),
            plain("openapi"),
            YamlNode {
                content: YamlContent::BlockLiteral { content_end: 19, keep: false },
                text: "|\n  v\n",
                span_end: 20,
                anchor: None,
                tag: None,
            },
            plain("info"),
            plain("y"),
        ],
    }
}

fn root(tree: &YamlTree<'_>) -> YamlMapping {
    match &tree.nodes[0].content {
        YamlContent::Mapping(m) => m.clone(),
        _ => unreachable!(),
    }
}

#[test]
fn an_unordered_mapping_prints_in_source_order_with_measured_gaps() {
    let tree = document();
    let mut state = OpenapiState::new(&[]);
    let steps = mapping_plan(&tree, &root(&tree), &[8, 20, 28], None, &mut state);
    assert_eq!(
        steps,
        vec![
            PrintStep::Enter,
            PrintStep::Item { index: 0, step: None },
            PrintStep::Finish { prev_end: 8, tail: ItemTail::Plain, separator: Separator::Measured(9) },
            PrintStep::Item { index: 1, step: None },
            PrintStep::Finish {
                prev_end: 20,
                tail: ItemTail::ValueIsBlockScalar,
                separator: Separator::Measured(21),
            },
            PrintStep::Item { index: 2, step: None },
            PrintStep::Finish { prev_end: 28, tail: ItemTail::Plain, separator: Separator::End },
            PrintStep::Leave,
        ]
    );
}

#[test]
fn a_permuted_mapping_prints_in_frame_order_with_travelling_blanks() {
    let tree = document();
    let mapping = root(&tree);
    let source = "paths: x\nopenapi: |\n  v\ninfo: y\n";
    let mut state = OpenapiState::new(&[]);
    let frame = begin_mapping(
        &tree,
        &mapping,
        &SortOpenapi::default(),
        true,
        source,
        None,
        1000,
        false,
        &[true, false],
        &mut state,
    )
    .expect("the root table reorders it");
    let steps = mapping_plan(&tree, &mapping, &[8, 20, 28], Some(frame), &mut state);
    // openapi(1), info(2), paths(0); the blank before `openapi` travels with it, so none
    // precedes `info` and none precedes `paths`.
    assert_eq!(
        steps,
        vec![
            PrintStep::Enter,
            PrintStep::Item { index: 1, step: None },
            PrintStep::Finish {
                prev_end: 20,
                tail: ItemTail::ValueIsBlockScalar,
                separator: Separator::Permuted { next_start: 21, blank_before: false, mapping_end: 28 },
            },
            PrintStep::Item { index: 2, step: None },
            PrintStep::Finish {
                prev_end: 28,
                tail: ItemTail::Plain,
                separator: Separator::Permuted { next_start: 0, blank_before: false, mapping_end: 28 },
            },
            PrintStep::Item { index: 0, step: None },
            PrintStep::Finish { prev_end: 8, tail: ItemTail::Plain, separator: Separator::End },
            PrintStep::Leave,
        ]
    );
    // The frame is finished with the plan; the ancestry is untouched.
    assert_eq!(state.session.depth(), 0);
}

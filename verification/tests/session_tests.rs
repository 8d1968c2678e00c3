use oxc_openapi_order::{
    KeyOrderEntry, MappingOrder, Options, PathsOrder, SortOpenapi, Session, Step, Table,
};

#[test]
fn frames_nest_and_unwind() {
    let mut session = Session::new();
    for key in ["responses", "links", "description"] {
        session.push_key(key);
    }
    let outer = session
        .permute(MappingOrder::Table(Table::Builtin(&[
            "description",
            "headers",
            "content",
            "links",
        ])))
        .unwrap();
    assert_eq!(outer.len(), 3);
    for blank in [false, false, true] {
        session.push_blank(&outer, blank);
    }
    // description(2), links(1), responses(0)
    assert_eq!(session.source_index(&outer, 0), 2);
    assert_eq!(session.source_index(&outer, 1), 1);
    assert_eq!(session.source_index(&outer, 2), 0);
    // The blank preceded `description`, so it travels to its new first position.
    assert!(session.blank_before(&outer, 0));
    assert!(!session.blank_before(&outer, 1));

    // A nested mapping appends beyond the outer watermark and unwinds cleanly.
    for key in ["b", "a"] {
        session.push_key(key);
    }
    let inner = session.permute(MappingOrder::Table(Table::Builtin(&[]))).unwrap();
    session.push_blank(&inner, false);
    session.push_blank(&inner, false);
    assert_eq!(session.source_index(&inner, 0), 1);
    // The outer frame is untouched while the inner one is live.
    assert_eq!(session.source_index(&outer, 0), 2);
    session.end(inner);
    assert_eq!(session.source_index(&outer, 2), 0);
    session.end(outer);
    assert_eq!(session.depth(), 0);
}

#[test]
fn already_ordered_opens_no_frame_and_clears_keys() {
    let mut session = Session::new();
    session.push_key("a");
    session.push_key("b");
    assert!(session.permute(MappingOrder::Table(Table::Builtin(&[]))).is_none());
    // A second call must not see the previous call's keys.
    session.push_key("b");
    session.push_key("a");
    assert!(session.permute(MappingOrder::Table(Table::Builtin(&[]))).is_some());
}

/// The `paths` sub-option and the tables meet only at the `paths` mapping, and the option wins.
#[test]
fn the_paths_option_decides_only_the_paths_mapping() {
    let mut session = Session::new();
    session.push_step(Step::Key("paths"));

    // No built-in table names `paths`, so the default leaves it in source order.
    let default = SortOpenapi::default();
    assert!(matches!(default.paths, PathsOrder::Original));
    assert!(session.ordering(&default, false).is_none());

    for (order, expected) in
        [(PathsOrder::Path, "Path"), (PathsOrder::Tags, "Tags"), (PathsOrder::Original, "none")]
    {
        let sort = SortOpenapi { paths: order, ..SortOpenapi::default() };
        let answer = match session.ordering(&sort, false) {
            Some(MappingOrder::Path) => "Path",
            Some(MappingOrder::Tags) => "Tags",
            Some(MappingOrder::Table(_)) => "Table",
            None => "none",
        };
        assert_eq!(answer, expected, "paths: {order:?}");
    }

    // An explicit order also beats a `keyOrder` override that names `paths`.
    let sort = SortOpenapi {
        paths: PathsOrder::Path,
        key_order: vec![KeyOrderEntry { key: "paths".to_string(), fields: vec!["/z".to_string()] }],
        ..SortOpenapi::default()
    };
    assert!(matches!(session.ordering(&sort, false), Some(MappingOrder::Path)));
    // With no explicit order, that same override IS the answer.
    let sort = SortOpenapi { paths: PathsOrder::Original, ..sort };
    assert!(matches!(session.ordering(&sort, false), Some(MappingOrder::Table(_))));

    // A mapping that is not `paths` is untouched by the option.
    session.push_step(Step::Key("/p"));
    session.push_step(Step::Key("get"));
    let sort = SortOpenapi { paths: PathsOrder::Path, ..SortOpenapi::default() };
    assert!(matches!(session.ordering(&sort, false), Some(MappingOrder::Table(_))));
}

#[test]
fn table_uses_the_ancestry_and_gates_the_root() {
    let options = Options::default();
    let mut session = Session::new();
    // Empty ancestry is the root, and needs the caller's content gate.
    assert!(session.table(&options, false).is_none());
    assert_eq!(session.table(&options, true).map(Table::describe), Some("openapi"));

    session.push_step(Step::Key("paths"));
    session.push_step(Step::Key("/p"));
    let depth = session.push_step(Step::Key("get"));
    // Away from the root the ancestry alone decides.
    assert_eq!(session.table(&options, false).map(Table::describe), Some("operationId"));
    session.pop_step(depth);
    assert_eq!(session.depth(), 2);
}

#[test]
fn index_steps_saturate_rather_than_wrap() {
    assert_eq!(Step::index(3), Step::Index(3));
    // Wrapping would alias a huge index onto a small one that a guard names.
    assert_eq!(Step::index(usize::MAX), Step::Index(u32::MAX));
}

#[test]
fn paths_and_tags_orderings_open_frames() {
    let mut session = Session::new();
    for key in ["/b", "/a"] {
        session.push_key(key);
    }
    let frame = session.permute(MappingOrder::Path).unwrap();
    assert_eq!(session.source_index(&frame, 0), 1);
    session.end(frame);
    for tag in ["", "b", "a"] {
        session.push_key(tag);
    }
    let frame = session.permute(MappingOrder::Tags).unwrap();
    assert_eq!(
        (0..3).map(|p| session.source_index(&frame, p)).collect::<Vec<_>>(),
        vec![0, 2, 1]
    );
    session.end(frame);
}

#[test]
fn the_root_table_honours_a_root_override() {
    let sort = SortOpenapi {
        key_order: vec![KeyOrderEntry {
            key: "root".to_string(),
            fields: vec!["info".to_string()],
        }],
        ..SortOpenapi::default()
    };
    let session = Session::new();
    match session.ordering(&sort, true) {
        Some(MappingOrder::Table(table)) => assert_eq!(table.describe(), "info"),
        _ => panic!("the root must be ordered by its override"),
    }
    assert!(session.ordering(&sort, false).is_none());
}

#[test]
fn disabled_sort_from_bool() {
    let sort = SortOpenapi::from(false);
    assert!(!sort.enabled);
    assert_eq!(sort.paths, PathsOrder::Original);
    assert_eq!(SortOpenapi::from(true), SortOpenapi::default());
}

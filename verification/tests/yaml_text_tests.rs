use oxc_openapi_order::yaml_text::{
    ScalarStyle, resolved_key_text, scalar_text, spans_any, tag_is_merge, trivia_scope_end,
};

#[test]
fn plain_scalars_read_as_they_are_written() {
    assert_eq!(scalar_text(ScalarStyle::Plain, "info"), Some("info"));
    assert_eq!(scalar_text(ScalarStyle::Plain, "a b"), Some("a b"));
    assert_eq!(scalar_text(ScalarStyle::Plain, "a\nb"), None);
}

#[test]
fn quoted_scalars_read_between_their_quotes() {
    assert_eq!(scalar_text(ScalarStyle::Quoted, "'info'"), Some("info"));
    assert_eq!(scalar_text(ScalarStyle::Quoted, "\"info\""), Some("info"));
    assert_eq!(scalar_text(ScalarStyle::Quoted, "''"), Some(""));
    // An escape, an embedded quote, or a line break needs real resolution.
    assert_eq!(scalar_text(ScalarStyle::Quoted, "\"a\\tb\""), None);
    assert_eq!(scalar_text(ScalarStyle::Quoted, "'z''z'"), None);
    assert_eq!(scalar_text(ScalarStyle::Quoted, "\"a'b\""), None);
    assert_eq!(scalar_text(ScalarStyle::Quoted, "'a\nb'"), None);
    assert_eq!(scalar_text(ScalarStyle::Quoted, "'"), None);
    // Non-ASCII content between ASCII quotes is fine.
    assert_eq!(scalar_text(ScalarStyle::Quoted, "'caf\u{e9}'"), Some("caf\u{e9}"));
    assert_eq!(scalar_text(ScalarStyle::Other, "|\n  x\n"), None);
}

#[test]
fn a_key_with_a_space_is_not_readable() {
    assert_eq!(resolved_key_text(ScalarStyle::Plain, "operationId"), Some("operationId"));
    assert_eq!(resolved_key_text(ScalarStyle::Quoted, "'a b'"), None);
    assert_eq!(resolved_key_text(ScalarStyle::Plain, "a b"), None);
    assert_eq!(resolved_key_text(ScalarStyle::Other, "*alias"), None);
}

#[test]
fn merge_tags_are_recognised_under_any_handle() {
    assert!(tag_is_merge("!!merge"));
    assert!(tag_is_merge("!m!merge"));
    assert!(tag_is_merge("!<tag:yaml.org,2002:merge>"));
    // Deliberately wider than real resolution: a local `!merge` is refused too.
    assert!(tag_is_merge("!merge"));
    assert!(!tag_is_merge("merge"));
    assert!(!tag_is_merge("!!str"));
    assert!(!tag_is_merge("!!merges"));
    assert!(!tag_is_merge("!<tag:yaml.org,2002:str>"));
}

#[test]
fn the_trivia_scope_skips_blanks_and_comment_lines() {
    let source = "a: 1\n  # c\n\n\tb: 2";
    assert_eq!(trivia_scope_end(source, 4), 13);
    assert_eq!(trivia_scope_end(source, 0), 0);
    // Running off the end stops at the end.
    assert_eq!(trivia_scope_end("x  # tail", 1), 9);
    assert_eq!(trivia_scope_end("x", 5), 5);
}

#[test]
fn spans_any_finds_an_offset_in_the_half_open_range() {
    let starts = [3, 10, 20];
    assert!(spans_any(&starts, 10, 11));
    assert!(spans_any(&starts, 0, 4));
    assert!(!spans_any(&starts, 4, 10));
    assert!(!spans_any(&starts, 21, 100));
    assert!(!spans_any(&[], 0, 100));
}

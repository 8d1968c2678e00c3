use oxc_openapi_order::{Scratch, Table, permutation};

/// The reordered keys, or `None` when no permutation was needed.
fn apply<'k>(table: &[&str], keys: &[&'k str]) -> Option<Vec<&'k str>> {
    let mut scratch = Scratch::new();
    let permutation = permutation(Table::Builtin(table), keys, &mut scratch)?;
    assert_eq!(permutation.len(), keys.len(), "a permutation covers every key");
    let mut seen = vec![false; keys.len()];
    for &index in permutation {
        assert!(!seen[index as usize], "a permutation repeats no index");
        seen[index as usize] = true;
    }
    Some(permutation.iter().map(|&index| keys[index as usize]).collect())
}

/// The final order, whether or not a permutation was needed.
fn order<'k>(table: &[&str], keys: &[&'k str]) -> Vec<&'k str> {
    apply(table, keys).unwrap_or_else(|| keys.to_vec())
}

#[test]
fn permute_already_ordered_returns_no_permutation() {
    assert_eq!(apply(&["a", "b"], &["a", "b"]), None);
    assert_eq!(apply(&[], &["a", "b", "c"]), None);
    assert_eq!(apply(&["b"], &["b", "a", "c"]), None, "ranked first, then alphabetical");
    assert_eq!(apply(&[], &[]), None);
    assert_eq!(apply(&[], &["only"]), None);
}

#[test]
fn ranked_keys_come_first_in_table_order() {
    let table = ["operationId", "summary", "description", "parameters", "requestBody", "responses"];
    assert_eq!(
        order(&table, &["zeta", "responses", "Alpha", "operationId", "tags"]),
        ["operationId", "responses", "Alpha", "tags", "zeta"]
    );
}

#[test]
fn empty_table_is_pure_case_insensitive_alphabetical() {
    assert_eq!(
        order(&[], &["text/plain", "application/json", "Application/XML"]),
        ["application/json", "Application/XML", "text/plain"]
    );
}

#[test]
fn unranked_keys_are_case_insensitive_and_source_stable() {
    assert_eq!(order(&[], &["Foo", "bar", "foo"]), ["bar", "Foo", "foo"]);
    assert_eq!(order(&[], &["foo", "Foo"]), ["foo", "Foo"]);
    assert_eq!(order(&[], &["Foo", "foo"]), ["Foo", "foo"]);
    assert_eq!(order(&[], &["TYPE", "Type", "type"]), ["TYPE", "Type", "type"]);
    assert_eq!(order(&[], &["a", "Type", "type", "b"]), ["a", "b", "Type", "type"]);
}

#[test]
fn ranked_order_is_the_table_order_not_alphabetical() {
    assert_eq!(order(&["b", "a"], &["a", "b"]), ["b", "a"]);
}

#[test]
fn keys_absent_from_the_table_are_ignored() {
    assert_eq!(order(&["description", "type"], &["zz", "type"]), ["type", "zz"]);
    assert_eq!(order(&["nope", "gone"], &["zz", "aa"]), ["aa", "zz"]);
}

#[test]
fn integer_like_keys_are_ordered_as_text_never_numerically() {
    // Integer-like keys are ordinary unranked text, so `10` precedes `2`.
    assert_eq!(order(&[], &["10", "9", "2"]), ["10", "2", "9"]);
    assert_eq!(
        order(&["description", "headers", "content", "links"], &["404", "200", "default"]),
        ["200", "404", "default"]
    );
}

#[test]
fn unicode_cases_match_javascript() {
    assert_eq!(order(&[], &["z", "a", "\u{c4}"]), ["a", "z", "\u{c4}"]);
    assert_eq!(order(&[], &["z", "\u{130}"]), ["\u{130}", "z"]);
    assert_eq!(order(&[], &["k", "\u{212a}"]), ["k", "\u{212a}"], "tie keeps source order");
    assert_eq!(order(&[], &["\u{fffd}", "\u{1f4a9}"]), ["\u{1f4a9}", "\u{fffd}"]);
}

#[test]
fn final_sigma_changes_the_resulting_order() {
    assert_eq!(
        order(&[], &["\u{391}\u{3c2}a", "\u{3c3}", "A", "\u{391}\u{3a3}"]),
        ["A", "\u{391}\u{3a3}", "\u{391}\u{3c2}a", "\u{3c3}"]
    );
}

#[test]
fn sorting_is_idempotent() {
    let table = ["description", "type", "items", "format", "example", "default", "enum"];
    let keys = ["enum", "zz", "Type", "type", "description", "\u{c4}", "example", "aa"];
    let once = order(&table, &keys);
    assert_eq!(order(&table, &once), once);
    assert_eq!(apply(&table, &once), None, "a second pass needs no work");
}

#[test]
fn scratch_is_reusable_across_mappings() {
    let mut scratch = Scratch::new();
    assert_eq!(permutation(Table::Builtin(&[]), &["b", "a"], &mut scratch), Some(&[1, 0][..]));
    assert_eq!(
        permutation(Table::Builtin(&[]), &["c", "b", "a"], &mut scratch),
        Some(&[2, 1, 0][..])
    );
    // A no-op call must not hand back a stale permutation.
    assert_eq!(permutation(Table::Builtin(&[]), &["a", "b"], &mut scratch), None);
}

#[test]
fn user_table_ranks_like_a_builtin_one() {
    let owned = vec!["b".to_string(), "a".to_string()];
    let mut scratch = Scratch::new();
    assert_eq!(
        permutation(Table::User(&owned), &["a", "c", "b"], &mut scratch).map(<[u32]>::to_vec),
        Some(vec![2, 0, 1])
    );
}

#[test]
fn reversed_keys_reverse_fully() {
    let table = ["operationId", "summary", "description", "parameters", "requestBody", "responses"];
    let keys: Vec<&str> = table.iter().rev().copied().collect();
    assert_eq!(order(&table, &keys), table);
}

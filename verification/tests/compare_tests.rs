use std::cmp::Ordering;

use oxc_openapi_order::compare::{cmp_code_units, cmp_lowercase};

#[test]
fn ascii_is_case_insensitive() {
    assert_eq!(cmp_lowercase("bar", "Foo"), Ordering::Less);
    assert_eq!(cmp_lowercase("Foo", "foo"), Ordering::Equal);
    assert_eq!(cmp_lowercase("application/json", "Application/XML"), Ordering::Less);
    assert_eq!(cmp_lowercase("", "a"), Ordering::Less);
    assert_eq!(cmp_lowercase("", ""), Ordering::Equal);
}

#[test]
fn a_umlaut_sorts_after_z() {
    // "Ä".toLowerCase() == "ä" == U+00E4 > "z" == U+007A
    assert_eq!(cmp_lowercase("\u{c4}", "z"), Ordering::Greater);
    assert_eq!(cmp_lowercase("\u{c4}", "a"), Ordering::Greater);
}

#[test]
fn dotted_capital_i_sorts_before_z() {
    // U+0130 lowercases to "i" + U+0307, so the first unit decides: 0x69 < 0x7A.
    assert_eq!(cmp_lowercase("\u{130}", "z"), Ordering::Less);
    // ... and it is longer than a bare "i", so it sorts after it.
    assert_eq!(cmp_lowercase("\u{130}", "i"), Ordering::Greater);
}

#[test]
fn kelvin_sign_ties_with_k() {
    // U+212A lowercases to "k": a tie that only full case mapping produces.
    assert_eq!(cmp_lowercase("\u{212a}", "k"), Ordering::Equal);
    assert_eq!(cmp_lowercase("k", "\u{212a}"), Ordering::Equal);
}

#[test]
fn astral_sorts_by_utf16_code_unit_not_code_point() {
    // JS: "\u{1F4A9}" < "\u{FFFD}" (0xD83D < 0xFFFD).
    assert_eq!(cmp_lowercase("\u{1f4a9}", "\u{fffd}"), Ordering::Less);
    assert_eq!(cmp_code_units("\u{1f4a9}", "\u{fffd}"), Ordering::Less);
    assert_eq!(
        "\u{1f4a9}".cmp("\u{fffd}"),
        Ordering::Greater,
        "the Rust default really does disagree, which is why this module exists"
    );
}

#[test]
fn final_sigma_is_context_sensitive() {
    // "ΑΣ".toLowerCase() == "ας" (U+03C2, final form), so it sorts BEFORE "ασ" (U+03C3).
    assert_eq!(cmp_lowercase("\u{391}\u{3a3}", "\u{391}\u{3c3}"), Ordering::Less);
    assert_eq!(cmp_lowercase("\u{391}\u{3c3}", "\u{391}\u{3a3}"), Ordering::Greater);
    // Non-final sigma keeps the ordinary mapping, so these two ARE equal.
    assert_eq!(
        cmp_lowercase("\u{391}\u{3a3}\u{391}", "\u{391}\u{3c3}\u{391}"),
        Ordering::Equal
    );
    // A lone sigma is not word-final either (nothing cased precedes it).
    assert_eq!(cmp_lowercase("\u{3a3}", "\u{3c3}"), Ordering::Equal);
}

#[test]
fn sharp_s_lowercases_to_itself() {
    // "ß".toLowerCase() == "ß" (only uppercasing expands it), so it sorts after "ss".
    assert_eq!(cmp_lowercase("\u{df}", "ss"), Ordering::Greater);
}

#[test]
fn code_units_are_case_sensitive() {
    // Path segments are compared without lowercasing: 'B' (0x42) < 'a' (0x61).
    assert_eq!(cmp_code_units("Beta", "alpha"), Ordering::Less);
    assert_eq!(cmp_code_units("beta", "alpha"), Ordering::Greater);
}

#[test]
fn lowercase_order_is_antisymmetric_on_mixed_inputs() {
    let keys = ["a", "B", "\u{c4}", "\u{1f4a9}", "\u{fffd}", "\u{391}\u{3a3}", "", "z"];
    for a in keys {
        for b in keys {
            assert_eq!(cmp_lowercase(a, b), cmp_lowercase(b, a).reverse(), "{a:?} vs {b:?}");
        }
        assert_eq!(cmp_lowercase(a, a), Ordering::Equal);
    }
}

#[test]
fn mixed_ascii_and_non_ascii_pair_compares_by_lowercase_units() {
    // One side ASCII, the other not: "Z" lowercases to "z" (0x7A) < "ä" (0xE4).
    assert_eq!(cmp_lowercase("Z", "\u{c4}"), Ordering::Less);
    assert_eq!(cmp_lowercase("\u{c4}x", "\u{e4}X"), Ordering::Equal);
}

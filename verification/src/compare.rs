//! Key and segment comparison, matching JavaScript's string relational operators.
//!
//! Keys are compared the way `a.toLowerCase() < b.toLowerCase()` compares them: full Unicode
//! lowercasing, then UTF-16 code-unit order. Path segments and tags are compared the way bare
//! `a < b` compares them: UTF-16 code-unit order, case-sensitive.
//!
//! Code-unit order is neither Rust's `str` order (code-point order) nor a `char`-wise one: an
//! astral character (a surrogate pair whose lead unit is 0xD800..=0xDBFF) sorts before
//! U+E000..=U+FFFF. Full case mapping matters too, since it can change a character's length
//! (`İ` lowercases to `i` + U+0307) and is context-sensitive for `Σ` (final form `ς`).
//!
//! ASCII text takes a path of its own, ASCII lowercasing, which is exactly what the full mapping
//! does to ASCII characters; everything else goes through `str::to_lowercase`, which handles the
//! final-sigma context. Each string's lowercase units depend on that string alone, so the key order
//! is a total order.

use std::cmp::Ordering;
use vstd::prelude::*;

use crate::lex::{Order, compare_units, lex_order, lemma_lex_total_order, reversed};
use crate::units::{
    ascii_lowercase, ascii_lowered, chars_of, encode_utf16, utf16_of,
};

verus! {

/// What `str::to_lowercase` returns for a string: its full Unicode lowercase mapping, with
/// `Σ` taking its final form at the end of a word.
pub uninterp spec fn str_lowercase(s: Seq<char>) -> Seq<char>;

/// Calls `str::to_lowercase`. The contract names the result and claims nothing else about it:
/// the Unicode case tables it depends on are not restated here.
#[verifier::external_body]
fn to_lowercase(s: &str) -> (lowered: String)
    ensures
        lowered@ == str_lowercase(s@),
{
    s.to_lowercase()
}

/// The lowercase form JavaScript's `toLowerCase` gives `s`, as characters: ASCII lowercasing
/// for ASCII text, the full mapping otherwise.
pub open spec fn js_lowercase(s: Seq<char>) -> Seq<char> {
    if vstd::utf8::is_ascii_chars(s) {
        ascii_lowered(s)
    } else {
        str_lowercase(s)
    }
}

/// The UTF-16 code units of `s` after lowercasing: what unranked keys are compared by.
pub open spec fn lower_units(s: Seq<char>) -> Seq<u16> {
    utf16_of(js_lowercase(s))
}

/// The order of two keys compared case-insensitively, as JavaScript compares
/// `a.toLowerCase()` with `b.toLowerCase()`.
pub open spec fn lowercase_order(a: Seq<char>, b: Seq<char>) -> Order {
    lex_order(lower_units(a), lower_units(b))
}

/// The order of two strings compared case-sensitively by UTF-16 code unit, as JavaScript's
/// `a < b` compares them.
pub open spec fn code_unit_order(a: Seq<char>, b: Seq<char>) -> Order {
    lex_order(utf16_of(a), utf16_of(b))
}

/// The lowercase UTF-16 code units of `s`.
pub fn lowercase_units(s: &str) -> (units: Vec<u16>)
    ensures
        units@ == lower_units(s@),
{
    if s.is_ascii() {
        let chars = chars_of(s);
        let lowered = ascii_lowercase(chars.as_slice());
        encode_utf16(lowered.as_slice())
    } else {
        let lowered = to_lowercase(s);
        let chars = chars_of(lowered.as_str());
        encode_utf16(chars.as_slice())
    }
}

/// The UTF-16 code units of `s`.
pub fn code_units(s: &str) -> (units: Vec<u16>)
    ensures
        units@ == utf16_of(s@),
{
    let chars = chars_of(s);
    encode_utf16(chars.as_slice())
}

/// JS `a.toLowerCase() < b.toLowerCase()` and friends: full case mapping, then UTF-16
/// code-unit order.
pub fn cmp_lowercase(a: &str, b: &str) -> (order: Ordering)
    ensures
        order == std_ordering(lowercase_order(a@, b@)),
{
    let left = lowercase_units(a);
    let right = lowercase_units(b);
    to_std_ordering(compare_units(left.as_slice(), right.as_slice()))
}

/// JS `a < b` on strings: UTF-16 code-unit order, case-sensitive.
///
/// Used for path segments and tags, which are compared without lowercasing.
pub fn cmp_code_units(a: &str, b: &str) -> (order: Ordering)
    ensures
        order == std_ordering(code_unit_order(a@, b@)),
{
    let left = code_units(a);
    let right = code_units(b);
    to_std_ordering(compare_units(left.as_slice(), right.as_slice()))
}

/// The standard library's name for an order.
pub open spec fn std_ordering(order: Order) -> Ordering {
    match order {
        Order::Less => Ordering::Less,
        Order::Equal => Ordering::Equal,
        Order::Greater => Ordering::Greater,
    }
}

/// Converts an order to the standard library's type.
pub fn to_std_ordering(order: Order) -> (converted: Ordering)
    ensures
        converted == std_ordering(order),
{
    match order {
        Order::Less => Ordering::Less,
        Order::Equal => Ordering::Equal,
        Order::Greater => Ordering::Greater,
    }
}

/// The case-insensitive key order is a total preorder: swapping the keys reverses it, it is
/// transitive, and it ties exactly the keys whose lowercase units agree.
pub proof fn lemma_lowercase_order_laws(a: Seq<char>, b: Seq<char>, c: Seq<char>)
    ensures
        lowercase_order(a, a) == Order::Equal,
        lowercase_order(b, a) == reversed(lowercase_order(a, b)),
        (lowercase_order(a, b) == Order::Equal) <==> (lower_units(a) == lower_units(b)),
        lowercase_order(a, b) == Order::Less && lowercase_order(b, c) == Order::Less
            ==> lowercase_order(a, c) == Order::Less,
{
    lemma_lex_total_order(lower_units(a), lower_units(a), lower_units(a));
    lemma_lex_total_order(lower_units(a), lower_units(b), lower_units(c));
}

/// The case-sensitive order is a total order on code units: swapping the strings reverses it, it
/// is transitive, and it ties exactly the strings with equal code units.
pub proof fn lemma_code_unit_order_laws(a: Seq<char>, b: Seq<char>, c: Seq<char>)
    ensures
        code_unit_order(a, a) == Order::Equal,
        code_unit_order(b, a) == reversed(code_unit_order(a, b)),
        (code_unit_order(a, b) == Order::Equal) <==> (utf16_of(a) == utf16_of(b)),
        code_unit_order(a, b) == Order::Less && code_unit_order(b, c) == Order::Less
            ==> code_unit_order(a, c) == Order::Less,
{
    lemma_lex_total_order(utf16_of(a), utf16_of(a), utf16_of(a));
    lemma_lex_total_order(utf16_of(a), utf16_of(b), utf16_of(c));
}

} // verus!

//! Ordering the members of the `paths` mapping.
//!
//! Two comparators, both case-sensitive, unlike the key comparator, which lowercases.

use std::cmp::Ordering;
use vstd::prelude::*;

use crate::compare::{code_units, to_std_ordering, std_ordering};
use crate::lex::{
    Order, compare_unit_lists, compare_units, lemma_lex_list_total_order, lemma_lex_total_order,
    lex_list_order, lex_order,
};
use crate::permute::{
    Scratch, checked_len, identity_sorted, is_permutation, ordering_result, order_into, reordered,
    slice_view, sorted_by, total_order_on,
};
use crate::units::{chars_of, encode_utf16, utf16_of};

verus! {

/// How `paths` members are ordered.
#[derive(Debug, Clone, Copy, PartialEq, Eq)]
pub enum PathsOrder {
    /// Keep source order (the default).
    Original,
    /// Order by path, segment by segment.
    Path,
    /// Order by the first tag of the first method present.
    Tags,
}

impl Default for PathsOrder {
    fn default() -> (order: Self)
        ensures
            order == PathsOrder::Original,
    {
        PathsOrder::Original
    }
}

/// The methods consulted, in order, when keying a path item by tag.
///
/// The first method present with a non-empty `tags` sequence supplies the key; a path item
/// with no tagged method keys on the empty string.
pub const TAG_METHOD_ORDER: [&'static str; 8] = [
    "get",
    "query",
    "post",
    "put",
    "delete",
    "patch",
    "options",
    "head",
];

/// `s` split at every `/`, as `str::split('/')` splits it: `n` slashes give `n + 1` segments.
pub open spec fn split_slash(s: Seq<char>) -> Seq<Seq<char>>
    decreases s.len(),
{
    if s.len() == 0 {
        seq![Seq::empty()]
    } else {
        let r = split_slash(s.drop_last());
        if s.last() == '/' {
            r.push(Seq::empty())
        } else {
            r.update(r.len() - 1, r.last().push(s.last()))
        }
    }
}

/// Splitting always yields at least one segment.
pub proof fn lemma_split_nonempty(s: Seq<char>)
    ensures
        split_slash(s).len() >= 1,
    decreases s.len(),
{
    if s.len() > 0 {
        lemma_split_nonempty(s.drop_last());
    }
}

/// The segments a path is compared by: every segment after the first, as UTF-16 code units.
///
/// The leading `/` of a template produces an empty first segment, which is skipped.
pub open spec fn path_segment_units(s: Seq<char>) -> Seq<Seq<u16>> {
    split_slash(s).drop_first().map_values(|segment: Seq<char>| utf16_of(segment))
}

/// Two path templates compared segment by segment from segment 1: the first differing segment
/// decides by code units, and a path that runs out of segments sorts first.
pub open spec fn path_order(a: Seq<char>, b: Seq<char>) -> Order {
    lex_list_order(path_segment_units(a), path_segment_units(b))
}

/// The segments of `s`, split at every `/`.
fn split_segments(s: &str) -> (segments: Vec<Vec<char>>)
    ensures
        segments.deep_view() == split_slash(s@),
{
    let chars = chars_of(s);
    let mut segments: Vec<Vec<char>> = Vec::new();
    let mut current: Vec<char> = Vec::new();
    let mut i: usize = 0;
    while i < chars.len()
        invariant
            i <= chars@.len(),
            chars@ == s@,
            segments.deep_view().push(current@) =~= split_slash(chars@.take(i as int)),
        decreases chars@.len() - i,
    {
        let c = chars[i];
        proof {
            assert(chars@.take(i + 1).drop_last() =~= chars@.take(i as int));
            lemma_split_nonempty(chars@.take(i as int));
        }
        if c == '/' {
            let ghost before = segments.deep_view();
            let finished = current;
            assert(finished.deep_view() =~= finished@);
            segments.push(finished);
            current = Vec::new();
            assert(segments.deep_view() =~= before.push(finished@));
        } else {
            current.push(c);
        }
        i = i + 1;
    }
    let ghost before = segments.deep_view();
    let last = current;
    assert(last.deep_view() =~= last@);
    segments.push(last);
    assert(segments.deep_view() =~= before.push(last@));
    assert(chars@.take(chars@.len() as int) =~= chars@);
    segments
}

/// The code units of every segment of `s` after the first.
fn segment_units(s: &str) -> (units: Vec<Vec<u16>>)
    ensures
        units.deep_view() == path_segment_units(s@),
{
    let segments = split_segments(s);
    let ghost all = segments.deep_view();
    proof {
        lemma_split_nonempty(s@);
    }
    let mut units: Vec<Vec<u16>> = Vec::new();
    let mut i: usize = 1;
    while i < segments.len()
        invariant
            1 <= i <= segments@.len(),
            all == segments.deep_view(),
            all == split_slash(s@),
            units.deep_view() =~= all.subrange(1, i as int).map_values(
                |segment: Seq<char>| utf16_of(segment),
            ),
        decreases segments@.len() - i,
    {
        let ghost before = units.deep_view();
        assert(all[i as int] =~= segments@[i as int]@);
        let encoded = encode_utf16(segments[i].as_slice());
        assert(encoded.deep_view() =~= encoded@);
        units.push(encoded);
        assert(units.deep_view() =~= before.push(encoded@));
        i = i + 1;
    }
    assert(all.subrange(1, all.len() as int) =~= all.drop_first());
    units
}

/// The order of two path templates; [`path_order`] states it.
fn path_compare(left: &str, right: &str) -> (o: Order)
    ensures
        o == path_order(left@, right@),
{
    let l = segment_units(left);
    let r = segment_units(right);
    compare_unit_lists(&l, &r)
}

/// Compare two path templates segment by segment.
///
/// The leading `/` produces an empty first segment, which is skipped: comparison starts at
/// segment 1. A path that runs out of segments sorts first, tested strictly for "no more
/// segments" rather than for emptiness, so `/pets` sorts before `/pets/` in either argument
/// order.
///
/// NOTE: because segment 0 is skipped, two paths that differ only in their first segment and
/// have no others compare equal. That cannot arise for well-formed templates, which all begin
/// with `/` and therefore all have an empty segment 0.
pub fn cmp_path(left: &str, right: &str) -> (order: Ordering)
    ensures
        order == std_ordering(path_order(left@, right@)),
{
    to_std_ordering(path_compare(left, right))
}

/// The order [`order_by_path`] puts the members of `paths` in: by path, ties by source position.
pub open spec fn path_entry_order(paths: Seq<Seq<char>>) -> spec_fn(u32, u32) -> Order {
    |i: u32, j: u32|
        {
            let o = path_order(paths[i as int], paths[j as int]);
            if o != Order::Equal {
                o
            } else if i < j {
                Order::Less
            } else if i > j {
                Order::Greater
            } else {
                Order::Equal
            }
        }
}

/// The order [`order_by_tags`] puts the members of `paths` in: by tag key, case-sensitively,
/// ties by source position.
pub open spec fn tag_entry_order(tags: Seq<Seq<char>>) -> spec_fn(u32, u32) -> Order {
    |i: u32, j: u32|
        {
            let o = lex_order(utf16_of(tags[i as int]), utf16_of(tags[j as int]));
            if o != Order::Equal {
                o
            } else if i < j {
                Order::Less
            } else if i > j {
                Order::Greater
            } else {
                Order::Equal
            }
        }
}

/// The path order with a source-position tiebreak is a strict total order.
pub proof fn lemma_path_entry_order_total(paths: Seq<Seq<char>>)
    ensures
        total_order_on(path_entry_order(paths), paths.len() as int),
{
    let order = path_entry_order(paths);
    let n = paths.len() as int;
    assert forall|i: u32, j: u32| i < n && j < n implies ((#[trigger] order(i, j) == Order::Equal)
        <==> i == j) by {
        let a = path_segment_units(paths[i as int]);
        lemma_lex_list_total_order(a, path_segment_units(paths[j as int]), a);
    }
    assert forall|i: u32, j: u32| i < n && j < n implies #[trigger] order(j, i)
        == crate::lex::reversed(order(i, j)) by {
        let a = path_segment_units(paths[i as int]);
        lemma_lex_list_total_order(a, path_segment_units(paths[j as int]), a);
    }
    assert forall|i: u32, j: u32, k: u32|
        i < n && j < n && k < n && #[trigger] order(i, j) == Order::Less && #[trigger] order(j, k)
            == Order::Less implies order(i, k) == Order::Less by {
        let (a, b, c) = (
            path_segment_units(paths[i as int]),
            path_segment_units(paths[j as int]),
            path_segment_units(paths[k as int]),
        );
        lemma_lex_list_total_order(a, b, c);
        lemma_lex_list_total_order(a, c, b);
        lemma_lex_list_total_order(b, c, a);
    }
}

/// The tag order with a source-position tiebreak is a strict total order.
pub proof fn lemma_tag_entry_order_total(tags: Seq<Seq<char>>)
    ensures
        total_order_on(tag_entry_order(tags), tags.len() as int),
{
    let order = tag_entry_order(tags);
    let n = tags.len() as int;
    assert forall|i: u32, j: u32| i < n && j < n implies ((#[trigger] order(i, j) == Order::Equal)
        <==> i == j) by {
        let a = utf16_of(tags[i as int]);
        lemma_lex_total_order(a, utf16_of(tags[j as int]), a);
    }
    assert forall|i: u32, j: u32| i < n && j < n implies #[trigger] order(j, i)
        == crate::lex::reversed(order(i, j)) by {
        let a = utf16_of(tags[i as int]);
        lemma_lex_total_order(a, utf16_of(tags[j as int]), a);
    }
    assert forall|i: u32, j: u32, k: u32|
        i < n && j < n && k < n && #[trigger] order(i, j) == Order::Less && #[trigger] order(j, k)
            == Order::Less implies order(i, k) == Order::Less by {
        let (a, b, c) = (
            utf16_of(tags[i as int]),
            utf16_of(tags[j as int]),
            utf16_of(tags[k as int]),
        );
        lemma_lex_total_order(a, b, c);
        lemma_lex_total_order(a, c, b);
        lemma_lex_total_order(b, c, a);
    }
}

/// Ordering `paths` by path template is idempotent: paths printed in the order it gives are
/// already ordered.
pub proof fn lemma_path_order_idempotent(paths: Seq<Seq<char>>, p: Seq<u32>)
    requires
        is_permutation(p, paths.len() as int),
        sorted_by(p, path_entry_order(paths)),
    ensures
        identity_sorted(paths.len() as int, path_entry_order(reordered(paths, p))),
{
    let n = paths.len() as int;
    let after = reordered(paths, p);
    assert forall|i: u32, j: u32| i < j < n implies #[trigger] path_entry_order(after)(i, j)
        == Order::Less by {
        assert(path_entry_order(paths)(p[i as int], p[j as int]) == Order::Less);
        assert(after[i as int] == paths[p[i as int] as int]);
        assert(after[j as int] == paths[p[j as int] as int]);
        assert(p[i as int] != p[j as int]);
    }
}

/// Ordering `paths` by tag key is idempotent: entries printed in the order it gives are
/// already ordered.
pub proof fn lemma_tag_order_idempotent(tags: Seq<Seq<char>>, p: Seq<u32>)
    requires
        is_permutation(p, tags.len() as int),
        sorted_by(p, tag_entry_order(tags)),
    ensures
        identity_sorted(tags.len() as int, tag_entry_order(reordered(tags, p))),
{
    let n = tags.len() as int;
    let after = reordered(tags, p);
    assert forall|i: u32, j: u32| i < j < n implies #[trigger] tag_entry_order(after)(i, j)
        == Order::Less by {
        assert(tag_entry_order(tags)(p[i as int], p[j as int]) == Order::Less);
        assert(after[i as int] == tags[p[i as int] as int]);
        assert(after[j as int] == tags[p[j as int] as int]);
        assert(p[i as int] != p[j as int]);
    }
}

/// Order `paths` by path template. `None` when they are already ordered.
pub fn order_by_path<'s>(paths: &[&str], scratch: &'s mut Scratch) -> (result: Option<&'s [u32]>)
    requires
        paths@.len() <= u32::MAX,
    ensures
        ordering_result(slice_view(result), paths@.len() as int, path_entry_order(paths.deep_view())),
{
    let ghost names = paths.deep_view();
    if paths.len() < 2 {
        return None;
    }
    let len = checked_len(paths.len());
    let mut keys: Vec<Vec<Vec<u16>>> = Vec::new();
    let mut k: usize = 0;
    while k < paths.len()
        invariant
            k <= paths@.len(),
            names == paths.deep_view(),
            keys@.len() == k,
            forall|i: int| 0 <= i < k ==> #[trigger] keys@[i].deep_view() == path_segment_units(
                names[i],
            ),
        decreases paths@.len() - k,
    {
        keys.push(segment_units(paths[k]));
        k = k + 1;
    }
    let keys = &keys;
    let ghost order_spec = path_entry_order(names);
    let compare = |left: u32, right: u32| -> (o: Order)
        requires
            left < len,
            right < len,
        ensures
            o == order_spec(left, right),
        {
            let o = compare_unit_lists(&keys[left as usize], &keys[right as usize]);
            match o {
                Order::Equal => {
                    if left < right {
                        Order::Less
                    } else if left > right {
                        Order::Greater
                    } else {
                        Order::Equal
                    }
                },
                _ => o,
            }
        };
    proof {
        lemma_path_entry_order_total(names);
    }
    order_into(scratch.order_buffer(), len, compare, Ghost(order_spec))
}

/// Order `paths` by their tag keys, which the caller extracts with [`TAG_METHOD_ORDER`].
/// `None` when they are already ordered.
///
/// `tags` is parallel to the `paths` mapping's entries; use `""` for a path item with no
/// tagged method.
pub fn order_by_tags<'s>(tags: &[&str], scratch: &'s mut Scratch) -> (result: Option<&'s [u32]>)
    requires
        tags@.len() <= u32::MAX,
    ensures
        ordering_result(slice_view(result), tags@.len() as int, tag_entry_order(tags.deep_view())),
{
    let ghost names = tags.deep_view();
    if tags.len() < 2 {
        return None;
    }
    let len = checked_len(tags.len());
    let mut keys: Vec<Vec<u16>> = Vec::new();
    let mut k: usize = 0;
    while k < tags.len()
        invariant
            k <= tags@.len(),
            names == tags.deep_view(),
            keys@.len() == k,
            forall|i: int| 0 <= i < k ==> #[trigger] keys@[i]@ == utf16_of(names[i]),
        decreases tags@.len() - k,
    {
        keys.push(code_units(tags[k]));
        k = k + 1;
    }
    let keys = &keys;
    let ghost order_spec = tag_entry_order(names);
    let compare = |left: u32, right: u32| -> (o: Order)
        requires
            left < len,
            right < len,
        ensures
            o == order_spec(left, right),
        {
            let o = compare_units(keys[left as usize].as_slice(), keys[right as usize].as_slice());
            match o {
                Order::Equal => {
                    if left < right {
                        Order::Less
                    } else if left > right {
                        Order::Greater
                    } else {
                        Order::Equal
                    }
                },
                _ => o,
            }
        };
    proof {
        lemma_tag_entry_order_total(names);
    }
    order_into(scratch.order_buffer(), len, compare, Ghost(order_spec))
}

} // verus!

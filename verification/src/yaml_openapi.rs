//! OpenAPI-aware key ordering for YAML block mappings: the printer's side of the policy.
//!
//! The ordering policy lives in [`Session`], shared with the JSON side. This module decides when
//! reordering a mapping is safe, which strings it is ordered by, and where anchors and aliases
//! sit. Everything is gated on the document's root mapping having an `openapi` key; a document
//! without one is left exactly as it is.
//!
//! The printer hands over a stream as a [`YamlTree`]: every node with its content, the source
//! text of that content, its anchor and its tag, each collection referring to its children by
//! node index. Children come after their parent, which is what makes the walks here terminate.

use vstd::prelude::*;
use vstd::string::StringSliceAdditionalSpecFns;

use crate::config::SortOpenapi;
use crate::json_openapi::tag_methods;
use crate::paths::TAG_METHOD_ORDER;
use crate::permute::{identity_sorted, is_permutation, sorted_by};
use crate::lex::Order;
use crate::rule::Step;
use crate::session::{
    Frame, MappingOrder, Session, chosen, lemma_chosen_unique, opened, order_relation, orderable,
};
use crate::units::widen;
use crate::yaml_text::{
    ScalarStyle, ascending, is_merge_tag, key_text_of, resolved_key_text, scalar_text,
    scalar_text_of, scope_end_from, spans_any, tag_is_merge, trivia_scope_end,
};

verus! {

/// A mapping entry: its key and value nodes (either may be absent), and its source span.
#[derive(Debug, Clone, Copy, PartialEq, Eq)]
pub struct YamlItem {
    /// Where the entry starts.
    pub span_start: u32,
    /// Where the entry ends.
    pub span_end: u32,
    /// The key's node, if the entry has a key.
    pub key: Option<usize>,
    /// The value's node, if the entry has a value.
    pub value: Option<usize>,
    /// The block scalar the entry ends in, at whatever depth, if any: its span swallows the
    /// trailing line breaks, so its output depends on where it sits.
    pub last_block: Option<usize>,
}

/// A block or flow mapping: its entries in source order, and its source span.
#[derive(Debug, Clone, PartialEq, Eq)]
pub struct YamlMapping {
    /// The entries, in source order.
    pub children: Vec<YamlItem>,
    /// Where the mapping starts; for a block mapping, its first entry.
    pub span_start: u32,
    /// Where the mapping ends: its last entry, since a block mapping has no closing token.
    pub span_end: u32,
}

/// An item of a block sequence: its content node (a bare `-` has none), its source span, and
/// the block scalar it ends in, at whatever depth, if any.
#[derive(Debug, Clone, Copy, PartialEq, Eq)]
pub struct SequenceItem {
    /// The item's content node, if any.
    pub content: Option<usize>,
    /// Where the item starts.
    pub span_start: u32,
    /// Where the item ends.
    pub span_end: u32,
    /// The block scalar the item ends in, at whatever depth, if any.
    pub last_block: Option<usize>,
}

/// An entry of a flow sequence.
#[derive(Debug, Clone, Copy, PartialEq, Eq)]
pub enum FlowEntry {
    /// A node.
    Item(usize),
    /// A single-pair mapping, `[a: b]`.
    Pair(YamlItem),
}

/// What a node holds.
#[derive(Debug, Clone, PartialEq, Eq)]
pub enum YamlContent {
    /// A plain scalar.
    Plain,
    /// A single-quoted scalar.
    QuoteSingle,
    /// A double-quoted scalar.
    QuoteDouble,
    /// A literal block scalar: where its content ends, and whether it is keep-chomped (`|+`).
    BlockLiteral { content_end: u32, keep: bool },
    /// A folded block scalar: where its content ends, and whether it is keep-chomped (`>+`).
    BlockFolded { content_end: u32, keep: bool },
    /// An alias, by where it starts.
    Alias { start: u32 },
    /// A block mapping.
    Mapping(YamlMapping),
    /// A flow mapping.
    FlowMapping(YamlMapping),
    /// A block sequence.
    Sequence(Vec<SequenceItem>),
    /// A flow sequence.
    FlowSequence(Vec<FlowEntry>),
}

/// A node: its content, the source text of that content, where the node ends, and its
/// properties.
#[derive(Debug, Clone, PartialEq, Eq)]
pub struct YamlNode<'a> {
    /// What the node holds.
    pub content: YamlContent,
    /// The source text of the content's span.
    pub text: &'a str,
    /// Where the node's span ends.
    pub span_end: u32,
    /// Where the node's anchor starts, if it has one.
    pub anchor: Option<u32>,
    /// The raw text of the node's tag, if it has one.
    pub tag: Option<&'a str>,
}

/// A stream's nodes.
#[derive(Debug, Clone, PartialEq, Eq)]
pub struct YamlTree<'a> {
    /// The nodes; every child comes after its parent.
    pub nodes: Vec<YamlNode<'a>>,
}

/// The node at `index`, if the tree has one.
pub open spec fn node_at<'a>(tree: YamlTree<'a>, index: usize) -> Option<YamlNode<'a>> {
    if index < tree.nodes@.len() {
        Some(tree.nodes@[index as int])
    } else {
        None
    }
}

/// How a node's content is written, as far as reading it as a scalar goes.
pub open spec fn style_of(content: YamlContent) -> ScalarStyle {
    match content {
        YamlContent::Plain => ScalarStyle::Plain,
        YamlContent::QuoteSingle => ScalarStyle::Quoted,
        YamlContent::QuoteDouble => ScalarStyle::Quoted,
        _ => ScalarStyle::Other,
    }
}

/// How a node's content is written.
fn style(content: &YamlContent) -> (s: ScalarStyle)
    ensures
        s == style_of(*content),
{
    match content {
        YamlContent::Plain => ScalarStyle::Plain,
        YamlContent::QuoteSingle => ScalarStyle::Quoted,
        YamlContent::QuoteDouble => ScalarStyle::Quoted,
        _ => ScalarStyle::Other,
    }
}

/// The resolved key text of the node at `index`, if it is a readable key.
pub open spec fn key_text_at(tree: YamlTree, index: usize) -> Option<Seq<char>> {
    match node_at(tree, index) {
        Some(node) => key_text_of(style_of(node.content), node.text@),
        None => None,
    }
}

/// The resolved scalar text of the node at `index`, if it is a readable scalar.
pub open spec fn scalar_text_at(tree: YamlTree, index: usize) -> Option<Seq<char>> {
    match node_at(tree, index) {
        Some(node) => scalar_text_of(style_of(node.content), node.text@),
        None => None,
    }
}

/// The resolved key text of the node at `index`.
fn key_text<'a>(tree: &YamlTree<'a>, index: usize) -> (text: Option<&'a str>)
    ensures
        match text {
            Some(t) => key_text_at(*tree, index) == Some(t@),
            None => key_text_at(*tree, index) is None,
        },
{
    if index >= tree.nodes.len() {
        return None;
    }
    let node = &tree.nodes[index];
    resolved_key_text(style(&node.content), node.text)
}

/// The ancestry step for a mapping item's value.
///
/// Prefers the key's resolved text, since that is what the tables are keyed by. Falls back to
/// the key's raw source text for a key that is not a readable scalar (an alias, a collection, a
/// block scalar, or a quoted scalar carrying escapes); no table name can equal such a slice. An
/// entry with no key contributes an empty key.
pub fn value_step<'a>(tree: &YamlTree<'a>, item: &YamlItem) -> (step: Step<'a>)
    ensures
        step matches Step::Key(k) && k@ == match item.key {
            None => Seq::empty(),
            Some(key) => match key_text_at(*tree, key) {
                Some(text) => text,
                None => match node_at(*tree, key) {
                    Some(node) => node.text@,
                    None => Seq::empty(),
                },
            },
        },
{
    let key = match item.key {
        Some(key) => key,
        None => {
            proof {
                reveal_strlit("");
            }
            return Step::Key("");
        },
    };
    if let Some(text) = key_text(tree, key) {
        return Step::Key(text);
    }
    if key < tree.nodes.len() {
        Step::Key(tree.nodes[key].text)
    } else {
        proof {
            reveal_strlit("");
        }
        Step::Key("")
    }
}

/// The entries of the mapping at `index`, block or flow, if that node is one.
pub open spec fn entries_at(tree: YamlTree, index: usize) -> Option<Seq<YamlItem>> {
    match node_at(tree, index) {
        Some(node) => match node.content {
            YamlContent::Mapping(m) => Some(m.children@),
            YamlContent::FlowMapping(m) => Some(m.children@),
            _ => None,
        },
        None => None,
    }
}

/// Whether an entry's key reads `name`.
pub open spec fn keyed(tree: YamlTree, item: YamlItem, name: Seq<char>) -> bool {
    match item.key {
        Some(k) => key_text_at(tree, k) == Some(name),
        None => false,
    }
}

/// The first entry of `items` whose key reads `name`.
pub open spec fn first_keyed(tree: YamlTree, items: Seq<YamlItem>, name: Seq<char>) -> Option<
    YamlItem,
>
    decreases items.len(),
{
    if items.len() == 0 {
        None
    } else if keyed(tree, items[0], name) {
        Some(items[0])
    } else {
        first_keyed(tree, items.drop_first(), name)
    }
}

/// The value of `name` in the mapping at `index`: the value of its first entry keyed `name`.
pub open spec fn entry_value(tree: YamlTree, index: usize, name: Seq<char>) -> Option<usize> {
    match entries_at(tree, index) {
        Some(items) => match first_keyed(tree, items, name) {
            Some(item) => item.value,
            None => None,
        },
        None => None,
    }
}

/// The value of `name` in the node at `index`, if it is a mapping with such an entry.
///
/// Reads block and flow mappings alike: `get: {tags: [pet]}` is as valid a path item as the
/// indented spelling.
fn mapping_entry(tree: &YamlTree<'_>, index: usize, name: &str) -> (value: Option<usize>)
    ensures
        value == entry_value(*tree, index, name@),
{
    if index >= tree.nodes.len() {
        return None;
    }
    let children = match &tree.nodes[index].content {
        YamlContent::Mapping(m) => &m.children,
        YamlContent::FlowMapping(m) => &m.children,
        _ => return None,
    };
    assert(entries_at(*tree, index) == Some(children@));
    let ghost items = children@;
    let mut i: usize = 0;
    assert(items.skip(0) =~= items);
    while i < children.len()
        invariant
            i <= children@.len(),
            items == children@,
            entries_at(*tree, index) == Some(items),
            first_keyed(*tree, items, name@) == first_keyed(*tree, items.skip(i as int), name@),
        decreases children@.len() - i,
    {
        assert(items.skip(i as int).drop_first() =~= items.skip(i + 1));
        assert(items.skip(i as int)[0] == items[i as int]);
        let item = &children[i];
        if let Some(k) = item.key {
            if let Some(text) = key_text(tree, k) {
                if text.eq(name) {
                    assert(keyed(*tree, items.skip(i as int)[0], name@));
                    assert(first_keyed(*tree, items.skip(i as int), name@) == Some(items[i as int]));
                    return item.value;
                }
            }
        }
        i = i + 1;
    }
    None
}

/// The first element of the sequence at `index`, block or flow, if it is one and has a first
/// element that is a node.
pub open spec fn first_element_at(tree: YamlTree, index: usize) -> Option<usize> {
    match node_at(tree, index) {
        Some(node) => match node.content {
            YamlContent::Sequence(items) => if items@.len() > 0 {
                items@[0].content
            } else {
                None
            },
            YamlContent::FlowSequence(entries) => if entries@.len() > 0 {
                match entries@[0] {
                    FlowEntry::Item(n) => Some(n),
                    FlowEntry::Pair(_) => None,
                }
            } else {
                None
            },
            _ => None,
        },
        None => None,
    }
}

/// The first element of a block or flow sequence. `[a: b]` is a single-pair mapping, not a
/// scalar, so it names no tag.
fn first_element(tree: &YamlTree<'_>, index: usize) -> (first: Option<usize>)
    ensures
        first == first_element_at(*tree, index),
{
    if index >= tree.nodes.len() {
        return None;
    }
    match &tree.nodes[index].content {
        YamlContent::Sequence(items) => {
            if items.len() > 0 {
                items[0].content
            } else {
                None
            }
        },
        YamlContent::FlowSequence(entries) => {
            if entries.len() > 0 {
                match entries[0] {
                    FlowEntry::Item(n) => Some(n),
                    FlowEntry::Pair(_) => None,
                }
            } else {
                None
            }
        },
        _ => None,
    }
}

/// The first tag of operation `method` of the path item at `item`: the operation's `tags` must
/// be a sequence whose first element is a readable scalar.
pub open spec fn operation_tag(tree: YamlTree, item: usize, method: Seq<char>) -> Option<Seq<char>> {
    match entry_value(tree, item, method) {
        Some(operation) => match entry_value(tree, operation, "tags"@) {
            Some(tags) => match first_element_at(tree, tags) {
                Some(first) => scalar_text_at(tree, first),
                None => None,
            },
            None => None,
        },
        None => None,
    }
}

/// The tag of the first method, from the `k`-th on, that supplies one.
pub open spec fn first_tag_from(tree: YamlTree, item: usize, k: int) -> Option<Seq<char>>
    decreases 8 - k,
{
    if k < 0 || k >= 8 {
        None
    } else {
        match operation_tag(tree, item, tag_methods()[k]) {
            Some(tag) => Some(tag),
            None => first_tag_from(tree, item, k + 1),
        }
    }
}

/// A path item's tag key: the first tag of the first method present with one, or the empty
/// string.
pub open spec fn tag_key_of(tree: YamlTree, item: YamlItem) -> Seq<char> {
    match item.value {
        Some(value) => match first_tag_from(tree, value, 0) {
            Some(tag) => tag,
            None => Seq::empty(),
        },
        None => Seq::empty(),
    }
}

/// The first tag of operation `method` of the path item at `item`.
fn operation_tag_of<'a>(tree: &YamlTree<'a>, item: usize, method: &str) -> (tag: Option<&'a str>)
    ensures
        match tag {
            Some(t) => operation_tag(*tree, item, method@) == Some(t@),
            None => operation_tag(*tree, item, method@) is None,
        },
{
    let operation = match mapping_entry(tree, item, method) {
        Some(operation) => operation,
        None => return None,
    };
    let tags = match mapping_entry(tree, operation, "tags") {
        Some(tags) => tags,
        None => return None,
    };
    let first = match first_element(tree, tags) {
        Some(first) => first,
        None => return None,
    };
    if first >= tree.nodes.len() {
        return None;
    }
    let node = &tree.nodes[first];
    scalar_text(style(&node.content), node.text)
}

/// A path item's tag key, for `sortOpenapi.paths: "tags"`.
///
/// The first method in [`TAG_METHOD_ORDER`] present with a non-empty `tags` sequence supplies its
/// first tag. A path item with no tagged method keys on the empty string, which sorts before
/// every real tag: "untagged" is a position in the order, not a missing answer.
///
/// An unreadable tag (a multi-line or escaped scalar) reads as untagged rather than refusing the
/// mapping: ordering `paths` moves whole path items and cannot corrupt a document.
pub fn tag_key<'a>(tree: &YamlTree<'a>, item: &YamlItem) -> (tag: &'a str)
    ensures
        tag@ == tag_key_of(*tree, *item),
{
    let value = match item.value {
        Some(value) => value,
        None => {
            proof {
                reveal_strlit("");
            }
            return "";
        },
    };
    let mut k: usize = 0;
    while k < 8
        invariant
            k <= 8,
            item.value == Some(value),
            first_tag_from(*tree, value, 0) == first_tag_from(*tree, value, k as int),
        decreases 8 - k,
    {
        let method = TAG_METHOD_ORDER[k];
        assert(method@ == tag_methods()[k as int]);
        if let Some(tag) = operation_tag_of(tree, value, method) {
            return tag;
        }
        k = k + 1;
    }
    proof {
        reveal_strlit("");
    }
    ""
}

/// Whether one of a mapping's entries is keyed `name`.
pub open spec fn has_key(tree: YamlTree, mapping: YamlMapping, name: Seq<char>) -> bool {
    exists|i: int| 0 <= i < mapping.children@.len() && keyed(tree, #[trigger] mapping.children@[i], name)
}

/// Whether a document whose body is `body` is an OpenAPI document: its root is a block mapping
/// with an entry keyed `openapi`.
pub open spec fn is_openapi_document(tree: YamlTree, body: Option<usize>) -> bool {
    match body {
        Some(root) => match node_at(tree, root) {
            Some(node) => match node.content {
                YamlContent::Mapping(m) => has_key(tree, m, "openapi"@),
                _ => false,
            },
            None => false,
        },
        None => false,
    }
}

/// Whether a document's root mapping has an `openapi` key.
///
/// The content gate for the whole feature: key presence, not the truthiness of the value, so a
/// document with `openapi:` and no version is still an OpenAPI document. `swagger: "2.0"` does not
/// match, because the root table is 3.x-shaped.
pub fn document_is_openapi(tree: &YamlTree<'_>, body: Option<usize>) -> (is: bool)
    ensures
        is == is_openapi_document(*tree, body),
{
    let root = match body {
        Some(root) => root,
        None => return false,
    };
    if root >= tree.nodes.len() {
        return false;
    }
    let mapping = match &tree.nodes[root].content {
        YamlContent::Mapping(m) => m,
        _ => return false,
    };
    let mut i: usize = 0;
    while i < mapping.children.len()
        invariant
            i <= mapping.children@.len(),
            body == Some(root),
            node_at(*tree, root) matches Some(node) && node.content == YamlContent::Mapping(
                *mapping,
            ),
            forall|j: int|
                0 <= j < i ==> !keyed(*tree, #[trigger] mapping.children@[j], "openapi"@),
        decreases mapping.children@.len() - i,
    {
        if let Some(k) = mapping.children[i].key {
            if let Some(text) = key_text(tree, k) {
                if text.eq("openapi") {
                    assert(keyed(*tree, mapping.children@[i as int], "openapi"@));
                    return true;
                }
            }
        }
        i = i + 1;
    }
    false
}

/// The number of line feeds in `bytes`.
pub open spec fn count_newlines(bytes: Seq<u8>) -> nat
    decreases bytes.len(),
{
    if bytes.len() == 0 {
        0
    } else {
        count_newlines(bytes.drop_last()) + if bytes.last() == 0x0A {
            1nat
        } else {
            0nat
        }
    }
}

/// Whether the block scalar at `index` ends in a position-dependent tail: it is the stream's
/// last descendant, it is keep-chomped, or a blank line follows its body.
///
/// The printer decides the file's final newline, and whether a block scalar owns its trailing
/// line breaks, from source order; neither follows an entry to a new position.
pub open spec fn block_tail_is_positional(
    tree: YamlTree,
    index: usize,
    bytes: Seq<u8>,
    last_descendant_end: u32,
) -> bool {
    match node_at(tree, index) {
        Some(node) => {
            let (content_end, keep) = match node.content {
                YamlContent::BlockLiteral { content_end, keep } => (content_end, keep),
                YamlContent::BlockFolded { content_end, keep } => (content_end, keep),
                _ => (0u32, false),
            };
            let is_block = node.content is BlockLiteral || node.content is BlockFolded;
            let newlines = count_newlines(bytes.subrange(content_end as int, node.span_end as int));
            let body_is_empty = content_end > 0 && bytes[content_end - 1] == 0x0A;
            let blank_lines = if body_is_empty {
                newlines as int
            } else {
                newlines - 1
            };
            is_block && (node.span_end >= last_descendant_end || keep || blank_lines >= 1)
        },
        None => false,
    }
}

/// Every block scalar's tail lies within the source.
pub open spec fn blocks_within(tree: YamlTree, source_len: int) -> bool {
    forall|i: int|
        0 <= i < tree.nodes@.len() ==> match (#[trigger] tree.nodes@[i]).content {
            YamlContent::BlockLiteral { content_end, .. } => content_end <= tree.nodes@[i].span_end
                <= source_len,
            YamlContent::BlockFolded { content_end, .. } => content_end <= tree.nodes@[i].span_end
                <= source_len,
            _ => true,
        }
}

/// Whether an entry may move: a readable key that is not a merge key, and no position-dependent
/// block-scalar tail.
pub open spec fn item_may_move(
    tree: YamlTree,
    item: YamlItem,
    bytes: Seq<u8>,
    last_descendant_end: u32,
) -> bool {
    match item.key {
        Some(k) => match key_text_at(tree, k) {
            Some(text) => {
                &&& text != "<<"@
                &&& !(node_at(tree, k) matches Some(node) && node.tag matches Some(tag)
                    && is_merge_tag(tag@))
                &&& !(item.last_block matches Some(b) && block_tail_is_positional(
                    tree,
                    b,
                    bytes,
                    last_descendant_end,
                ))
            },
            None => false,
        },
        None => false,
    }
}

/// A block scalar followed by a blank line keeps its whole mapping in source order: if some
/// entry ends in a block scalar and, after the scalar's content, its span holds a blank line (two
/// line feeds, or one when the body is empty and its content ends on a line break), the mapping
/// is not reordered, whatever else holds.
pub proof fn lemma_blank_after_block_scalar_refuses(
    tree: YamlTree,
    mapping: YamlMapping,
    anchors: Seq<u32>,
    bytes: Seq<u8>,
    next_comment_start: Option<u32>,
    last_descendant_end: u32,
    i: int,
    block: usize,
    content_end: u32,
    keep: bool,
)
    requires
        0 <= i < mapping.children@.len(),
        mapping.children@[i].last_block == Some(block),
        block < tree.nodes@.len(),
        tree.nodes@[block as int].content == (YamlContent::BlockLiteral { content_end, keep })
            || tree.nodes@[block as int].content == (YamlContent::BlockFolded {
            content_end,
            keep,
        }),
        count_newlines(bytes.subrange(content_end as int, tree.nodes@[block as int].span_end as int))
            >= if content_end > 0 && bytes[content_end - 1] == 0x0A {
            1int
        } else {
            2int
        },
    ensures
        !reorder_allowed(
            tree,
            mapping,
            anchors,
            bytes,
            next_comment_start,
            last_descendant_end,
        ),
{
    assert(block_tail_is_positional(tree, block, bytes, last_descendant_end));
    assert(!item_may_move(tree, mapping.children@[i], bytes, last_descendant_end));
}

/// A keep-chomped block scalar (`|+`, `>+`) keeps its whole mapping in source order.
pub proof fn lemma_keep_chomped_block_scalar_refuses(
    tree: YamlTree,
    mapping: YamlMapping,
    anchors: Seq<u32>,
    bytes: Seq<u8>,
    next_comment_start: Option<u32>,
    last_descendant_end: u32,
    i: int,
    block: usize,
    content_end: u32,
)
    requires
        0 <= i < mapping.children@.len(),
        mapping.children@[i].last_block == Some(block),
        block < tree.nodes@.len(),
        tree.nodes@[block as int].content == (YamlContent::BlockLiteral { content_end, keep: true })
            || tree.nodes@[block as int].content == (YamlContent::BlockFolded {
            content_end,
            keep: true,
        }),
    ensures
        !reorder_allowed(
            tree,
            mapping,
            anchors,
            bytes,
            next_comment_start,
            last_descendant_end,
        ),
{
    assert(block_tail_is_positional(tree, block, bytes, last_descendant_end));
    assert(!item_may_move(tree, mapping.children@[i], bytes, last_descendant_end));
}

/// A path item keys on the first tag of its first tagged method: when every earlier method in
/// [`TAG_METHOD_ORDER`] supplies no tag and method `k` has a `tags` sequence (block or flow)
/// whose first element reads as `tag`, the item's tag key is `tag`, whatever follows it.
pub proof fn lemma_tag_key_is_first_tag(
    tree: YamlTree,
    item: YamlItem,
    k: int,
    operation: usize,
    tags: usize,
    first: usize,
    tag: Seq<char>,
)
    requires
        0 <= k < 8,
        item.value is Some,
        forall|j: int| 0 <= j < k ==> operation_tag(tree, item.value->0, #[trigger] tag_methods()[j]) is None,
        entry_value(tree, item.value->0, tag_methods()[k]) == Some(operation),
        entry_value(tree, operation, "tags"@) == Some(tags),
        tags < tree.nodes@.len(),
        match tree.nodes@[tags as int].content {
            YamlContent::Sequence(items) => items@.len() > 0 && items@[0].content == Some(first),
            YamlContent::FlowSequence(entries) => entries@.len() > 0 && entries@[0]
                == FlowEntry::Item(first),
            _ => false,
        },
        scalar_text_at(tree, first) == Some(tag),
    ensures
        tag_key_of(tree, item) == tag,
{
    let value = item.value->0;
    assert(operation_tag(tree, value, tag_methods()[k]) == Some(tag));
    lemma_first_tag_skips(tree, value, 0, k);
}

/// Methods that supply no tag are skipped: the search from `j` finds what the search from `k`
/// finds.
proof fn lemma_first_tag_skips(tree: YamlTree, value: usize, j: int, k: int)
    requires
        0 <= j <= k < 8,
        forall|m: int| 0 <= m < k ==> operation_tag(tree, value, #[trigger] tag_methods()[m]) is None,
    ensures
        first_tag_from(tree, value, j) == first_tag_from(tree, value, k),
    decreases k - j,
{
    if j < k {
        assert(operation_tag(tree, value, tag_methods()[j]) is None);
        lemma_first_tag_skips(tree, value, j + 1, k);
    }
}

/// Whether `mapping` may be reordered.
pub open spec fn reorder_allowed(
    tree: YamlTree,
    mapping: YamlMapping,
    anchors: Seq<u32>,
    bytes: Seq<u8>,
    next_comment_start: Option<u32>,
    last_descendant_end: u32,
) -> bool {
    let end = scope_end_from(bytes, mapping.span_end as int);
    let scope = if end <= u32::MAX {
        end
    } else {
        u32::MAX as int
    };
    &&& !(next_comment_start matches Some(start) && start < scope)
    &&& !exists|i: int|
        0 <= i < anchors.len() && mapping.span_start <= #[trigger] anchors[i] < mapping.span_end
    &&& forall|i: int|
        0 <= i < mapping.children@.len() ==> item_may_move(
            tree,
            #[trigger] mapping.children@[i],
            bytes,
            last_descendant_end,
        )
}

/// The number of line feeds in `bytes[from..to]`.
fn newlines_between(bytes: &[u8], from: usize, to: usize) -> (count: usize)
    requires
        from <= to <= bytes@.len(),
    ensures
        count == count_newlines(bytes@.subrange(from as int, to as int)),
{
    let mut count: usize = 0;
    let mut i: usize = from;
    while i < to
        invariant
            from <= i <= to <= bytes@.len(),
            count == count_newlines(bytes@.subrange(from as int, i as int)),
            count <= i - from,
        decreases to - i,
    {
        assert(bytes@.subrange(from as int, i + 1).drop_last() =~= bytes@.subrange(
            from as int,
            i as int,
        ));
        if bytes[i] == 0x0A {
            count = count + 1;
        }
        i = i + 1;
    }
    count
}

/// Whether the block scalar at `index` ends in a position-dependent tail.
fn has_positional_tail(
    tree: &YamlTree<'_>,
    index: usize,
    bytes: &[u8],
    last_descendant_end: u32,
) -> (positional: bool)
    requires
        blocks_within(*tree, bytes@.len() as int),
    ensures
        positional == block_tail_is_positional(*tree, index, bytes@, last_descendant_end),
{
    if index >= tree.nodes.len() {
        return false;
    }
    let node = &tree.nodes[index];
    let (content_end, keep) = match node.content {
        YamlContent::BlockLiteral { content_end, keep } => (content_end, keep),
        YamlContent::BlockFolded { content_end, keep } => (content_end, keep),
        _ => return false,
    };
    assert(tree.nodes@[index as int] == *node);
    if node.span_end >= last_descendant_end {
        return true;
    }
    let newlines = newlines_between(bytes, widen(content_end), widen(node.span_end));
    let body_is_empty = content_end > 0 && bytes[widen(content_end) - 1] == 0x0A;
    let blank_lines = if body_is_empty {
        newlines
    } else if newlines > 0 {
        newlines - 1
    } else {
        0
    };
    keep || blank_lines >= 1
}

/// The bail-out. `false` means "keep source order".
///
/// Refusing is always safe: the feature degrades to a no-op for that one mapping. Every branch
/// tests a property the printer reproduces verbatim, so a refusal survives its own output.
///
/// 1. A comment anywhere this mapping's printing can touch: the next pending comment starts
///    before the end of the trivia after the mapping ([`trivia_scope_end`]). Comments are placed
///    by a positional cursor, so moving an entry past another would emit them against the wrong
///    nodes; and a comment must never cross user content.
/// 2. An anchor or alias inside the span. YAML requires an anchor to precede its alias, so
///    reordering could emit a file that does not parse.
/// 3. A key that is not readable as scalar text.
/// 4. A merge key (`<<`, or a key tagged as merge): it interacts with its siblings by override
///    precedence, so moving it changes the merged result.
/// 5. A block-scalar tail whose output depends on its position. Conservative on purpose: it
///    refuses whenever any entry carries such a scalar, not only when that entry would move.
pub fn may_reorder(
    tree: &YamlTree<'_>,
    mapping: &YamlMapping,
    anchor_and_alias_starts: &[u32],
    source: &str,
    next_comment_start: Option<u32>,
    last_descendant_end: u32,
) -> (may: bool)
    requires
        ascending(anchor_and_alias_starts@),
        blocks_within(*tree, source.spec_bytes().len() as int),
    ensures
        may == reorder_allowed(
            *tree,
            *mapping,
            anchor_and_alias_starts@,
            source.spec_bytes(),
            next_comment_start,
            last_descendant_end,
        ),
{
    let bytes = source.as_bytes();
    let scope_end = trivia_scope_end(source, mapping.span_end);
    if let Some(start) = next_comment_start {
        if start < scope_end {
            return false;
        }
    }
    if spans_any(anchor_and_alias_starts, mapping.span_start, mapping.span_end) {
        return false;
    }
    let mut i: usize = 0;
    while i < mapping.children.len()
        invariant
            i <= mapping.children@.len(),
            bytes@ == source.spec_bytes(),
            blocks_within(*tree, bytes@.len() as int),
            forall|j: int|
                0 <= j < i ==> item_may_move(
                    *tree,
                    #[trigger] mapping.children@[j],
                    bytes@,
                    last_descendant_end,
                ),
        decreases mapping.children@.len() - i,
    {
        let item = &mapping.children[i];
        let key = match item.key {
            Some(key) => key,
            None => return false,
        };
        let text = match key_text(tree, key) {
            Some(text) => text,
            None => return false,
        };
        if text.eq("<<") {
            return false;
        }
        if let Some(tag) = tree.nodes[key].tag {
            if tag_is_merge(tag) {
                return false;
            }
        }
        if let Some(block) = item.last_block {
            if has_positional_tail(tree, block, bytes, last_descendant_end) {
                return false;
            }
        }
        i = i + 1;
    }
    true
}

/// The strings a YAML mapping is ordered by: each entry's tag key under [`MappingOrder::Tags`],
/// its key's resolved text otherwise.
pub open spec fn order_strings(tree: YamlTree, mapping: YamlMapping, ordering: MappingOrder) -> Seq<
    Seq<char>,
> {
    Seq::new(
        mapping.children@.len(),
        |i: int|
            match ordering {
                MappingOrder::Tags => tag_key_of(tree, mapping.children@[i]),
                _ => match mapping.children@[i].key {
                    Some(k) => match key_text_at(tree, k) {
                        Some(text) => text,
                        None => Seq::empty(),
                    },
                    None => Seq::empty(),
                },
            },
    )
}

/// Whether sorting `0..n` by `rel` puts some other entry first: a sorted permutation starts
/// elsewhere than at the first entry.
pub open spec fn moves_first(n: int, rel: spec_fn(u32, u32) -> Order) -> bool {
    exists|p: Seq<u32>| is_permutation(p, n) && sorted_by(p, rel) && #[trigger] p[0] != 0
}

/// Resolve the permutation for `mapping`, or `None` to keep source order.
///
/// Cheapest gates first: the option, the content gate (`is_openapi_document`), and mappings with
/// fewer than two entries. Then the mapping's ordering ([`Session::ordering`]) and the bail-out
/// ([`may_reorder`]); then each entry's string is pushed in source order (its key text, or under
/// `paths: "tags"` its path item's tag key) and the session's permutation decides.
///
/// One refusal comes after the permutation. A comment run directly above a block mapping is,
/// positionally, its first entry's leading comment (`comment_leads_first_entry`: the last comment
/// the printer consumed sits on its own line and only trivia separates it from the mapping).
/// Moving a different entry into first place would carry that comment across user content, so
/// then the frame is dropped and source order kept. An entry swap further down leaves the
/// comment describing the entry it always did.
///
/// On `Some`, the blank-line snapshot has been taken in source order before anything moved: no
/// blank before the first entry, then `gaps[i]` (whether a blank line separates entries `i` and
/// `i + 1` in the source) before entry `i + 1`. The caller must pair a `Some` result with
/// [`finish`].
pub fn begin_mapping<'a>(
    tree: &YamlTree<'a>,
    mapping: &YamlMapping,
    sort: &SortOpenapi,
    is_openapi_document: bool,
    source: &str,
    next_comment_start: Option<u32>,
    last_descendant_end: u32,
    comment_leads_first_entry: bool,
    gaps: &[bool],
    state: &mut OpenapiState<'a>,
) -> (frame: Option<Frame>)
    requires
        old(state).session.keys_view().len() == 0,
        old(state).session.blanks_view().len() == old(state).session.permutations_view().len(),
        ascending(old(state).anchor_and_alias_starts@),
        blocks_within(*tree, source.spec_bytes().len() as int),
        mapping.children@.len() >= 2 ==> gaps@.len() + 1 == mapping.children@.len(),
        forall|ordering: MappingOrder|
            chosen(Some(ordering), *sort, old(state).session.ancestry_view(), is_openapi_document)
                ==> orderable(ordering, #[trigger] order_strings(*tree, *mapping, ordering)),
    ensures
        final(state).session.keys_view().len() == 0,
        final(state).session.ancestry_view() == old(state).session.ancestry_view(),
        final(state).anchor_and_alias_starts == old(state).anchor_and_alias_starts,
        ({
            let ancestry = old(state).session.ancestry_view();
            let n = mapping.children@.len() as int;
            let gated = sort.enabled && is_openapi_document && n >= 2 && reorder_allowed(
                *tree,
                *mapping,
                old(state).anchor_and_alias_starts@,
                source.spec_bytes(),
                next_comment_start,
                last_descendant_end,
            );
            let in_order = forall|o: MappingOrder|
                chosen(Some(o), *sort, ancestry, is_openapi_document) ==> identity_sorted(
                    n,
                    order_relation(o, #[trigger] order_strings(*tree, *mapping, o)),
                );
            &&& (!gated || in_order) ==> frame is None
            &&& frame is None ==> (!gated || in_order || (comment_leads_first_entry && exists|
                o: MappingOrder,
            |
                #[trigger] chosen(Some(o), *sort, ancestry, is_openapi_document) && moves_first(
                    n,
                    order_relation(o, order_strings(*tree, *mapping, o)),
                )))
            &&& frame is None ==> final(state).session.permutations_view() == old(
                state,
            ).session.permutations_view() && final(state).session.blanks_view() == old(
                state,
            ).session.blanks_view()
            &&& frame matches Some(f) ==> {
                &&& exists|o: MappingOrder|
                    #[trigger] chosen(Some(o), *sort, ancestry, is_openapi_document) && opened(
                        old(state).session.permutations_view(),
                        final(state).session.permutations_view(),
                        f,
                        order_relation(o, order_strings(*tree, *mapping, o)),
                        n,
                    )
                &&& comment_leads_first_entry ==> final(state).session.permutations_view()[f.begin()]
                    == 0
                &&& final(state).session.blanks_view() == old(state).session.blanks_view()
                    + seq![false] + gaps@
                &&& final(state).session.frame_valid(&f)
            }
        }),
{
    if !sort.enabled || !is_openapi_document {
        return None;
    }
    if mapping.children.len() < 2 {
        return None;
    }
    let ordering = match state.session.ordering(sort, is_openapi_document) {
        Some(ordering) => ordering,
        None => return None,
    };
    proof {
        assert forall|o: MappingOrder|
            chosen(Some(o), *sort, old(state).session.ancestry_view(), is_openapi_document) implies
            #[trigger] order_relation(o, order_strings(*tree, *mapping, o)) == order_relation(
            ordering,
            order_strings(*tree, *mapping, ordering),
        ) by {
            lemma_chosen_unique(
                o,
                ordering,
                *sort,
                old(state).session.ancestry_view(),
                is_openapi_document,
                order_strings(*tree, *mapping, o),
            );
            if o is Tags {
            } else {
                assert(order_strings(*tree, *mapping, o) == order_strings(*tree, *mapping, ordering));
            }
        }
    }
    if !may_reorder(
        tree,
        mapping,
        state.anchor_and_alias_starts,
        source,
        next_comment_start,
        last_descendant_end,
    ) {
        return None;
    }
    let ghost strings = order_strings(*tree, *mapping, ordering);
    let ghost anchors = state.anchor_and_alias_starts@;
    let mut i: usize = 0;
    while i < mapping.children.len()
        invariant
            i <= mapping.children@.len(),
            reorder_allowed(
                *tree,
                *mapping,
                anchors,
                source.spec_bytes(),
                next_comment_start,
                last_descendant_end,
            ),
            state.session.keys_view() =~= strings.take(i as int),
            strings == order_strings(*tree, *mapping, ordering),
            state.session.ancestry_view() == old(state).session.ancestry_view(),
            state.session.blanks_view() == old(state).session.blanks_view(),
            state.session.permutations_view() == old(state).session.permutations_view(),
            state.anchor_and_alias_starts == old(state).anchor_and_alias_starts,
        decreases mapping.children@.len() - i,
    {
        let item = &mapping.children[i];
        assert(item_may_move(*tree, mapping.children@[i as int], source.spec_bytes(), last_descendant_end));
        let text = match ordering {
            MappingOrder::Tags => tag_key(tree, item),
            _ => {
                let key = match item.key {
                    Some(key) => key,
                    None => {
                        assert(false);
                        0
                    },
                };
                match key_text(tree, key) {
                    Some(text) => text,
                    None => {
                        assert(false);
                        ""
                    },
                }
            },
        };
        state.session.push_key(text);
        assert(strings.take(i + 1) =~= strings.take(i as int).push(strings[i as int]));
        i = i + 1;
    }
    assert(strings.take(strings.len() as int) =~= strings);
    assert(chosen(Some(ordering), *sort, old(state).session.ancestry_view(), is_openapi_document));
    let frame = match state.session.permute(ordering) {
        Some(frame) => frame,
        None => return None,
    };
    let ghost n = mapping.children@.len() as int;
    let first = state.session.source_index(&frame, 0);
    if first != 0 && comment_leads_first_entry {
        proof {
            let perms = state.session.permutations_view();
            let p = perms.subrange(frame.begin(), perms.len() as int);
            assert(p[0] == first);
            assert(moves_first(n, order_relation(ordering, strings)));
        }
        state.session.end(frame);
        return None;
    }
    let ghost before_blanks = state.session.blanks_view();
    let ghost after_perms = state.session.permutations_view();
    state.session.push_blank(&frame, false);
    let mut j: usize = 0;
    while j < gaps.len()
        invariant
            j <= gaps@.len(),
            gaps@.len() + 1 == frame.count(),
            state.session.blanks_view() == before_blanks + seq![false] + gaps@.take(j as int),
            state.session.blanks_view().len() == frame.begin() + 1 + j,
            state.session.ancestry_view() == old(state).session.ancestry_view(),
            state.session.keys_view().len() == 0,
            state.session.permutations_view() == after_perms,
            state.anchor_and_alias_starts == old(state).anchor_and_alias_starts,
        decreases gaps@.len() - j,
    {
        state.session.push_blank(&frame, gaps[j]);
        assert(gaps@.take(j + 1) =~= gaps@.take(j as int).push(gaps@[j as int]));
        j = j + 1;
    }
    assert(gaps@.take(gaps@.len() as int) =~= gaps@);
    Some(frame)
}

/// An optional node index as a sequence of zero or one indices.
pub open spec fn opt_index(index: Option<usize>) -> Seq<usize> {
    match index {
        Some(n) => seq![n],
        None => Seq::empty(),
    }
}

/// The nodes an entry refers to: its key, then its value.
pub open spec fn item_children(item: YamlItem) -> Seq<usize> {
    opt_index(item.key) + opt_index(item.value)
}

/// The nodes a run of entries refers to, in order.
pub open spec fn items_children(items: Seq<YamlItem>) -> Seq<usize>
    decreases items.len(),
{
    if items.len() == 0 {
        Seq::empty()
    } else {
        items_children(items.drop_last()) + item_children(items.last())
    }
}

/// The nodes a block sequence's elements are, in order.
pub open spec fn elements_children(elements: Seq<SequenceItem>) -> Seq<usize>
    decreases elements.len(),
{
    if elements.len() == 0 {
        Seq::empty()
    } else {
        elements_children(elements.drop_last()) + opt_index(elements.last().content)
    }
}

/// The nodes a flow sequence's entries refer to, in order: a node, or a pair's key and value.
pub open spec fn entries_children(entries: Seq<FlowEntry>) -> Seq<usize>
    decreases entries.len(),
{
    if entries.len() == 0 {
        Seq::empty()
    } else {
        entries_children(entries.drop_last()) + match entries.last() {
            FlowEntry::Item(n) => seq![n],
            FlowEntry::Pair(item) => item_children(item),
        }
    }
}

/// The nodes a node's content refers to, in source order.
pub open spec fn children_of(content: YamlContent) -> Seq<usize> {
    match content {
        YamlContent::Mapping(m) => items_children(m.children@),
        YamlContent::FlowMapping(m) => items_children(m.children@),
        YamlContent::Sequence(elements) => elements_children(elements@),
        YamlContent::FlowSequence(entries) => entries_children(entries@),
        _ => Seq::empty(),
    }
}

/// Whether `index` is a node after `parent`.
pub open spec fn follows(parent: int, index: usize, len: int) -> bool {
    parent < index < len
}

/// Whether an entry's key and value are nodes after `parent`.
pub open spec fn item_follows(parent: int, item: YamlItem, len: int) -> bool {
    &&& item.key matches Some(k) ==> follows(parent, k, len)
    &&& item.value matches Some(v) ==> follows(parent, v, len)
}

/// Every node a collection refers to comes after it, and is in the tree.
pub open spec fn children_follow(tree: YamlTree) -> bool {
    let len = tree.nodes@.len() as int;
    forall|i: int|
        0 <= i < len ==> match (#[trigger] tree.nodes@[i]).content {
            YamlContent::Mapping(m) => forall|j: int|
                0 <= j < m.children@.len() ==> item_follows(i, #[trigger] m.children@[j], len),
            YamlContent::FlowMapping(m) => forall|j: int|
                0 <= j < m.children@.len() ==> item_follows(i, #[trigger] m.children@[j], len),
            YamlContent::Sequence(elements) => forall|j: int|
                0 <= j < elements@.len() ==> ((#[trigger] elements@[j]).content matches Some(n) ==> follows(
                    i,
                    n,
                    len,
                )),
            YamlContent::FlowSequence(entries) => forall|j: int|
                0 <= j < entries@.len() ==> match #[trigger] entries@[j] {
                    FlowEntry::Item(n) => follows(i, n, len),
                    FlowEntry::Pair(item) => item_follows(i, item, len),
                },
            _ => true,
        }
}

/// The anchor and alias starts of the node at `index` and everything under it, in walk order:
/// the node's own anchor, then an alias's start, then each child's, depth first.
pub open spec fn node_starts(tree: YamlTree, index: int) -> Seq<u32>
    decreases tree.nodes@.len() - index, 1int, 0int,
{
    if 0 <= index < tree.nodes@.len() {
        let node = tree.nodes@[index];
        let own = match node.anchor {
            Some(a) => seq![a],
            None => Seq::empty(),
        };
        let alias = match node.content {
            YamlContent::Alias { start } => seq![start],
            _ => Seq::empty(),
        };
        own + alias + children_starts(tree, index, children_of(node.content))
    } else {
        Seq::empty()
    }
}

/// The anchor and alias starts under each of `children`, nodes of the node at `parent`.
pub open spec fn children_starts(tree: YamlTree, parent: int, children: Seq<usize>) -> Seq<u32>
    decreases tree.nodes@.len() - parent, 0int, children.len(),
{
    if children.len() == 0 {
        Seq::empty()
    } else {
        let child = children.last();
        children_starts(tree, parent, children.drop_last()) + if follows(
            parent,
            child,
            tree.nodes@.len() as int,
        ) {
            node_starts(tree, child as int)
        } else {
            Seq::empty()
        }
    }
}

/// The anchor and alias starts of every document body of a stream, in order.
pub open spec fn stream_starts(tree: YamlTree, bodies: Seq<Option<usize>>) -> Seq<u32>
    decreases bodies.len(),
{
    if bodies.len() == 0 {
        Seq::empty()
    } else {
        stream_starts(tree, bodies.drop_last()) + match bodies.last() {
            Some(n) => node_starts(tree, n as int),
            None => Seq::empty(),
        }
    }
}

/// The starts under a run of children split in two are those under each part.
proof fn lemma_children_starts_append(tree: YamlTree, parent: int, a: Seq<usize>, b: Seq<usize>)
    ensures
        children_starts(tree, parent, a + b) == children_starts(tree, parent, a)
            + children_starts(tree, parent, b),
    decreases b.len(),
{
    if b.len() == 0 {
        assert(a + b =~= a);
        assert(children_starts(tree, parent, a) + Seq::<u32>::empty() =~= children_starts(
            tree,
            parent,
            a,
        ));
    } else {
        assert((a + b).drop_last() =~= a + b.drop_last());
        assert((a + b).last() == b.last());
        lemma_children_starts_append(tree, parent, a, b.drop_last());
        let tail = children_starts(tree, parent, (a + b).drop_last());
        assert(children_starts(tree, parent, a + b) =~= children_starts(tree, parent, a) + (
        children_starts(tree, parent, b.drop_last()) + if follows(
            parent,
            b.last(),
            tree.nodes@.len() as int,
        ) {
            node_starts(tree, b.last() as int)
        } else {
            Seq::empty()
        }));
    }
}

/// The starts under a single child.
proof fn lemma_children_starts_one(tree: YamlTree, parent: int, child: usize)
    requires
        follows(parent, child, tree.nodes@.len() as int),
    ensures
        children_starts(tree, parent, seq![child]) == node_starts(tree, child as int),
{
    assert(seq![child].drop_last() =~= Seq::<usize>::empty());
    assert(seq![child].last() == child);
    assert(children_starts(tree, parent, Seq::<usize>::empty()) =~= Seq::<u32>::empty());
    assert(Seq::<u32>::empty() + node_starts(tree, child as int) =~= node_starts(
        tree,
        child as int,
    ));
}

/// Push the anchor and alias starts of the node at `index` and everything under it.
fn collect_node(tree: &YamlTree<'_>, index: usize, into: &mut Vec<u32>)
    requires
        children_follow(*tree),
        index < tree.nodes@.len(),
    ensures
        final(into)@ == old(into)@ + node_starts(*tree, index as int),
    decreases tree.nodes@.len() - index, 1int, 0int,
{
    let ghost len = tree.nodes@.len() as int;
    let ghost before = into@;
    let node = &tree.nodes[index];
    assert(tree.nodes@[index as int] == *node);
    if let Some(anchor) = node.anchor {
        into.push(anchor);
    }
    if let YamlContent::Alias { start } = node.content {
        into.push(start);
    }
    let ghost prefix = into@;
    assert(prefix =~= before + (match node.anchor {
        Some(a) => seq![a],
        None => Seq::<u32>::empty(),
    }) + (match node.content {
        YamlContent::Alias { start } => seq![start],
        _ => Seq::<u32>::empty(),
    }));
    match &node.content {
        YamlContent::Mapping(m) | YamlContent::FlowMapping(m) => {
            let mut i: usize = 0;
            assert(m.children@.take(0) =~= Seq::<YamlItem>::empty());
            while i < m.children.len()
                invariant
                    children_follow(*tree),
                    len == tree.nodes@.len(),
                    index < len,
                    i <= m.children@.len(),
                    forall|j: int|
                        0 <= j < m.children@.len() ==> item_follows(
                            index as int,
                            #[trigger] m.children@[j],
                            len,
                        ),
                    into@ == prefix + children_starts(
                        *tree,
                        index as int,
                        items_children(m.children@.take(i as int)),
                    ),
                decreases m.children@.len() - i,
            {
                let ghost mid = into@;
                collect_item(tree, index, &m.children[i], into);
                proof {
                    let items = m.children@;
                    assert(items.take(i + 1).drop_last() =~= items.take(i as int));
                    assert(items.take(i + 1).last() == items[i as int]);
                    lemma_children_starts_append(
                        *tree,
                        index as int,
                        items_children(items.take(i as int)),
                        item_children(items[i as int]),
                    );
                }
                i = i + 1;
            }
            assert(m.children@.take(m.children@.len() as int) =~= m.children@);
        },
        YamlContent::Sequence(elements) => {
            let mut i: usize = 0;
            assert(elements@.take(0) =~= Seq::<SequenceItem>::empty());
            while i < elements.len()
                invariant
                    children_follow(*tree),
                    len == tree.nodes@.len(),
                    index < len,
                    i <= elements@.len(),
                    forall|j: int|
                        0 <= j < elements@.len() ==> ((#[trigger] elements@[j]).content matches Some(
                            n,
                        ) ==> follows(index as int, n, len)),
                    into@ == prefix + children_starts(
                        *tree,
                        index as int,
                        elements_children(elements@.take(i as int)),
                    ),
                decreases elements@.len() - i,
            {
                let element = elements[i].content;
                if let Some(n) = element {
                    collect_node(tree, n, into);
                    proof {
                        lemma_children_starts_one(*tree, index as int, n);
                    }
                }
                proof {
                    let es = elements@;
                    assert(es.take(i + 1).drop_last() =~= es.take(i as int));
                    assert(es.take(i + 1).last() == es[i as int]);
                    lemma_children_starts_append(
                        *tree,
                        index as int,
                        elements_children(es.take(i as int)),
                        opt_index(es[i as int].content),
                    );
                    if es[i as int].content is None {
                        assert(children_starts(*tree, index as int, Seq::<usize>::empty())
                            =~= Seq::<u32>::empty());
                    }
                }
                i = i + 1;
            }
            assert(elements@.take(elements@.len() as int) =~= elements@);
        },
        YamlContent::FlowSequence(entries) => {
            let mut i: usize = 0;
            assert(entries@.take(0) =~= Seq::<FlowEntry>::empty());
            while i < entries.len()
                invariant
                    children_follow(*tree),
                    len == tree.nodes@.len(),
                    index < len,
                    i <= entries@.len(),
                    forall|j: int|
                        0 <= j < entries@.len() ==> match #[trigger] entries@[j] {
                            FlowEntry::Item(n) => follows(index as int, n, len),
                            FlowEntry::Pair(item) => item_follows(index as int, item, len),
                        },
                    into@ == prefix + children_starts(
                        *tree,
                        index as int,
                        entries_children(entries@.take(i as int)),
                    ),
                decreases entries@.len() - i,
            {
                let ghost part = match entries@[i as int] {
                    FlowEntry::Item(n) => seq![n],
                    FlowEntry::Pair(item) => item_children(item),
                };
                match &entries[i] {
                    FlowEntry::Item(n) => {
                        collect_node(tree, *n, into);
                        proof {
                            lemma_children_starts_one(*tree, index as int, *n);
                        }
                    },
                    FlowEntry::Pair(item) => {
                        collect_item(tree, index, item, into);
                    },
                }
                proof {
                    let es = entries@;
                    assert(es.take(i + 1).drop_last() =~= es.take(i as int));
                    assert(es.take(i + 1).last() == es[i as int]);
                    lemma_children_starts_append(
                        *tree,
                        index as int,
                        entries_children(es.take(i as int)),
                        part,
                    );
                }
                i = i + 1;
            }
            assert(entries@.take(entries@.len() as int) =~= entries@);
        },
        _ => {
            assert(children_starts(*tree, index as int, Seq::<usize>::empty())
                =~= Seq::<u32>::empty());
        },
    }
}

/// Push the anchor and alias starts under an entry of the node at `parent`: its key's and its
/// value's. An anchor can sit on the key (`&k key: v`), which a value-only walk would miss.
fn collect_item(tree: &YamlTree<'_>, parent: usize, item: &YamlItem, into: &mut Vec<u32>)
    requires
        children_follow(*tree),
        parent < tree.nodes@.len(),
        item_follows(parent as int, *item, tree.nodes@.len() as int),
    ensures
        final(into)@ == old(into)@ + children_starts(*tree, parent as int, item_children(*item)),
    decreases tree.nodes@.len() - parent, 0int, 2int,
{
    let ghost before = into@;
    if let Some(key) = item.key {
        collect_node(tree, key, into);
        proof {
            lemma_children_starts_one(*tree, parent as int, key);
        }
    }
    let ghost middle = into@;
    if let Some(value) = item.value {
        collect_node(tree, value, into);
        proof {
            lemma_children_starts_one(*tree, parent as int, value);
        }
    }
    proof {
        lemma_children_starts_append(
            *tree,
            parent as int,
            opt_index(item.key),
            opt_index(item.value),
        );
        assert(children_starts(*tree, parent as int, Seq::<usize>::empty()) =~= Seq::<u32>::empty());
    }
}

/// Sort offsets ascending, keeping every one.
fn sort_offsets(offsets: &mut Vec<u32>)
    ensures
        ascending(final(offsets)@),
        final(offsets)@.to_multiset() == old(offsets)@.to_multiset(),
{
    broadcast use vstd::seq_lib::group_to_multiset_ensures;

    let mut sorted: Vec<u32> = Vec::new();
    let mut i: usize = 0;
    assert(offsets@.take(0) =~= Seq::<u32>::empty());
    while i < offsets.len()
        invariant
            i <= offsets@.len(),
            ascending(sorted@),
            sorted@.to_multiset() == offsets@.take(i as int).to_multiset(),
        decreases offsets@.len() - i,
    {
        let x = offsets[i];
        // The insertion point: after every offset not above `x`.
        let mut low: usize = 0;
        let mut high: usize = sorted.len();
        while low < high
            invariant
                low <= high <= sorted@.len(),
                ascending(sorted@),
                forall|k: int| 0 <= k < low ==> sorted@[k] <= x,
                forall|k: int| high <= k < sorted@.len() ==> sorted@[k] > x,
            decreases high - low,
        {
            let middle = low + (high - low) / 2;
            if sorted[middle] <= x {
                low = middle + 1;
            } else {
                high = middle;
            }
        }
        let ghost old_sorted = sorted@;
        sorted.insert(low, x);
        proof {
            vstd::seq_lib::to_multiset_insert(old_sorted, low as int, x);
            assert(offsets@.take(i + 1) =~= offsets@.take(i as int).push(x));
            vstd::seq_lib::to_multiset_build(offsets@.take(i as int), x);
            assert(sorted@ == old_sorted.insert(low as int, x));
            assert forall|a: int, b: int| 0 <= a < b < sorted@.len() implies sorted@[a]
                <= sorted@[b] by {
                if b < low {
                } else if a > low {
                    assert(sorted@[a] == old_sorted[a - 1]);
                    assert(sorted@[b] == old_sorted[b - 1]);
                } else if a == low {
                    assert(sorted@[b] == old_sorted[b - 1]);
                } else if b == low {
                } else {
                    assert(sorted@[b] == old_sorted[b - 1]);
                    assert(old_sorted[a] <= x);
                }
            }
        }
        i = i + 1;
    }
    assert(offsets@.take(offsets@.len() as int) =~= offsets@);
    *offsets = sorted;
}

/// Push the start offsets of every anchor and alias in the stream onto `into`, then sort it
/// ascending. `bodies` holds each document's body node, if the document has one.
///
/// Computed once per run: asking per mapping would re-walk each subtree at every enclosing level.
/// Because spans nest, "an anchor starts inside this mapping's span" is exactly "an anchor applies
/// somewhere inside this mapping". The walk already visits offsets in source order; the sort keeps
/// the binary search's precondition explicit.
pub fn anchor_and_alias_starts(tree: &YamlTree<'_>, bodies: &[Option<usize>], into: &mut Vec<u32>)
    requires
        children_follow(*tree),
    ensures
        ascending(final(into)@),
        final(into)@.to_multiset() == (old(into)@ + stream_starts(*tree, bodies@)).to_multiset(),
{
    let ghost before = into@;
    let mut i: usize = 0;
    assert(bodies@.take(0) =~= Seq::<Option<usize>>::empty());
    assert(before + Seq::<u32>::empty() =~= before);
    while i < bodies.len()
        invariant
            children_follow(*tree),
            i <= bodies@.len(),
            into@ == before + stream_starts(*tree, bodies@.take(i as int)),
        decreases bodies@.len() - i,
    {
        let ghost mid = into@;
        if let Some(body) = bodies[i] {
            if body < tree.nodes.len() {
                collect_node(tree, body, into);
            }
        }
        proof {
            let bs = bodies@;
            assert(bs.take(i + 1).drop_last() =~= bs.take(i as int));
            assert(bs.take(i + 1).last() == bs[i as int]);
            if let Some(body) = bs[i as int] {
                if body >= tree.nodes@.len() {
                    assert(node_starts(*tree, body as int) =~= Seq::<u32>::empty());
                }
            }
            assert(into@ =~= before + stream_starts(*tree, bs.take(i + 1)));
        }
        i = i + 1;
    }
    assert(bodies@.take(bodies@.len() as int) =~= bodies@);
    sort_offsets(into);
}

/// Per-run state for OpenAPI ordering: the shared [`Session`] plus the one fact only YAML needs,
/// where anchors and aliases start.
///
/// No borrow of this state is held across a call back into the printer: every read takes a fresh
/// short-lived borrow, so a nested mapping can always take its own.
#[derive(Debug)]
pub struct OpenapiState<'a> {
    /// The shared session.
    pub session: Session<'a>,
    /// Start offsets of every anchor and alias in the stream, ascending. Computed once.
    pub anchor_and_alias_starts: &'a [u32],
}

impl<'a> OpenapiState<'a> {
    /// A fresh state over the stream's anchor and alias starts.
    pub fn new(anchor_and_alias_starts: &'a [u32]) -> (state: Self)
        ensures
            state.anchor_and_alias_starts == anchor_and_alias_starts,
            state.session.ancestry_view().len() == 0,
            state.session.keys_view().len() == 0,
            state.session.permutations_view().len() == 0,
            state.session.blanks_view().len() == 0,
    {
        OpenapiState { session: Session::new(), anchor_and_alias_starts }
    }
}

/// The source index of the item to print at output `position`.
pub fn source_index(frame: &Frame, position: usize, state: &OpenapiState<'_>) -> (index: usize)
    requires
        position < frame.count(),
        0 <= frame.begin(),
        frame.begin() + frame.count() <= state.session.permutations_view().len(),
    ensures
        index == state.session.permutations_view()[frame.begin() + position],
{
    state.session.source_index(frame, position)
}

/// Whether a blank line preceded the item now at `position`, as measured in source order before
/// anything moved. A blank line travels with its item.
pub fn blank_before(frame: &Frame, position: usize, state: &OpenapiState<'_>) -> (blank: bool)
    requires
        state.session.frame_valid(frame),
        position < frame.count(),
        state.session.blanks_view().len() == frame.begin() + frame.count(),
    ensures
        blank == state.session.blanks_view()[frame.begin()
            + state.session.permutations_view()[frame.begin() + position]],
{
    state.session.blank_before(frame, position)
}

/// Drop the frame. Must be called on every path out of the mapping that opened it.
pub fn finish(frame: Frame, state: &mut OpenapiState<'_>)
    requires
        old(state).session.permutations_view().len() == frame.begin() + frame.count(),
    ensures
        final(state).session.permutations_view() == old(state).session.permutations_view().take(
            frame.begin(),
        ),
        final(state).session.blanks_view() == if old(state).session.blanks_view().len()
            > frame.begin() {
            old(state).session.blanks_view().take(frame.begin())
        } else {
            old(state).session.blanks_view()
        },
        final(state).session.ancestry_view() == old(state).session.ancestry_view(),
        final(state).session.keys_view() == old(state).session.keys_view(),
        final(state).anchor_and_alias_starts == old(state).anchor_and_alias_starts,
{
    state.session.end(frame);
}

/// Runs `write` with `step` appended to the ancestry, returns what it returns, and then drops
/// the step again, leaving everything else as `write` left it.
///
/// Push and pop live in one function so no print site can leak a step. `write` must leave the
/// ancestry as deep as it found it.
pub fn with_step<'a, R, F: FnOnce(&mut OpenapiState<'a>) -> R>(
    step: Step<'a>,
    state: &mut OpenapiState<'a>,
    write: F,
) -> (result: R)
    requires
        old(state).session.ancestry_view().len() < usize::MAX,
        forall|s: &mut OpenapiState<'a>| write.requires((s,)),
        forall|s: &mut OpenapiState<'a>, r: R|
            write.ensures((s,), r) ==> final(s).session.ancestry_view().len()
                == s.session.ancestry_view().len(),
    ensures
        final(state).session.ancestry_view().len() == old(state).session.ancestry_view().len(),
        exists|s: &mut OpenapiState<'a>|
            {
                &&& s.session.ancestry_view() == old(state).session.ancestry_view().push(step)
                &&& s.session.keys_view() == old(state).session.keys_view()
                &&& s.session.permutations_view() == old(state).session.permutations_view()
                &&& s.session.blanks_view() == old(state).session.blanks_view()
                &&& s.anchor_and_alias_starts == old(state).anchor_and_alias_starts
                &&& #[trigger] write.ensures((s,), result)
                &&& final(state).session.ancestry_view() == final(s).session.ancestry_view().drop_last()
                &&& final(state).session.keys_view() == final(s).session.keys_view()
                &&& final(state).session.permutations_view() == final(s).session.permutations_view()
                &&& final(state).session.blanks_view() == final(s).session.blanks_view()
                &&& final(state).anchor_and_alias_starts == final(s).anchor_and_alias_starts
            },
{
    let depth = state.session.push_step(step);
    let result = write(state);
    assert(exists|s: &mut OpenapiState<'a>| #[trigger] write.ensures((s,), result));
    state.session.pop_step(depth);
    result
}

} // verus!

//! OpenAPI-aware key ordering for JSON objects: the printer's side of the policy.
//!
//! The ordering policy and every per-run buffer live in [`Session`], shared with the YAML side.
//! This module decides when reordering an object is safe, and which strings it is ordered by.
//!
//! The printer hands over the document as a [`JsonTree`]: every object and array as a node, each
//! object member with its key identity and the node of its value. Gated on the root value being an
//! object with an `openapi` member; a document without one is left exactly as it is.
//!
//! JSON has no anchors, no aliases and no merge keys, so three of the YAML side's refusals cannot
//! arise here; one is JSON-only: a spread member (`...x`), whose position changes what the object
//! evaluates to. Comments are refused in full, since the lenient parse accepts them.

use vstd::prelude::*;

use crate::config::SortOpenapi;
use crate::paths::TAG_METHOD_ORDER;
use crate::permute::identity_sorted;
use crate::rule::Step;
use crate::session::{
    Frame, MappingOrder, Session, chosen, lemma_chosen_unique, opened, order_relation, orderable,
};

verus! {

/// An object property's key, as the parser cooked it.
#[derive(Debug, Clone, Copy, PartialEq, Eq)]
pub enum JsonKey<'a> {
    /// A string literal key, by its value (`"openapi"` and `'openapi'` alike).
    String(&'a str),
    /// A bare identifier key (JSON5), by its name.
    Identifier(&'a str),
    /// A numeric key: the text the printer emits for it, and whether that text names the same
    /// property the literal does (`1.0` prints as `1.0` but names `1`, so it does not).
    Numeric { printed: &'a str, round_trips: bool },
    /// Any other key, such as a computed expression, whose text cannot be known.
    Other,
}

/// An object property: its key, and the node of its value.
#[derive(Debug, Clone, Copy, PartialEq, Eq)]
pub struct JsonProperty<'a> {
    /// The key.
    pub key: JsonKey<'a>,
    /// The node index of the value in its [`JsonTree`].
    pub value: usize,
}

/// An object member: a property, or a spread (`...x`).
#[derive(Debug, Clone, Copy, PartialEq, Eq)]
pub enum JsonMember<'a> {
    /// `key: value`.
    Property(JsonProperty<'a>),
    /// `...x`, whose position changes what the object evaluates to.
    Spread,
}

/// An object: its members in source order, and the source offset where it ends.
#[derive(Debug, Clone, PartialEq, Eq)]
pub struct JsonObject<'a> {
    /// The members, in source order.
    pub properties: Vec<JsonMember<'a>>,
    /// The end offset of the object's span, just past its closing brace.
    pub span_end: u32,
}

/// One value of a document, as far as a path item's tags are read from it.
#[derive(Debug, Clone, PartialEq, Eq)]
pub enum JsonNode<'a> {
    /// An object.
    Object(JsonObject<'a>),
    /// An array, by the nodes of its elements; `None` for an element that is not an expression
    /// (a hole or a spread).
    Array(Vec<Option<usize>>),
    /// A string literal, by its value.
    String(&'a str),
    /// Any other value.
    Other,
}

/// A document's values, each node referring to its children by index.
#[derive(Debug, Clone, PartialEq, Eq)]
pub struct JsonTree<'a> {
    /// The nodes.
    pub nodes: Vec<JsonNode<'a>>,
}

/// A key's identity: its text, or `None` when it has none this policy can use.
pub open spec fn key_identity(key: JsonKey) -> Option<Seq<char>> {
    match key {
        JsonKey::String(text) => Some(text@),
        JsonKey::Identifier(name) => Some(name@),
        JsonKey::Numeric { printed, round_trips } => if round_trips {
            Some(printed@)
        } else {
            None
        },
        JsonKey::Other => None,
    }
}

/// A property key's identity: the value a consumer sees, not the source spelling.
///
/// `None` means the key has no identity this module can use, and the object must not be
/// reordered. A numeric key is read through the printer's own text, since the printer may quote it;
/// but that text is its identity only when it round-trips, or `{1.0: x, "1": y}` would order one
/// property written twice by two different texts.
pub fn key_text<'a>(key: &JsonKey<'a>) -> (text: Option<&'a str>)
    ensures
        match text {
            Some(t) => key_identity(*key) == Some(t@),
            None => key_identity(*key) is None,
        },
{
    match key {
        JsonKey::String(text) => Some(*text),
        JsonKey::Identifier(name) => Some(*name),
        JsonKey::Numeric { printed, round_trips } => {
            if *round_trips {
                Some(*printed)
            } else {
                None
            }
        },
        JsonKey::Other => None,
    }
}

/// The ancestry step for an object property's value.
///
/// A property whose key is not readable contributes a step that can match no table name, so the
/// ancestry stays the right length and every later absolute index keeps its meaning.
pub fn value_step<'a>(property: &JsonProperty<'a>) -> (step: Step<'a>)
    ensures
        step matches Step::Key(k) && k@ == match key_identity(property.key) {
            Some(t) => t,
            None => "\0"@,
        },
{
    match key_text(&property.key) {
        Some(text) => Step::Key(text),
        None => Step::Key("\0"),
    }
}

/// Whether a member is a property keyed `openapi` by a string or identifier key.
pub open spec fn names_openapi(member: JsonMember) -> bool {
    match member {
        JsonMember::Property(p) => match p.key {
            JsonKey::String(text) => text@ == "openapi"@,
            JsonKey::Identifier(name) => name@ == "openapi"@,
            _ => false,
        },
        JsonMember::Spread => false,
    }
}

/// Whether the root object has an `openapi` member.
///
/// The content gate for the whole feature: key presence, not the truthiness of the value, so a
/// document with `"openapi": ""` is still an OpenAPI document. `"swagger": "2.0"` does not match,
/// because the root table is 3.x-shaped. Only a string or identifier key can spell `openapi`.
pub fn is_openapi_root(object: &JsonObject<'_>) -> (is: bool)
    ensures
        is == exists|i: int| 0 <= i < object.properties@.len() && names_openapi(
            #[trigger] object.properties@[i],
        ),
{
    let mut i: usize = 0;
    while i < object.properties.len()
        invariant
            i <= object.properties@.len(),
            forall|j: int| 0 <= j < i ==> !names_openapi(#[trigger] object.properties@[j]),
        decreases object.properties@.len() - i,
    {
        let found = match &object.properties[i] {
            JsonMember::Property(p) => match p.key {
                JsonKey::String(text) => text.eq("openapi"),
                JsonKey::Identifier(name) => name.eq("openapi"),
                _ => false,
            },
            JsonMember::Spread => false,
        };
        if found {
            return true;
        }
        i = i + 1;
    }
    false
}

/// Whether every member is a property with a usable key.
pub open spec fn all_keys_readable(object: JsonObject) -> bool {
    forall|i: int|
        0 <= i < object.properties@.len() ==> (#[trigger] object.properties@[i] matches JsonMember::Property(
            p,
        ) && key_identity(p.key) is Some)
}

/// Whether `object` may be reordered, given the start of the next pending comment.
pub open spec fn reorder_allowed(object: JsonObject, next_comment_start: Option<u32>) -> bool {
    &&& !(next_comment_start matches Some(start) && start < object.span_end)
    &&& all_keys_readable(object)
}

/// The bail-out. `false` means "keep source order".
///
/// Refusing is always safe: the feature degrades to a no-op for that one object. Every branch
/// survives its own output: comments are reproduced verbatim and a spread stays a spread.
///
/// 1. A comment anywhere inside the object. `next_comment_start` is where the next comment the
///    printer has not yet emitted starts; on entry the cursor sits just past the `{`, so every
///    comment inside the braces is still pending. Moving a property past another would emit
///    comments against the wrong nodes.
/// 2. A spread member: `{...a, b: 1}` and `{b: 1, ...a}` evaluate differently.
/// 3. A key with no usable identity (see [`key_text`]).
pub fn may_reorder(object: &JsonObject<'_>, next_comment_start: Option<u32>) -> (may: bool)
    ensures
        may == reorder_allowed(*object, next_comment_start),
{
    if let Some(start) = next_comment_start {
        if start < object.span_end {
            return false;
        }
    }
    let mut i: usize = 0;
    while i < object.properties.len()
        invariant
            i <= object.properties@.len(),
            forall|j: int|
                0 <= j < i ==> (#[trigger] object.properties@[j] matches JsonMember::Property(p)
                    && key_identity(p.key) is Some),
        decreases object.properties@.len() - i,
    {
        match &object.properties[i] {
            JsonMember::Property(p) => {
                if key_text(&p.key).is_none() {
                    return false;
                }
            },
            JsonMember::Spread => {
                return false;
            },
        }
        i = i + 1;
    }
    true
}

/// The node at `index`, if the tree has one.
pub open spec fn node_at<'a>(tree: JsonTree<'a>, index: usize) -> Option<JsonNode<'a>> {
    if index < tree.nodes@.len() {
        Some(tree.nodes@[index as int])
    } else {
        None
    }
}

/// The value of the first property of `members` whose key reads `name`, skipping spreads.
pub open spec fn member_value(members: Seq<JsonMember>, name: Seq<char>) -> Option<usize>
    decreases members.len(),
{
    if members.len() == 0 {
        None
    } else {
        match members[0] {
            JsonMember::Property(p) if key_identity(p.key) == Some(name) => Some(p.value),
            _ => member_value(members.drop_first(), name),
        }
    }
}

/// The object at `index`, if that node is one.
pub open spec fn object_at<'a>(tree: JsonTree<'a>, index: usize) -> Option<JsonObject<'a>> {
    match node_at(tree, index) {
        Some(JsonNode::Object(object)) => Some(object),
        _ => None,
    }
}

/// The first tag of the operation `method` of the path item at `item`, if it has one: the
/// operation must be an object whose `tags` is an array whose first element is a string.
pub open spec fn operation_tag(tree: JsonTree, item: JsonObject, method: Seq<char>) -> Option<
    Seq<char>,
> {
    match member_value(item.properties@, method) {
        Some(op) => match object_at(tree, op) {
            Some(operation) => match member_value(operation.properties@, "tags"@) {
                Some(tags) => match node_at(tree, tags) {
                    Some(JsonNode::Array(elements)) => if elements@.len() > 0 {
                        match elements@[0] {
                            Some(first) => match node_at(tree, first) {
                                Some(JsonNode::String(tag)) => Some(tag@),
                                _ => None,
                            },
                            None => None,
                        }
                    } else {
                        None
                    },
                    _ => None,
                },
                None => None,
            },
            None => None,
        },
        None => None,
    }
}

/// The methods consulted, in order, when keying a path item by tag.
pub open spec fn tag_methods() -> Seq<Seq<char>> {
    seq!["get"@, "query"@, "post"@, "put"@, "delete"@, "patch"@, "options"@, "head"@]
}

/// The tag of the first method, from the `k`-th on, that supplies one.
pub open spec fn first_tag_from(tree: JsonTree, item: JsonObject, k: int) -> Option<Seq<char>>
    decreases 8 - k,
{
    if k < 0 || k >= 8 {
        None
    } else {
        match operation_tag(tree, item, tag_methods()[k]) {
            Some(tag) => Some(tag),
            None => first_tag_from(tree, item, k + 1),
        }
    }
}

/// A path item keys on the first tag of its first tagged method: when every earlier method in
/// [`TAG_METHOD_ORDER`] supplies no tag and method `k` is an object whose `tags` array starts
/// with the string `tag`, the item's tag key is `tag`, whatever follows it in the array.
pub proof fn lemma_tag_key_is_first_tag(
    tree: JsonTree,
    property: JsonProperty,
    item: JsonObject,
    k: int,
    operation: usize,
    op: JsonObject,
    tags: usize,
    elements: Vec<Option<usize>>,
    first: usize,
    tag: &str,
)
    requires
        object_at(tree, property.value) == Some(item),
        0 <= k < 8,
        forall|j: int| 0 <= j < k ==> operation_tag(tree, item, #[trigger] tag_methods()[j]) is None,
        member_value(item.properties@, tag_methods()[k]) == Some(operation),
        object_at(tree, operation) == Some(op),
        member_value(op.properties@, "tags"@) == Some(tags),
        node_at(tree, tags) == Some(JsonNode::Array(elements)),
        elements@.len() > 0,
        elements@[0] == Some(first),
        node_at(tree, first) == Some(JsonNode::String(tag)),
    ensures
        tag_key_of(tree, property) == tag@,
{
    assert(operation_tag(tree, item, tag_methods()[k]) == Some(tag@));
    lemma_first_tag_skips(tree, item, 0, k);
}

/// Methods that supply no tag are skipped: the search from `j` finds what the search from `k`
/// finds.
proof fn lemma_first_tag_skips(tree: JsonTree, item: JsonObject, j: int, k: int)
    requires
        0 <= j <= k < 8,
        forall|m: int| 0 <= m < k ==> operation_tag(tree, item, #[trigger] tag_methods()[m]) is None,
    ensures
        first_tag_from(tree, item, j) == first_tag_from(tree, item, k),
    decreases k - j,
{
    if j < k {
        assert(operation_tag(tree, item, tag_methods()[j]) is None);
        lemma_first_tag_skips(tree, item, j + 1, k);
    }
}

/// A path item's tag key: the first tag of the first method present with one, or the empty
/// string for a path item that is not an object or has no tagged method.
pub open spec fn tag_key_of(tree: JsonTree, property: JsonProperty) -> Seq<char> {
    match object_at(tree, property.value) {
        Some(item) => match first_tag_from(tree, item, 0) {
            Some(tag) => tag,
            None => Seq::empty(),
        },
        None => Seq::empty(),
    }
}

/// The value of `name` in `object`, if it has such a member.
fn member<'a>(object: &JsonObject<'a>, name: &str) -> (value: Option<usize>)
    ensures
        value == member_value(object.properties@, name@),
{
    let mut i: usize = 0;
    assert(object.properties@.skip(0) =~= object.properties@);
    while i < object.properties.len()
        invariant
            i <= object.properties@.len(),
            member_value(object.properties@, name@) == member_value(
                object.properties@.skip(i as int),
                name@,
            ),
        decreases object.properties@.len() - i,
    {
        assert(object.properties@.skip(i as int).drop_first() =~= object.properties@.skip(
            i + 1,
        ));
        assert(object.properties@.skip(i as int)[0] == object.properties@[i as int]);
        if let JsonMember::Property(p) = &object.properties[i] {
            match key_text(&p.key) {
                Some(text) => {
                    if text.eq(name) {
                        return Some(p.value);
                    }
                },
                None => {},
            }
        }
        i = i + 1;
    }
    None
}

/// The object at node `index`, if that node is one.
fn as_object<'t, 'a>(tree: &'t JsonTree<'a>, index: usize) -> (object: Option<&'t JsonObject<'a>>)
    ensures
        match object {
            Some(o) => object_at(*tree, index) == Some(*o),
            None => object_at(*tree, index) is None,
        },
{
    if index < tree.nodes.len() {
        match &tree.nodes[index] {
            JsonNode::Object(object) => Some(object),
            _ => None,
        }
    } else {
        None
    }
}

/// The first tag of operation `method` of `item`; [`operation_tag`] states it.
fn operation_tag_of<'a>(tree: &JsonTree<'a>, item: &JsonObject<'a>, method: &str) -> (tag: Option<
    &'a str,
>)
    ensures
        match tag {
            Some(t) => operation_tag(*tree, *item, method@) == Some(t@),
            None => operation_tag(*tree, *item, method@) is None,
        },
{
    let operation = match member(item, method) {
        Some(op) => match as_object(tree, op) {
            Some(operation) => operation,
            None => return None,
        },
        None => return None,
    };
    let tags = match member(operation, "tags") {
        Some(tags) => tags,
        None => return None,
    };
    if tags >= tree.nodes.len() {
        return None;
    }
    let first = match &tree.nodes[tags] {
        JsonNode::Array(elements) => {
            if elements.len() == 0 {
                return None;
            }
            match elements[0] {
                Some(first) => first,
                None => return None,
            }
        },
        _ => return None,
    };
    if first >= tree.nodes.len() {
        return None;
    }
    match &tree.nodes[first] {
        JsonNode::String(tag) => Some(*tag),
        _ => None,
    }
}

/// A path item's tag key, for `sortOpenapi.paths: "tags"`.
///
/// The first method in [`TAG_METHOD_ORDER`] present with a non-empty `tags` array supplies its
/// first tag, and a path item with no tagged method keys on the empty string, which sorts before
/// every real tag.
///
/// An unreadable tag reads as untagged rather than refusing the object: ordering `paths` moves
/// whole path items and cannot corrupt the document however the keys come out.
pub fn tag_key<'a>(tree: &JsonTree<'a>, property: &JsonProperty<'a>) -> (tag: &'a str)
    ensures
        tag@ == tag_key_of(*tree, *property),
{
    let item = match as_object(tree, property.value) {
        Some(item) => item,
        None => {
            proof {
                reveal_strlit("");
            }
            return "";
        },
    };
    let mut k: usize = 0;
    while k < 8
        invariant
            k <= 8,
            object_at(*tree, property.value) == Some(*item),
            first_tag_from(*tree, *item, 0) == first_tag_from(*tree, *item, k as int),
        decreases 8 - k,
    {
        let method = TAG_METHOD_ORDER[k];
        assert(method@ == tag_methods()[k as int]);
        if let Some(tag) = operation_tag_of(tree, item, method) {
            return tag;
        }
        k = k + 1;
    }
    proof {
        reveal_strlit("");
    }
    ""
}

/// The strings a JSON object is ordered by: each property's tag key under [`MappingOrder::Tags`],
/// its key text otherwise.
pub open spec fn order_strings(tree: JsonTree, object: JsonObject, ordering: MappingOrder) -> Seq<
    Seq<char>,
> {
    Seq::new(
        object.properties@.len(),
        |i: int|
            match object.properties@[i] {
                JsonMember::Property(p) => match ordering {
                    MappingOrder::Tags => tag_key_of(tree, p),
                    _ => key_identity(p.key)->0,
                },
                JsonMember::Spread => Seq::empty(),
            },
    )
}

/// Resolve the permutation for `object`'s properties, or `None` to keep source order.
///
/// Gated on `sort.enabled` and on `is_openapi_document` (the root object has an `openapi`
/// member); an object with fewer than two members, an object no ordering applies to, and an
/// object [`may_reorder`] refuses all keep source order. Otherwise each property's string (its key
/// text, or under `paths: "tags"` its tag key) is pushed, in source order, and the session's
/// permutation decides.
///
/// The caller must pair a `Some` result with [`end`], and must fill the frame's blank-line
/// snapshot with [`push_blanks`] before reading any position out of it.
pub fn begin_object<'a>(
    tree: &JsonTree<'a>,
    object: &JsonObject<'a>,
    sort: &SortOpenapi,
    is_openapi_document: bool,
    next_comment_start: Option<u32>,
    session: &mut Session<'a>,
) -> (frame: Option<Frame>)
    requires
        old(session).keys_view().len() == 0,
        old(session).blanks_view().len() == old(session).permutations_view().len(),
        forall|ordering: MappingOrder|
            chosen(Some(ordering), *sort, old(session).ancestry_view(), is_openapi_document)
                ==> orderable(ordering, #[trigger] order_strings(*tree, *object, ordering)),
    ensures
        final(session).keys_view().len() == 0,
        final(session).ancestry_view() == old(session).ancestry_view(),
        final(session).blanks_view() == old(session).blanks_view(),
        ({
            let gated = sort.enabled && is_openapi_document && object.properties@.len() >= 2
                && reorder_allowed(*object, next_comment_start);
            let n = object.properties@.len() as int;
            &&& frame is None <==> (!gated || forall|o: MappingOrder|
                chosen(Some(o), *sort, old(session).ancestry_view(), is_openapi_document)
                    ==> identity_sorted(n, order_relation(o, order_strings(*tree, *object, o))))
            &&& frame is None ==> final(session).permutations_view() == old(
                session,
            ).permutations_view()
            &&& frame matches Some(f) ==> exists|o: MappingOrder|
                #[trigger] chosen(Some(o), *sort, old(session).ancestry_view(), is_openapi_document)
                    && opened(
                    old(session).permutations_view(),
                    final(session).permutations_view(),
                    f,
                    order_relation(o, order_strings(*tree, *object, o)),
                    n,
                )
        }),
{
    if !sort.enabled || !is_openapi_document {
        return None;
    }
    if object.properties.len() < 2 {
        return None;
    }
    let ordering = match session.ordering(sort, is_openapi_document) {
        Some(ordering) => ordering,
        None => return None,
    };
    proof {
        assert forall|o: MappingOrder|
            chosen(Some(o), *sort, old(session).ancestry_view(), is_openapi_document) implies
            #[trigger] order_relation(o, order_strings(*tree, *object, o)) == order_relation(
            ordering,
            order_strings(*tree, *object, ordering),
        ) by {
            lemma_chosen_unique(
                o,
                ordering,
                *sort,
                old(session).ancestry_view(),
                is_openapi_document,
                order_strings(*tree, *object, o),
            );
            if o is Tags {
            } else {
                assert(order_strings(*tree, *object, o) == order_strings(*tree, *object, ordering));
            }
        }
    }
    if !may_reorder(object, next_comment_start) {
        return None;
    }
    let ghost strings = order_strings(*tree, *object, ordering);
    let mut i: usize = 0;
    while i < object.properties.len()
        invariant
            i <= object.properties@.len(),
            reorder_allowed(*object, next_comment_start),
            session.keys_view() =~= strings.take(i as int),
            strings == order_strings(*tree, *object, ordering),
            session.ancestry_view() == old(session).ancestry_view(),
            session.blanks_view() == old(session).blanks_view(),
            session.permutations_view() == old(session).permutations_view(),
        decreases object.properties@.len() - i,
    {
        let key = match &object.properties[i] {
            JsonMember::Property(p) => match ordering {
                MappingOrder::Tags => tag_key(tree, p),
                _ => match key_text(&p.key) {
                    Some(text) => text,
                    None => {
                        assert(false);
                        ""
                    },
                },
            },
            JsonMember::Spread => {
                assert(false);
                ""
            },
        };
        session.push_key(key);
        assert(strings.take(i + 1) =~= strings.take(i as int).push(strings[i as int]));
        i = i + 1;
    }
    assert(strings.take(strings.len() as int) =~= strings);
    let frame = session.permute(ordering);
    assert(chosen(Some(ordering), *sort, old(session).ancestry_view(), is_openapi_document));
    frame
}

/// Push the blank-line snapshot for an object into `frame`, in source order: none before the
/// first property, then `gaps[i]` before property `i + 1`.
///
/// Captured before anything moves: the unpermuted separator measures the gap between two adjacent
/// source offsets, which says nothing about two properties that are only adjacent after permuting.
pub fn push_blanks(frame: &Frame, gaps: &[bool], session: &mut Session<'_>)
    requires
        gaps@.len() + 1 == frame.count(),
        old(session).blanks_view().len() == frame.begin(),
    ensures
        final(session).blanks_view() == old(session).blanks_view() + seq![false] + gaps@,
        final(session).ancestry_view() == old(session).ancestry_view(),
        final(session).keys_view() == old(session).keys_view(),
        final(session).permutations_view() == old(session).permutations_view(),
{
    session.push_blank(frame, false);
    let mut i: usize = 0;
    while i < gaps.len()
        invariant
            i <= gaps@.len(),
            gaps@.len() + 1 == frame.count(),
            session.blanks_view() == old(session).blanks_view() + seq![false] + gaps@.take(
                i as int,
            ),
            session.blanks_view().len() == frame.begin() + 1 + i,
            session.ancestry_view() == old(session).ancestry_view(),
            session.keys_view() == old(session).keys_view(),
            session.permutations_view() == old(session).permutations_view(),
        decreases gaps@.len() - i,
    {
        session.push_blank(frame, gaps[i]);
        assert(gaps@.take(i + 1) =~= gaps@.take(i as int).push(gaps@[i as int]));
        i = i + 1;
    }
    assert(gaps@.take(gaps@.len() as int) =~= gaps@);
}

/// Runs `write` with `step` appended to the ancestry, returns what it returns, and then drops
/// the step again, leaving everything else as `write` left it.
///
/// Push and pop live in one function so no print site can leak a step. `write` must leave the
/// ancestry as deep as it found it; the session's balance requirement holds both backends to that.
pub fn with_step<'a, R, F: FnOnce(&mut Session<'a>) -> R>(
    step: Step<'a>,
    session: &mut Session<'a>,
    write: F,
) -> (result: R)
    requires
        old(session).ancestry_view().len() < usize::MAX,
        forall|s: &mut Session<'a>| write.requires((s,)),
        forall|s: &mut Session<'a>, r: R|
            write.ensures((s,), r) ==> final(s).ancestry_view().len() == s.ancestry_view().len(),
    ensures
        final(session).ancestry_view().len() == old(session).ancestry_view().len(),
        exists|s: &mut Session<'a>|
            {
                &&& s.ancestry_view() == old(session).ancestry_view().push(step)
                &&& s.keys_view() == old(session).keys_view()
                &&& s.permutations_view() == old(session).permutations_view()
                &&& s.blanks_view() == old(session).blanks_view()
                &&& #[trigger] write.ensures((s,), result)
                &&& final(session).ancestry_view() == final(s).ancestry_view().drop_last()
                &&& final(session).keys_view() == final(s).keys_view()
                &&& final(session).permutations_view() == final(s).permutations_view()
                &&& final(session).blanks_view() == final(s).blanks_view()
            },
{
    let depth = session.push_step(step);
    let result = write(session);
    assert(exists|s: &mut Session<'a>| #[trigger] write.ensures((s,), result));
    session.pop_step(depth);
    result
}

/// Drop the frame.
pub fn end(frame: Frame, session: &mut Session<'_>)
    requires
        old(session).permutations_view().len() == frame.begin() + frame.count(),
    ensures
        final(session).permutations_view() == old(session).permutations_view().take(frame.begin()),
        final(session).ancestry_view() == old(session).ancestry_view(),
{
    session.end(frame);
}

/// Read the source index for an output position.
pub fn source_index(frame: &Frame, position: usize, session: &Session<'_>) -> (index: usize)
    requires
        position < frame.count(),
        0 <= frame.begin(),
        frame.begin() + frame.count() <= session.permutations_view().len(),
    ensures
        index == session.permutations_view()[frame.begin() + position],
{
    session.source_index(frame, position)
}

/// Read the blank-line flag for an output position.
pub fn blank_before(frame: &Frame, position: usize, session: &Session<'_>) -> (blank: bool)
    requires
        session.frame_valid(frame),
        position < frame.count(),
        session.blanks_view().len() == frame.begin() + frame.count(),
    ensures
        blank == session.blanks_view()[frame.begin() + session.permutations_view()[frame.begin()
            + position]],
{
    session.blank_before(frame, position)
}

} // verus!

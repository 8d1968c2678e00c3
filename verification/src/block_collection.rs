//! The walk over a YAML block collection's items.
//!
//! Printing a block mapping or sequence alternates with the printer's own work (writing an item,
//! placing comments, measuring a source gap). What is decided here is everything else: which
//! item prints at each position, how the previous item's tail is finished, and what separates two
//! items. A walk is a list of [`PrintStep`]s the printer carries out in order.

use vstd::prelude::*;

use crate::rule::Step;
use crate::session::Frame;
use crate::yaml_openapi::{
    OpenapiState, SequenceItem, YamlContent, YamlItem, YamlMapping, YamlTree, blank_before,
    finish, node_at, source_index,
};

verus! {

/// How an item's tail interacts with the comments that follow it.
#[derive(Debug, Clone, Copy, PartialEq, Eq)]
pub enum ItemTail {
    /// No block scalar: same-line trailing comment, then container end comments.
    Plain,
    /// The item ends in a block scalar at some depth, whose span consumes the trailing line
    /// breaks: a following own-line comment would look same-line, and absorbing it onto the
    /// header would change the parsed value. Skip the same-line check, still claim end comments.
    /// Every sequence item that ends in a block scalar, direct or not, is this.
    EndsInBlockScalar,
    /// The entry's value is a block scalar (mapping only): it cannot own end comments either.
    /// Skip both; the comments fall through to the enclosing container or the next node's
    /// leading position.
    ValueIsBlockScalar,
}

/// How the separator to the next item is decided.
#[derive(Debug, Clone, Copy, PartialEq, Eq)]
pub enum Separator {
    /// Nothing follows.
    End,
    /// Measure the source gap between the two adjacent items, up to the next item's start.
    Measured(u32),
    /// The items were permuted, so the source gap between two now-adjacent items says nothing.
    /// `blank_before` is the blank-line fact captured in source order before anything moved,
    /// which travels with the item it preceded. `next_start` still bounds the end-comment flush;
    /// `mapping_end` bounds where a pending comment may sit.
    Permuted { next_start: u32, blank_before: bool, mapping_end: u32 },
}

/// Where the next item starts, when one follows.
pub open spec fn next_start_of(separator: Separator) -> Option<u32> {
    match separator {
        Separator::End => None,
        Separator::Measured(next_start) => Some(next_start),
        Separator::Permuted { next_start, .. } => Some(next_start),
    }
}

impl Separator {
    /// Where the next item starts, when one follows.
    pub fn next_start(self) -> (start: Option<u32>)
        ensures
            start == next_start_of(self),
    {
        match self {
            Separator::End => None,
            Separator::Measured(next_start) => Some(next_start),
            Separator::Permuted { next_start, .. } => Some(next_start),
        }
    }
}

/// The line break written after an item.
#[derive(Debug, Clone, Copy, PartialEq, Eq)]
pub enum LineBreak {
    /// Nothing follows: no break.
    Nothing,
    /// Preserve a blank line the source has between where the previous item's comments ended
    /// and `next_start`.
    Measured { next_start: u32 },
    /// An empty line.
    Blank,
    /// A single hard line break.
    Hard,
}

/// What finishing the previous item does, in order.
#[derive(Debug, Clone, Copy, PartialEq, Eq)]
pub struct FinishPlan {
    /// Emit the previous item's same-line trailing comment.
    pub trailing_comment: bool,
    /// Flush the container's end comments up to this offset, or not at all.
    pub end_comments_bound: Option<u32>,
    /// The break that follows.
    pub line_break: LineBreak,
}

/// The line break a separator asks for.
pub open spec fn line_break_of(separator: Separator) -> LineBreak {
    match separator {
        Separator::End => LineBreak::Nothing,
        Separator::Measured(next_start) => LineBreak::Measured { next_start },
        Separator::Permuted { blank_before, .. } => if blank_before {
            LineBreak::Blank
        } else {
            LineBreak::Hard
        },
    }
}

/// Finishing the previous item: its same-line trailing comment and the container's end comments,
/// as far as its [`ItemTail`] allows, then the separator to the next item (when one follows).
///
/// The end-comment flush is bounded by the next item's start, or by `u32::MAX` when nothing
/// follows. A permuted separator writes the blank-line fact captured before anything moved:
/// permuting makes the previous item's end lie after the next item's start, so the source gap
/// between them means nothing. That is safe for the comment passes only because a mapping is
/// reordered only when no comment is pending before its scope end.
pub fn finish_previous_item(prev_tail: ItemTail, separator: Separator) -> (plan: FinishPlan)
    ensures
        plan.trailing_comment == (prev_tail == ItemTail::Plain),
        plan.end_comments_bound == if prev_tail == ItemTail::ValueIsBlockScalar {
            None
        } else {
            Some(
                match next_start_of(separator) {
                    Some(next_start) => next_start,
                    None => u32::MAX,
                },
            )
        },
        plan.line_break == line_break_of(separator),
{
    let trailing_comment = match prev_tail {
        ItemTail::Plain => true,
        _ => false,
    };
    let end_comments_bound = match prev_tail {
        ItemTail::ValueIsBlockScalar => None,
        _ => Some(
            match separator.next_start() {
                Some(next_start) => next_start,
                None => u32::MAX,
            },
        ),
    };
    let line_break = match separator {
        Separator::End => LineBreak::Nothing,
        Separator::Measured(next_start) => LineBreak::Measured { next_start },
        Separator::Permuted { blank_before, .. } => {
            if blank_before {
                LineBreak::Blank
            } else {
                LineBreak::Hard
            }
        },
    };
    FinishPlan { trailing_comment, end_comments_bound, line_break }
}

/// One step of printing a block collection.
#[derive(Debug, Clone, Copy, PartialEq, Eq)]
pub enum PrintStep<'a> {
    /// Enter the collection: one more enclosing block collection.
    Enter,
    /// Print the item at this source index (its leading comments first), under `step` appended
    /// to the ancestry (with [`with_step`](crate::yaml_openapi::with_step), which drops it again)
    /// when there is one.
    Item { index: usize, step: Option<Step<'a>> },
    /// Finish the item printed last ([`finish_previous_item`]): where its gap is measured from,
    /// its tail, and what follows it.
    Finish { prev_end: u32, tail: ItemTail, separator: Separator },
    /// Leave the collection: one enclosing block collection fewer.
    Leave,
}

/// Whether the node at `index` is a block scalar.
pub open spec fn is_block_scalar_at(tree: YamlTree, index: usize) -> bool {
    match node_at(tree, index) {
        Some(node) => node.content is BlockLiteral || node.content is BlockFolded,
        None => false,
    }
}

/// A mapping entry's tail: its value is a block scalar, it ends in one deeper down, or neither.
pub open spec fn mapping_tail_of(tree: YamlTree, item: YamlItem) -> ItemTail {
    if item.value matches Some(value) && is_block_scalar_at(tree, value) {
        ItemTail::ValueIsBlockScalar
    } else if item.last_block is Some {
        ItemTail::EndsInBlockScalar
    } else {
        ItemTail::Plain
    }
}

/// A mapping entry's tail.
fn mapping_tail(tree: &YamlTree<'_>, item: &YamlItem) -> (tail: ItemTail)
    ensures
        tail == mapping_tail_of(*tree, *item),
{
    let value_is_block = match item.value {
        Some(value) => {
            if value < tree.nodes.len() {
                match tree.nodes[value].content {
                    YamlContent::BlockLiteral { .. } => true,
                    YamlContent::BlockFolded { .. } => true,
                    _ => false,
                }
            } else {
                false
            }
        },
        None => false,
    };
    if value_is_block {
        ItemTail::ValueIsBlockScalar
    } else if item.last_block.is_some() {
        ItemTail::EndsInBlockScalar
    } else {
        ItemTail::Plain
    }
}

/// The source index of the item printed at `position`: its own position in source order, or
/// where the mapping's frame sends it.
pub open spec fn printed_index(frame: Option<Frame>, permutations: Seq<u32>, position: int) -> int {
    match frame {
        None => position,
        Some(f) => permutations[f.begin() + position] as int,
    }
}

/// The separator in front of the item printed at `position`.
pub open spec fn mapping_separator(
    mapping: YamlMapping,
    frame: Option<Frame>,
    permutations: Seq<u32>,
    blanks: Seq<bool>,
    position: int,
) -> Separator {
    let index = printed_index(frame, permutations, position);
    let start = mapping.children@[index].span_start;
    match frame {
        None => Separator::Measured(start),
        Some(f) => Separator::Permuted {
            next_start: start,
            blank_before: blanks[f.begin() + index],
            mapping_end: mapping.span_end,
        },
    }
}

/// `steps` prints the `n` items of a collection: it enters the collection, prints at each
/// position `p` the item at `index(p)` under the ancestry step `step(p)` and then finishes it
/// with `finish(p)`, and leaves the collection.
pub open spec fn walks(
    steps: Seq<PrintStep>,
    n: int,
    index: spec_fn(int) -> int,
    step: spec_fn(int) -> Option<Step<'static>>,
    finish: spec_fn(int) -> PrintStep<'static>,
) -> bool {
    &&& steps.len() == 2 * n + 2
    &&& steps[0] == PrintStep::Enter
    &&& forall|p: int|
        0 <= p < n ==> #[trigger] steps[2 * p + 1] == (PrintStep::Item {
            index: index(p) as usize,
            step: step(p),
        })
    &&& forall|p: int| 0 <= p < n ==> #[trigger] steps[2 * p + 2] == finish(p)
    &&& steps[2 * n + 1] == PrintStep::Leave
}

/// How a mapping's items are finished: at position `p`, the gap is measured from the printed
/// item's gap anchor, its tail is its own, and the separator leads to the item at `p + 1`.
pub open spec fn mapping_finish(
    tree: YamlTree,
    mapping: YamlMapping,
    gap_anchors: Seq<u32>,
    frame: Option<Frame>,
    permutations: Seq<u32>,
    blanks: Seq<bool>,
) -> spec_fn(int) -> PrintStep<'static> {
    |p: int|
        {
            let index = printed_index(frame, permutations, p);
            PrintStep::Finish {
                prev_end: gap_anchors[index],
                tail: mapping_tail_of(tree, mapping.children@[index]),
                separator: if p + 1 < mapping.children@.len() {
                    mapping_separator(mapping, frame, permutations, blanks, p + 1)
                } else {
                    Separator::End
                },
            }
        }
}

/// The steps that print a block mapping, after which its frame is finished.
///
/// `gap_anchors[i]` is where the gap after entry `i` is measured from (its end, or the end of
/// the block scalar it ends in, whose span swallows the trailing line breaks). `frame` is what
/// [`begin_mapping`](crate::yaml_openapi::begin_mapping) returned: with none, the entries print
/// in source order, each separated from the last by the measured source gap; with one, they
/// print in the frame's order and each carries its own blank-line fact. Every position is read
/// out of the frame here, so the frame is finished ([`finish`]) before the entries print: the
/// session's stacks are as they were before `begin_mapping` opened it.
pub fn mapping_plan(
    tree: &YamlTree<'_>,
    mapping: &YamlMapping,
    gap_anchors: &[u32],
    frame: Option<Frame>,
    state: &mut OpenapiState<'_>,
) -> (steps: Vec<PrintStep<'static>>)
    requires
        gap_anchors@.len() == mapping.children@.len(),
        frame matches Some(f) ==> {
            &&& old(state).session.frame_valid(&f)
            &&& f.count() == mapping.children@.len()
            &&& old(state).session.blanks_view().len() == f.begin() + f.count()
            &&& old(state).session.permutations_view().len() == f.begin() + f.count()
        },
    ensures
        walks(
            steps@,
            mapping.children@.len() as int,
            |p: int| printed_index(frame, old(state).session.permutations_view(), p),
            |p: int| None,
            mapping_finish(
                *tree,
                *mapping,
                gap_anchors@,
                frame,
                old(state).session.permutations_view(),
                old(state).session.blanks_view(),
            ),
        ),
        final(state).session.ancestry_view() == old(state).session.ancestry_view(),
        final(state).session.keys_view() == old(state).session.keys_view(),
        final(state).anchor_and_alias_starts == old(state).anchor_and_alias_starts,
        match frame {
            Some(f) => {
                &&& final(state).session.permutations_view() == old(
                    state,
                ).session.permutations_view().take(f.begin())
                &&& final(state).session.blanks_view() == old(state).session.blanks_view().take(
                    f.begin(),
                )
            },
            None => {
                &&& final(state).session.permutations_view() == old(
                    state,
                ).session.permutations_view()
                &&& final(state).session.blanks_view() == old(state).session.blanks_view()
            },
        },
{
    let n = mapping.children.len();
    let ghost perms = state.session.permutations_view();
    let ghost blanks = state.session.blanks_view();
    let ghost index = |p: int| printed_index(frame, perms, p);
    let ghost step = |p: int| -> Option<Step<'static>> { None };
    let ghost finish_at = mapping_finish(*tree, *mapping, gap_anchors@, frame, perms, blanks);
    let mut steps: Vec<PrintStep<'static>> = Vec::new();
    steps.push(PrintStep::Enter);
    let mut prev_end: u32 = 0;
    let mut prev_tail = ItemTail::Plain;
    let mut position: usize = 0;
    while position < n
        invariant
            n == mapping.children@.len(),
            position <= n,
            gap_anchors@.len() == n,
            perms == state.session.permutations_view(),
            blanks == state.session.blanks_view(),
            index == (|p: int| printed_index(frame, perms, p)),
            step == (|p: int| -> Option<Step<'static>> { None }),
            finish_at == mapping_finish(*tree, *mapping, gap_anchors@, frame, perms, blanks),
            frame matches Some(f) ==> {
                &&& state.session.frame_valid(&f)
                &&& f.count() == n
                &&& blanks.len() == f.begin() + f.count()
            },
            steps@.len() == if position == 0 {
                1
            } else {
                2 * position
            },
            steps@[0] == PrintStep::Enter,
            forall|p: int|
                0 <= p < position ==> #[trigger] steps@[2 * p + 1] == (PrintStep::Item {
                    index: index(p) as usize,
                    step: step(p),
                }),
            forall|p: int| 0 <= p < position - 1 ==> #[trigger] steps@[2 * p + 2] == finish_at(p),
            position > 0 ==> 0 <= index(position - 1) < n,
            position > 0 ==> prev_end == gap_anchors@[index(position - 1)],
            position > 0 ==> prev_tail == mapping_tail_of(
                *tree,
                mapping.children@[index(position - 1)],
            ),
        decreases n - position,
    {
        let item_index = match &frame {
            None => position,
            Some(f) => {
                proof {
                    let window = perms.subrange(f.begin(), f.begin() + f.count());
                    assert(window[position as int] == perms[f.begin() + position]);
                }
                source_index(f, position, state)
            },
        };
        assert(item_index == index(position as int));
        assert(item_index < n);
        let item = &mapping.children[item_index];
        if position > 0 {
            let separator = match &frame {
                None => Separator::Measured(item.span_start),
                Some(f) => Separator::Permuted {
                    next_start: item.span_start,
                    blank_before: blank_before(f, position, state),
                    mapping_end: mapping.span_end,
                },
            };
            assert(separator == mapping_separator(*mapping, frame, perms, blanks, position as int));
            steps.push(PrintStep::Finish { prev_end, tail: prev_tail, separator });
            assert(steps@[2 * (position - 1) + 2] == finish_at(position - 1));
        }
        prev_end = gap_anchors[item_index];
        prev_tail = mapping_tail(tree, item);
        steps.push(PrintStep::Item { index: item_index, step: None });
        assert(steps@[2 * (position as int) + 1] == (PrintStep::Item {
            index: index(position as int) as usize,
            step: step(position as int),
        }));
        position = position + 1;
    }
    if n > 0 {
        steps.push(PrintStep::Finish { prev_end, tail: prev_tail, separator: Separator::End });
        assert(steps@[2 * (n - 1) + 2] == finish_at(n - 1));
    }
    steps.push(PrintStep::Leave);
    match frame {
        Some(f) => {
            let ghost begin = f.begin();
            finish(f, state);
            assert(blanks.take(begin) =~= if blanks.len() > begin {
                blanks.take(begin)
            } else {
                blanks
            });
        },
        None => {},
    }
    steps
}

/// A sequence item's tail: it ends in a block scalar at some depth, or it does not. Never
/// [`ItemTail::ValueIsBlockScalar`]: a sequence item can always own its end comments.
pub open spec fn sequence_tail_of(item: SequenceItem) -> ItemTail {
    if item.last_block is Some {
        ItemTail::EndsInBlockScalar
    } else {
        ItemTail::Plain
    }
}

/// How a sequence's items are finished: the gap after item `p` is measured from its gap anchor
/// to the start of item `p + 1`, and nothing follows the last.
pub open spec fn sequence_finish(items: Seq<SequenceItem>, gap_anchors: Seq<u32>) -> spec_fn(
    int,
) -> PrintStep<'static> {
    |p: int|
        PrintStep::Finish {
            prev_end: gap_anchors[p],
            tail: sequence_tail_of(items[p]),
            separator: if p + 1 < items.len() {
                Separator::Measured(items[p + 1].span_start)
            } else {
                Separator::End
            },
        }
}

/// The ancestry step a sequence element is printed under: its position, saturated as
/// [`Step::index`] saturates it.
pub open spec fn element_step(p: int) -> Step<'static> {
    Step::Index(
        if p <= u32::MAX {
            p as u32
        } else {
            u32::MAX
        },
    )
}

/// The ancestry step the sequence item at `p` prints under: its position's, when it has content.
pub open spec fn sequence_step(items: Seq<SequenceItem>) -> spec_fn(int) -> Option<Step<'static>> {
    |p: int|
        if items[p].content is Some {
            Some(element_step(p))
        } else {
            None
        }
}

/// The steps that print a block sequence: its items in source order (sequence elements are never
/// reordered), each separated from the last by the measured source gap. `gap_anchors[i]` is where
/// the gap after item `i` is measured from.
///
/// Each item with content prints under the ancestry step [`Step::index`] of its position, which
/// [`with_step`](crate::yaml_openapi::with_step) drops again, so the ancestry is as it was after
/// every item.
pub fn sequence_plan(items: &[SequenceItem], gap_anchors: &[u32]) -> (steps: Vec<PrintStep<'static>>)
    requires
        gap_anchors@.len() == items@.len(),
    ensures
        walks(
            steps@,
            items@.len() as int,
            |p: int| p,
            sequence_step(items@),
            sequence_finish(items@, gap_anchors@),
        ),
{
    let n = items.len();
    let ghost finish = sequence_finish(items@, gap_anchors@);
    let ghost step = sequence_step(items@);
    let mut steps: Vec<PrintStep<'static>> = Vec::new();
    steps.push(PrintStep::Enter);
    let mut prev_end: u32 = 0;
    let mut prev_tail = ItemTail::Plain;
    let mut index: usize = 0;
    while index < n
        invariant
            n == items@.len(),
            index <= n,
            gap_anchors@.len() == n,
            finish == sequence_finish(items@, gap_anchors@),
            step == sequence_step(items@),
            steps@.len() == if index == 0 {
                1
            } else {
                2 * index
            },
            steps@[0] == PrintStep::Enter,
            forall|p: int|
                0 <= p < index ==> #[trigger] steps@[2 * p + 1] == (PrintStep::Item {
                    index: p as usize,
                    step: step(p),
                }),
            forall|p: int| 0 <= p < index - 1 ==> #[trigger] steps@[2 * p + 2] == finish(p),
            index > 0 ==> prev_end == gap_anchors@[index - 1],
            index > 0 ==> prev_tail == sequence_tail_of(items@[index - 1]),
        decreases n - index,
    {
        let item = &items[index];
        if index > 0 {
            steps.push(
                PrintStep::Finish {
                    prev_end,
                    tail: prev_tail,
                    separator: Separator::Measured(item.span_start),
                },
            );
            assert(steps@[2 * (index - 1) + 2] == finish(index - 1));
        }
        prev_end = gap_anchors[index];
        prev_tail = if item.last_block.is_some() {
            ItemTail::EndsInBlockScalar
        } else {
            ItemTail::Plain
        };
        let element = if item.content.is_some() {
            Some(Step::index(index))
        } else {
            None
        };
        steps.push(PrintStep::Item { index, step: element });
        assert(steps@[2 * (index as int) + 1] == (PrintStep::Item {
            index: index,
            step: step(index as int),
        }));
        index = index + 1;
    }
    if n > 0 {
        steps.push(PrintStep::Finish { prev_end, tail: prev_tail, separator: Separator::End });
        assert(steps@[2 * (n - 1) + 2] == finish(n - 1));
    }
    steps.push(PrintStep::Leave);
    steps
}

/// The marker in front of a sequence item: `- ` when something follows it on the line (the
/// item's content, or a same-line comment), a bare `-` for an empty item so no space is left at
/// the line end.
pub fn sequence_marker(has_content: bool, same_line_comment: bool) -> (marker: &'static str)
    ensures
        marker@ == if has_content || same_line_comment {
            "- "@
        } else {
            "-"@
        },
{
    if has_content || same_line_comment {
        "- "
    } else {
        "-"
    }
}

} // verus!

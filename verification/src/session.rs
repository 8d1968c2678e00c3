//! Per-run state a formatter backend needs to apply the policy.
//!
//! The ancestry the rule resolves against, plus every buffer the ordering needs, reused for the
//! whole run so a multi-megabyte document allocates a bounded number of times rather than once per
//! mapping.
//!
//! `permutations` and `blanks` are watermarked stacks: a mapping appends its [`Frame`], reads it
//! back by index while printing, and drops it on the way out. That is what lets nested mappings
//! share one buffer: an inner mapping appends beyond the outer watermark.
//!
//! Everything is fed in one item at a time ([`Session::push_key`], [`Session::push_blank`]) rather
//! than through an iterator, so a backend never has to hold a borrow of this state while calling
//! back into its formatter.

use vstd::prelude::*;

use crate::config::SortOpenapi;
use crate::lex::Order;
use crate::paths::{
    PathsOrder, order_by_path, order_by_tags, path_entry_order, tag_entry_order,
};
use crate::permute::{Scratch, is_permutation, permutation, key_order, identity_sorted, sorted_by};
use crate::rule::{
    PolicyView, Options, Step, is_paths_mapping, last_override, paths_mapping, resolve,
    resolve_root, resolved, resolved_by_override, resolved_root, table_view,
};
use crate::tables::{Table, rank_fits};

verus! {

/// How one mapping's entries are ordered.
///
/// Chosen by [`Session::ordering`] and consumed by [`Session::permute`], so a backend never
/// decides this for itself.
#[derive(Debug, Clone, Copy)]
pub enum MappingOrder<'a> {
    /// Rank the pushed keys against a field-order table.
    Table(Table<'a>),
    /// Compare the pushed keys as PATH TEMPLATES (`sortOpenapi.paths: "path"`).
    Path,
    /// Compare the pushed strings as TAG KEYS (`sortOpenapi.paths: "tags"`).
    ///
    /// The caller pushes each entry's tag key rather than its own key, which is why
    /// [`Session::push_key`] is documented as "the string the mapping is ordered BY".
    Tags,
}

/// The order a mapping order puts the pushed strings in, by source position.
pub open spec fn order_relation(ordering: MappingOrder, keys: Seq<Seq<char>>) -> spec_fn(
    u32,
    u32,
) -> Order {
    match ordering {
        MappingOrder::Table(table) => key_order(table@, keys),
        MappingOrder::Path => path_entry_order(keys),
        MappingOrder::Tags => tag_entry_order(keys),
    }
}

/// Whether `ordering` is how the mapping at `ancestry` is ordered under `sort`: the `paths`
/// sub-option for the `paths` mapping when it asks for an order, the table the rule picks
/// otherwise, `None` for source order.
pub open spec fn chosen(
    ordering: Option<MappingOrder>,
    sort: SortOpenapi,
    ancestry: Seq<Step>,
    is_openapi_root: bool,
) -> bool {
    let explicit_paths = paths_mapping(ancestry) && sort.paths != PathsOrder::Original;
    match ordering {
        Some(MappingOrder::Path) => paths_mapping(ancestry) && sort.paths == PathsOrder::Path,
        Some(MappingOrder::Tags) => paths_mapping(ancestry) && sort.paths == PathsOrder::Tags,
        Some(MappingOrder::Table(table)) => {
            &&& !explicit_paths
            &&& Session::table_at(sort.policy_view(), ancestry, is_openapi_root) == Some(table@)
            &&& (table is User <==> Session::table_by_override(
                sort.policy_view(),
                ancestry,
                is_openapi_root,
            ))
        },
        None => !explicit_paths && Session::table_at(
            sort.policy_view(),
            ancestry,
            is_openapi_root,
        ) is None,
    }
}

/// Two orderings chosen for the same mapping order the same strings the same way.
pub proof fn lemma_chosen_unique(
    first: MappingOrder,
    second: MappingOrder,
    sort: SortOpenapi,
    ancestry: Seq<Step>,
    is_openapi_root: bool,
    keys: Seq<Seq<char>>,
)
    requires
        chosen(Some(first), sort, ancestry, is_openapi_root),
        chosen(Some(second), sort, ancestry, is_openapi_root),
    ensures
        order_relation(first, keys) == order_relation(second, keys),
        first is Tags <==> second is Tags,
{
}

/// `frame` was opened over a permutation stack that was `before` and is now `after`: it sits on
/// top, covers `n` entries, and holds the permutation of `0..n` that sorts by `rel`, which the
/// source order did not already satisfy.
pub open spec fn opened(
    before: Seq<u32>,
    after: Seq<u32>,
    frame: Frame,
    rel: spec_fn(u32, u32) -> Order,
    n: int,
) -> bool {
    let p = after.subrange(before.len() as int, after.len() as int);
    &&& !identity_sorted(n, rel)
    &&& frame.begin() == before.len()
    &&& frame.count() == n
    &&& after.len() == before.len() + n
    &&& after.take(frame.begin()) == before
    &&& is_permutation(p, n)
    &&& sorted_by(p, rel)
}

/// Whether `keys` can be ordered by `ordering` without overflowing a `u32` position or rank.
pub open spec fn orderable(ordering: MappingOrder, keys: Seq<Seq<char>>) -> bool {
    &&& keys.len() <= u32::MAX
    &&& ordering matches MappingOrder::Table(table) ==> forall|i: int|
        0 <= i < keys.len() ==> rank_fits(table@, #[trigger] keys[i])
}

/// One mapping's ordering, as a window into the run's shared stacks.
///
/// Not `Copy`, and [`Session::end`] consumes it, so a frame cannot outlive its mapping.
#[derive(Debug)]
pub struct Frame {
    start: usize,
    len: usize,
}

impl Frame {
    /// Where the frame starts in the session's stacks.
    pub closed spec fn begin(&self) -> int {
        self.start as int
    }

    /// How many entries the frame covers.
    pub closed spec fn count(&self) -> int {
        self.len as int
    }

    /// How many entries this frame covers.
    pub fn len(&self) -> (len: usize)
        ensures
            len == self.count(),
    {
        self.len
    }

    /// Whether the frame covers no entries. Never true in practice: a frame exists only for a
    /// mapping that needed reordering, which takes at least two entries.
    pub fn is_empty(&self) -> (empty: bool)
        ensures
            empty == (self.count() == 0),
    {
        self.len == 0
    }
}

/// Per-run ordering state. See the module docs for the buffer and borrow discipline.
#[derive(Debug)]
pub struct Session<'a> {
    /// Ancestry of the mapping being printed, root first, INCLUDING its own step.
    ancestry: Vec<Step<'a>>,
    /// Keys of the mapping currently being resolved. Live only between the
    /// [`Session::push_key`] run and the [`Session::permute`] that consumes them.
    keys: Vec<&'a str>,
    /// Concatenated permutations, innermost frame last.
    permutations: Vec<u32>,
    /// Concatenated blank-line snapshots, innermost frame last, indexed by SOURCE position within
    /// the frame.
    blanks: Vec<bool>,
    scratch: Scratch,
}

impl<'a> Session<'a> {
    /// The ancestry of the mapping being printed, root first, including its own step.
    pub closed spec fn ancestry_view(&self) -> Seq<Step<'a>> {
        self.ancestry@
    }

    /// The strings pushed for the mapping being resolved, in source order.
    pub closed spec fn keys_view(&self) -> Seq<Seq<char>> {
        self.keys.deep_view()
    }

    /// The concatenated permutations of every open frame.
    pub closed spec fn permutations_view(&self) -> Seq<u32> {
        self.permutations@
    }

    /// The concatenated blank-line snapshots of every open frame.
    pub closed spec fn blanks_view(&self) -> Seq<bool> {
        self.blanks@
    }

    /// `frame`'s window of the permutation stack: in range, and a permutation of its positions.
    pub open spec fn frame_valid(&self, frame: &Frame) -> bool {
        &&& 0 <= frame.begin()
        &&& frame.begin() + frame.count() <= self.permutations_view().len()
        &&& is_permutation(
            self.permutations_view().subrange(frame.begin(), frame.begin() + frame.count()),
            frame.count(),
        )
    }

    /// The table that orders the mapping at `ancestry`: the root's behind the content gate,
    /// every other mapping's by the rule.
    pub open spec fn table_at(
        policy: PolicyView,
        ancestry: Seq<Step>,
        is_openapi_root: bool,
    ) -> Option<Seq<Seq<char>>> {
        if ancestry.len() == 0 {
            resolved_root(policy, is_openapi_root)
        } else {
            resolved(policy, ancestry)
        }
    }

    /// Whether the table [`Session::table_at`] picks is a `keyOrder` override rather than a
    /// built-in table.
    pub open spec fn table_by_override(
        policy: PolicyView,
        ancestry: Seq<Step>,
        is_openapi_root: bool,
    ) -> bool {
        if ancestry.len() == 0 {
            is_openapi_root && last_override(policy.0, "root"@) is Some
        } else {
            resolved_by_override(policy, ancestry)
        }
    }

    /// A fresh session: empty ancestry, no pushed keys, no open frame.
    pub fn new() -> (session: Self)
        ensures
            session.ancestry_view().len() == 0,
            session.keys_view().len() == 0,
            session.permutations_view().len() == 0,
            session.blanks_view().len() == 0,
    {
        let session = Session {
            ancestry: Vec::new(),
            keys: Vec::new(),
            permutations: Vec::new(),
            blanks: Vec::new(),
            scratch: Scratch::new(),
        };
        assert(session.keys.deep_view() =~= Seq::<Seq<char>>::empty());
        session
    }

    /// Current ancestry depth.
    pub fn depth(&self) -> (depth: usize)
        ensures
            depth == self.ancestry_view().len(),
    {
        self.ancestry.len()
    }

    /// Append an ancestry step, returning the depth its [`Session::pop_step`] must be given.
    ///
    /// The balance requirement lives here rather than in each backend: a print site that recursed
    /// and leaked a step cannot hand back the right depth.
    pub fn push_step(&mut self, step: Step<'a>) -> (depth: usize)
        requires
            old(self).ancestry_view().len() < usize::MAX,
        ensures
            final(self).ancestry_view() == old(self).ancestry_view().push(step),
            depth == final(self).ancestry_view().len(),
            final(self).keys_view() == old(self).keys_view(),
            final(self).permutations_view() == old(self).permutations_view(),
            final(self).blanks_view() == old(self).blanks_view(),
    {
        self.ancestry.push(step);
        self.ancestry.len()
    }

    /// Remove the step whose [`Session::push_step`] returned `depth`.
    pub fn pop_step(&mut self, depth: usize)
        requires
            old(self).ancestry_view().len() == depth,
        ensures
            final(self).ancestry_view() == if depth > 0 {
                old(self).ancestry_view().drop_last()
            } else {
                old(self).ancestry_view()
            },
            final(self).keys_view() == old(self).keys_view(),
            final(self).permutations_view() == old(self).permutations_view(),
            final(self).blanks_view() == old(self).blanks_view(),
    {
        self.ancestry.pop();
    }

    /// The table that orders the mapping at the current ancestry, or `None` to keep source order.
    ///
    /// An empty ancestry is the document root, which needs the caller's content gate:
    /// `is_openapi_root` says whether the root has an `openapi` key.
    pub fn table<'o>(&self, options: &Options<'o>, is_openapi_root: bool) -> (table: Option<
        Table<'o>,
    >)
        ensures
            table_view(table) == Self::table_at(options@, self.ancestry_view(), is_openapi_root),
            table matches Some(Table::User(_)) <==> Self::table_by_override(
                options@,
                self.ancestry_view(),
                is_openapi_root,
            ),
    {
        if self.ancestry.len() == 0 {
            return resolve_root(options, is_openapi_root);
        }
        resolve(options, self.ancestry.as_slice())
    }

    /// Whether the mapping at the current ancestry is the `paths` mapping, and so is ordered by
    /// the `paths` sub-option rather than by a table.
    pub fn is_paths_mapping(&self) -> (is: bool)
        ensures
            is == paths_mapping(self.ancestry_view()),
    {
        is_paths_mapping(self.ancestry.as_slice())
    }

    /// Add the next string the mapping is ordered BY, in SOURCE order.
    ///
    /// Usually the entry's key text. Under [`MappingOrder::Tags`] it is the entry's tag key
    /// instead, because that ordering does not look at the keys at all.
    pub fn push_key(&mut self, key: &'a str)
        ensures
            final(self).keys_view() == old(self).keys_view().push(key@),
            final(self).ancestry_view() == old(self).ancestry_view(),
            final(self).permutations_view() == old(self).permutations_view(),
            final(self).blanks_view() == old(self).blanks_view(),
    {
        let ghost before = self.keys.deep_view();
        self.keys.push(key);
        assert(self.keys.deep_view() =~= before.push(key@));
    }

    /// How the mapping at the current ancestry is ordered, or `None` to keep source order.
    ///
    /// The one place the `paths` sub-option is weighed against the tables. An explicit `paths`
    /// order wins for the `paths` mapping: no built-in table names `paths`, so the two can only
    /// meet when a `keyOrder` override names it too, and then the purpose-built option is the more
    /// specific answer.
    ///
    /// An empty ancestry is the document root, which needs the caller's content gate:
    /// `is_openapi_root` says whether the root has an `openapi` key.
    pub fn ordering<'o>(&self, sort: &'o SortOpenapi, is_openapi_root: bool) -> (ordering: Option<
        MappingOrder<'o>,
    >)
        ensures
            chosen(ordering, *sort, self.ancestry_view(), is_openapi_root),
    {
        if self.is_paths_mapping() {
            match sort.paths {
                PathsOrder::Path => return Some(MappingOrder::Path),
                PathsOrder::Tags => return Some(MappingOrder::Tags),
                PathsOrder::Original => {},
            }
        }
        match self.table(&sort.options(), is_openapi_root) {
            Some(table) => Some(MappingOrder::Table(table)),
            None => None,
        }
    }

    /// Consume the pushed strings and open a frame, or `None` when they are already ordered.
    ///
    /// The buffer is cleared either way. On `Some`, the caller must push exactly [`Frame::len`]
    /// blank-line flags with [`Session::push_blank`] before reading the frame back.
    pub fn permute(&mut self, ordering: MappingOrder<'_>) -> (frame: Option<Frame>)
        requires
            orderable(ordering, old(self).keys_view()),
            !identity_sorted(
                old(self).keys_view().len() as int,
                order_relation(ordering, old(self).keys_view()),
            ) ==> old(self).blanks_view().len() == old(self).permutations_view().len(),
        ensures
            final(self).keys_view().len() == 0,
            final(self).ancestry_view() == old(self).ancestry_view(),
            final(self).blanks_view() == old(self).blanks_view(),
            ({
                let n = old(self).keys_view().len() as int;
                let rel = order_relation(ordering, old(self).keys_view());
                match frame {
                    None => identity_sorted(n, rel) && final(self).permutations_view() == old(
                        self,
                    ).permutations_view(),
                    Some(f) => opened(
                        old(self).permutations_view(),
                        final(self).permutations_view(),
                        f,
                        rel,
                        n,
                    ) && final(self).frame_valid(&f),
                }
            }),
    {
        let Session { keys, scratch, permutations, blanks, .. } = self;
        let ghost names = keys.deep_view();
        let ghost before = permutations@;
        proof {
            assert forall|i: int| 0 <= i < keys@.len() implies names[i] == #[trigger] keys@[i]@ by {}
        }
        let order = match ordering {
            MappingOrder::Table(table) => permutation(table, keys.as_slice(), scratch),
            MappingOrder::Path => order_by_path(keys.as_slice(), scratch),
            MappingOrder::Tags => order_by_tags(keys.as_slice(), scratch),
        };
        let frame = match order {
            Some(order) => {
                let start = permutations.len();
                let mut i: usize = 0;
                while i < order.len()
                    invariant
                        i <= order@.len(),
                        permutations@ == before + order@.take(i as int),
                    decreases order@.len() - i,
                {
                    permutations.push(order[i]);
                    assert(order@.take(i + 1) =~= order@.take(i as int).push(order@[i as int]));
                    i = i + 1;
                }
                assert(order@.take(order@.len() as int) =~= order@);
                assert(permutations@.subrange(before.len() as int, permutations@.len() as int)
                    =~= order@);
                assert(permutations@.take(before.len() as int) =~= before);
                Some(Frame { start, len: order.len() })
            },
            None => None,
        };
        keys.clear();
        assert(keys.deep_view() =~= Seq::<Seq<char>>::empty());
        frame
    }

    /// Record whether a blank line preceded the next entry, in SOURCE order.
    pub fn push_blank(&mut self, frame: &Frame, blank: bool)
        requires
            frame.begin() <= old(self).blanks_view().len() < frame.begin() + frame.count(),
        ensures
            final(self).blanks_view() == old(self).blanks_view().push(blank),
            final(self).ancestry_view() == old(self).ancestry_view(),
            final(self).keys_view() == old(self).keys_view(),
            final(self).permutations_view() == old(self).permutations_view(),
    {
        self.blanks.push(blank);
    }

    /// The source index of the entry to print at output `position`.
    pub fn source_index(&self, frame: &Frame, position: usize) -> (index: usize)
        requires
            position < frame.count(),
            0 <= frame.begin(),
            frame.begin() + frame.count() <= self.permutations_view().len(),
        ensures
            index == self.permutations_view()[frame.begin() + position],
    {
        let _ = self.permutations.len();
        self.permutations[frame.start + position] as usize
    }

    /// Whether a blank line preceded the entry now at `position`, as measured in SOURCE order
    /// before anything moved. A blank line travels with its entry.
    pub fn blank_before(&self, frame: &Frame, position: usize) -> (blank: bool)
        requires
            self.frame_valid(frame),
            position < frame.count(),
            self.blanks_view().len() == frame.begin() + frame.count(),
        ensures
            blank == self.blanks_view()[frame.begin() + self.permutations_view()[frame.begin()
                + position]],
    {
        let index = self.source_index(frame, position);
        let _ = self.permutations.len();
        proof {
            let window = self.permutations@.subrange(
                frame.start as int,
                frame.start + frame.len,
            );
            assert(window[position as int] == self.permutations@[frame.start + position]);
        }
        self.blanks[frame.start + index]
    }

    /// Drop the frame. Must be called on every path out of the mapping that opened it.
    pub fn end(&mut self, frame: Frame)
        requires
            old(self).permutations_view().len() == frame.begin() + frame.count(),
        ensures
            final(self).permutations_view() == old(self).permutations_view().take(frame.begin()),
            final(self).blanks_view() == if old(self).blanks_view().len() > frame.begin() {
                old(self).blanks_view().take(frame.begin())
            } else {
                old(self).blanks_view()
            },
            final(self).ancestry_view() == old(self).ancestry_view(),
            final(self).keys_view() == old(self).keys_view(),
    {
        self.permutations.truncate(frame.start);
        self.blanks.truncate(frame.start);
    }
}

impl<'a> Default for Session<'a> {
    fn default() -> (session: Self)
        ensures
            session.ancestry_view().len() == 0,
            session.keys_view().len() == 0,
            session.permutations_view().len() == 0,
            session.blanks_view().len() == 0,
    {
        Session::new()
    }
}

/// Ending a frame restores the permutation stack to what it was before the frame was opened:
/// whatever `permute` appended, `end` removes, so nested mappings unwind cleanly.
pub proof fn lemma_end_undoes_permute(before: Seq<u32>, appended: Seq<u32>)
    ensures
        (before + appended).take(before.len() as int) == before,
{
    assert((before + appended).take(before.len() as int) =~= before);
}

/// Popping the step a push added restores the ancestry.
pub proof fn lemma_pop_undoes_push<'a>(ancestry: Seq<Step<'a>>, step: Step<'a>)
    ensures
        ancestry.push(step).drop_last() == ancestry,
{
    assert(ancestry.push(step).drop_last() =~= ancestry);
}

} // verus!

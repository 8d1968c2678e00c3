//! Turning a table plus a mapping's keys into a permutation.

use vstd::prelude::*;

use crate::compare::{lemma_lowercase_order_laws, lower_units, lowercase_order, lowercase_units};
use crate::lex::{Order, compare_units, reversed};
use crate::tables::{Table, rank_fits, rank_of};

verus! {

/// `p` is a permutation of `0..n`: `n` distinct indices, each below `n`.
pub open spec fn is_permutation(p: Seq<u32>, n: int) -> bool {
    &&& p.len() == n
    &&& forall|i: int| 0 <= i < n ==> p[i] < n
    &&& forall|i: int, j: int| 0 <= i < j < n ==> p[i] != p[j]
}

/// `order` is a strict total order on the indices `0..n`: it ties an index only with itself,
/// swapping its arguments reverses it, and `Less` is transitive.
pub open spec fn total_order_on(order: spec_fn(u32, u32) -> Order, n: int) -> bool {
    &&& forall|i: u32, j: u32|
        i < n && j < n ==> ((#[trigger] order(i, j) == Order::Equal) <==> i == j)
    &&& forall|i: u32, j: u32| i < n && j < n ==> #[trigger] order(j, i) == reversed(order(i, j))
    &&& forall|i: u32, j: u32, k: u32|
        i < n && j < n && k < n && #[trigger] order(i, j) == Order::Less && #[trigger] order(j, k)
            == Order::Less ==> order(i, k) == Order::Less
}

/// Every earlier entry of `p` sorts strictly before every later one.
pub open spec fn sorted_by(p: Seq<u32>, order: spec_fn(u32, u32) -> Order) -> bool {
    forall|a: int, b: int| 0 <= a < b < p.len() ==> #[trigger] order(p[a], p[b]) == Order::Less
}

/// `0..n` is already in `order`: every smaller index sorts strictly first.
pub open spec fn identity_sorted(n: int, order: spec_fn(u32, u32) -> Order) -> bool {
    forall|i: u32, j: u32| i < j < n ==> #[trigger] order(i, j) == Order::Less
}

/// What `order_into` hands back: `None` when `0..n` is already ordered, else the ordering
/// permutation.
pub open spec fn ordering_result(result: Option<Seq<u32>>, n: int, order: spec_fn(u32, u32) -> Order) -> bool {
    match result {
        None => identity_sorted(n, order),
        Some(p) => !identity_sorted(n, order) && is_permutation(p, n) && sorted_by(p, order),
    }
}

/// The indices a result holds, if any.
pub open spec fn slice_view(result: Option<&[u32]>) -> Option<Seq<u32>> {
    match result {
        Some(p) => Some(p@),
        None => None,
    }
}

/// Sentinel rank for a key the table does not list. Ranked keys always precede unranked
/// ones, so this must compare greater than every real rank.
pub const UNRANKED: u32 = 4294967295u32;

/// The rank a key sorts by: its table position, or [`UNRANKED`].
pub open spec fn sort_rank(table: Seq<Seq<char>>, key: Seq<char>) -> u32 {
    match rank_of(table, key) {
        Some(r) => r,
        None => UNRANKED,
    }
}

/// The order a table puts two keys of a mapping in: ranked keys first in table order, then
/// unranked keys compared case-insensitively, then ties broken by source position.
pub open spec fn key_order(table: Seq<Seq<char>>, keys: Seq<Seq<char>>) -> spec_fn(u32, u32) -> Order {
    |i: u32, j: u32|
        {
            let (ri, rj) = (sort_rank(table, keys[i as int]), sort_rank(table, keys[j as int]));
            if ri < rj {
                Order::Less
            } else if ri > rj {
                Order::Greater
            } else {
                let o = lowercase_order(keys[i as int], keys[j as int]);
                if o != Order::Equal {
                    o
                } else if i < j {
                    Order::Less
                } else if i > j {
                    Order::Greater
                } else {
                    Order::Equal
                }
            }
        }
}

/// The table order on a mapping's keys is a strict total order on their positions.
pub proof fn lemma_key_order_total(table: Seq<Seq<char>>, keys: Seq<Seq<char>>)
    ensures
        total_order_on(key_order(table, keys), keys.len() as int),
{
    let order = key_order(table, keys);
    let n = keys.len() as int;
    assert forall|i: u32, j: u32| i < n && j < n implies ((#[trigger] order(i, j) == Order::Equal)
        <==> i == j) by {
        lemma_lowercase_order_laws(keys[i as int], keys[j as int], keys[i as int]);
    }
    assert forall|i: u32, j: u32| i < n && j < n implies #[trigger] order(j, i) == reversed(
        order(i, j),
    ) by {
        lemma_lowercase_order_laws(keys[i as int], keys[j as int], keys[i as int]);
    }
    assert forall|i: u32, j: u32, k: u32|
        i < n && j < n && k < n && #[trigger] order(i, j) == Order::Less && #[trigger] order(j, k)
            == Order::Less implies order(i, k) == Order::Less by {
        lemma_lowercase_order_laws(keys[i as int], keys[j as int], keys[k as int]);
        lemma_lowercase_order_laws(keys[i as int], keys[k as int], keys[j as int]);
        lemma_lowercase_order_laws(keys[j as int], keys[k as int], keys[i as int]);
    }
}

/// The keys of a mapping in the order `p` prints them.
pub open spec fn reordered(keys: Seq<Seq<char>>, p: Seq<u32>) -> Seq<Seq<char>> {
    Seq::new(p.len(), |i: int| keys[p[i] as int])
}

/// Ordering by a table is idempotent: once a mapping's keys are printed in the order the table
/// gives them, the same table finds them already ordered, so formatting the output again moves
/// nothing.
pub proof fn lemma_table_order_idempotent(
    table: Seq<Seq<char>>,
    keys: Seq<Seq<char>>,
    p: Seq<u32>,
)
    requires
        is_permutation(p, keys.len() as int),
        sorted_by(p, key_order(table, keys)),
    ensures
        identity_sorted(keys.len() as int, key_order(table, reordered(keys, p))),
{
    let n = keys.len() as int;
    let after = reordered(keys, p);
    assert forall|i: u32, j: u32| i < j < n implies #[trigger] key_order(table, after)(i, j)
        == Order::Less by {
        assert(key_order(table, keys)(p[i as int], p[j as int]) == Order::Less);
        assert(after[i as int] == keys[p[i as int] as int]);
        assert(after[j as int] == keys[p[j as int] as int]);
        assert(p[i as int] != p[j as int]);
    }
}

/// Reusable buffers for one format run.
///
/// A document can hold hundreds of thousands of mappings; allocating per mapping would
/// dominate the cost. The buffers grow to the widest mapping seen and are then reused.
#[derive(Debug)]
pub struct Scratch {
    ranks: Vec<u32>,
    units: Vec<Vec<u16>>,
    order: Vec<u32>,
}

impl Scratch {
    /// The rank buffer's contents.
    pub closed spec fn ranks_view(&self) -> Seq<u32> {
        self.ranks@
    }

    /// The number of lowercase-unit buffers held.
    pub closed spec fn units_len(&self) -> nat {
        self.units@.len()
    }

    /// The output buffer's contents.
    pub closed spec fn order_view(&self) -> Seq<u32> {
        self.order@
    }

    /// A fresh, empty scratch.
    pub fn new() -> (scratch: Self)
        ensures
            scratch.ranks_view().len() == 0,
            scratch.units_len() == 0,
            scratch.order_view().len() == 0,
    {
        Scratch { ranks: Vec::new(), units: Vec::new(), order: Vec::new() }
    }

    /// The output buffer, for orderings that need no rank pass: a borrow of it as it stands,
    /// through which the scratch's output buffer, and nothing else of it, changes.
    pub(crate) fn order_buffer(&mut self) -> (buffer: &mut Vec<u32>)
        ensures
            buffer@ == old(self).order_view(),
            final(self).order_view() == final(buffer)@,
            final(self).ranks_view() == old(self).ranks_view(),
            final(self).units_len() == old(self).units_len(),
    {
        &mut self.order
    }
}

impl Default for Scratch {
    fn default() -> (scratch: Self) {
        Scratch::new()
    }
}

/// The number of entries as a `u32`.
pub fn checked_len(len: usize) -> (checked: u32)
    requires
        len <= u32::MAX,
    ensures
        checked == len,
{
    len as u32
}

/// Whether `0..len` is already in `order`, asking `compare` about adjacent pairs only.
///
/// With the source index as the final tiebreak, an adjacent pair compares `Greater` only
/// when it genuinely needs swapping, so this is an exact "is it sorted" test.
fn is_ordered<F: Fn(u32, u32) -> Order>(
    len: u32,
    compare: &F,
    Ghost(order): Ghost<spec_fn(u32, u32) -> Order>,
) -> (ordered: bool)
    requires
        total_order_on(order, len as int),
        forall|i: u32, j: u32| i < len && j < len ==> compare.requires((i, j)),
        forall|i: u32, j: u32, o: Order| compare.ensures((i, j), o) ==> o == order(i, j),
    ensures
        ordered == identity_sorted(len as int, order),
{
    if len < 2 {
        return true;
    }
    let mut index: u32 = 1;
    while index < len
        invariant
            1 <= index <= len,
            total_order_on(order, len as int),
            forall|i: u32, j: u32| i < len && j < len ==> compare.requires((i, j)),
            forall|i: u32, j: u32, o: Order| compare.ensures((i, j), o) ==> o == order(i, j),
            identity_sorted(index as int, order),
        decreases len - index,
    {
        let answer = compare(index - 1, index);
        match answer {
            Order::Greater => {
                return false;
            },
            _ => {},
        }
        assert(order(sub1(index), index) == Order::Less);
        assert forall|i: u32, j: u32| i < j < index + 1 implies #[trigger] order(i, j)
            == Order::Less by {
            if j == index && i < sub1(index) {
                assert(order(i, sub1(index)) == Order::Less);
            }
        }
        index = index + 1;
    }
    true
}

/// `i - 1` for a positive index.
pub open spec fn sub1(i: u32) -> u32 {
    (i - 1) as u32
}

/// Sorts `order`, which holds `0..len`, into `order` by adjacent swaps.
fn insertion_sort<F: Fn(u32, u32) -> Order>(
    order: &mut Vec<u32>,
    len: u32,
    compare: &F,
    Ghost(rel): Ghost<spec_fn(u32, u32) -> Order>,
)
    requires
        is_permutation(old(order)@, len as int),
        total_order_on(rel, len as int),
        forall|i: u32, j: u32| i < len && j < len ==> compare.requires((i, j)),
        forall|i: u32, j: u32, o: Order| compare.ensures((i, j), o) ==> o == rel(i, j),
    ensures
        is_permutation(final(order)@, len as int),
        sorted_by(final(order)@, rel),
{
    let n = order.len();
    let mut i: usize = 1;
    while i < n
        invariant
            n == order@.len(),
            n == len,
            1 <= i || n == 0,
            i <= n || n == 0,
            is_permutation(order@, len as int),
            total_order_on(rel, len as int),
            forall|i: u32, j: u32| i < len && j < len ==> compare.requires((i, j)),
            forall|i: u32, j: u32, o: Order| compare.ensures((i, j), o) ==> o == rel(i, j),
            forall|a: int, b: int| 0 <= a < b < i ==> #[trigger] rel(order@[a], order@[b])
                == Order::Less,
        decreases n - i,
    {
        let mut j: usize = i;
        while j > 0
            invariant
                n == order@.len(),
                n == len,
                0 <= j <= i < n,
                is_permutation(order@, len as int),
                total_order_on(rel, len as int),
                forall|i: u32, j: u32| i < len && j < len ==> compare.requires((i, j)),
                forall|i: u32, j: u32, o: Order| compare.ensures((i, j), o) ==> o == rel(i, j),
                forall|a: int, b: int|
                    0 <= a < b <= i && a != j && b != j ==> #[trigger] rel(order@[a], order@[b])
                        == Order::Less,
                forall|b: int| j < b <= i ==> #[trigger] rel(order@[j as int], order@[b])
                    == Order::Less,
            ensures
                n == order@.len(),
                is_permutation(order@, len as int),
                forall|a: int, b: int| 0 <= a < b <= i ==> #[trigger] rel(order@[a], order@[b])
                    == Order::Less,
            decreases j,
        {
            let left = order[j - 1];
            let right = order[j];
            let answer = compare(left, right);
            let swap = match answer {
                Order::Greater => true,
                _ => false,
            };
            if !swap {
                assert(rel(left, right) == Order::Less) by {
                    assert(left != right);
                }
                assert forall|a: int, b: int| 0 <= a < b <= i implies #[trigger] rel(
                    order@[a],
                    order@[b],
                ) == Order::Less by {
                    if b == j && a < j - 1 {
                        assert(rel(order@[a], left) == Order::Less);
                    } else if a == j && b > j {
                    } else if b == j && a == j - 1 {
                    } else if a == j - 1 && b > j {
                        assert(rel(left, right) == Order::Less);
                        assert(rel(right, order@[b]) == Order::Less);
                    }
                }
                break;
            }
            let ghost before = order@;
            order.set(j - 1, right);
            order.set(j, left);
            assert(rel(right, left) == Order::Less);
            assert forall|x: int, y: int| 0 <= x < y < len implies order@[x] != order@[y] by {
                assert(before[x] != before[y] || x == y);
                if x == j - 1 && y == j as int {
                } else if x == j - 1 {
                    assert(before[j as int] != before[y]);
                } else if x == j as int {
                    assert(before[j - 1] != before[y]);
                } else if y == j - 1 {
                    assert(before[x] != before[j as int]);
                } else if y == j as int {
                    assert(before[x] != before[j - 1]);
                }
            }
            assert forall|b: int| j - 1 < b <= i implies #[trigger] rel(order@[j - 1], order@[b])
                == Order::Less by {
                if b > j {
                    assert(rel(right, before[b]) == Order::Less);
                }
            }
            assert forall|a: int, b: int|
                0 <= a < b <= i && a != j - 1 && b != j - 1 implies #[trigger] rel(
                order@[a],
                order@[b],
            ) == Order::Less by {
                if a == j as int {
                    assert(rel(before[j - 1], before[b]) == Order::Less);
                } else if b == j as int {
                    assert(rel(before[a], before[j - 1]) == Order::Less);
                } else {
                    assert(rel(before[a], before[b]) == Order::Less);
                }
            }
            j = j - 1;
        }
        i = i + 1;
    }
}

/// Fill `order` with the permutation of `0..len` that `compare` asks for, or leave it alone
/// and answer `None` when `0..len` is already ordered.
///
/// `compare` must be a strict total order on `0..len`, given as `order` to the verifier: the
/// source index as a final tiebreak supplies totality and antisymmetry, and the base comparison
/// must be transitive.
pub fn order_into<'o, F: Fn(u32, u32) -> Order>(
    order: &'o mut Vec<u32>,
    len: u32,
    compare: F,
    Ghost(rel): Ghost<spec_fn(u32, u32) -> Order>,
) -> (sorted: Option<&'o [u32]>)
    requires
        total_order_on(rel, len as int),
        forall|i: u32, j: u32| i < len && j < len ==> compare.requires((i, j)),
        forall|i: u32, j: u32, o: Order| compare.ensures((i, j), o) ==> o == rel(i, j),
    ensures
        ordering_result(slice_view(sorted), len as int, rel),
        sorted is None ==> final(order)@ == old(order)@,
        sorted matches Some(p) ==> p@ == final(order)@,
{
    if is_ordered(len, &compare, Ghost(rel)) {
        return None;
    }
    order.clear();
    let mut next: u32 = 0;
    while next < len
        invariant
            next <= len,
            order@.len() == next,
            forall|k: int| 0 <= k < next ==> order@[k] == k,
        decreases len - next,
    {
        order.push(next);
        next = next + 1;
    }
    assert(is_permutation(order@, len as int));
    insertion_sort(order, len, &compare, Ghost(rel));
    Some(order.as_slice())
}

/// The permutation that puts `keys` in `table` order, or `None` when `keys` are already
/// ordered and no work is needed.
///
/// The returned slice is a permutation of `0..keys.len()`: element `i` is the index of the
/// key that belongs at output position `i`.
///
/// Ordering: ranked keys first in table order, then unranked keys compared
/// case-insensitively, then ties broken by source position ([`key_order`]). An empty table ranks
/// nothing, so it orders the whole mapping case-insensitively.
///
/// The already-ordered early-out costs one rank per key plus one comparison per adjacent pair.
pub fn permutation<'s>(table: Table<'_>, keys: &[&str], scratch: &'s mut Scratch) -> (result:
    Option<&'s [u32]>)
    requires
        keys@.len() <= u32::MAX,
        forall|i: int| 0 <= i < keys@.len() ==> rank_fits(table@, #[trigger] keys@[i]@),
    ensures
        ordering_result(slice_view(result), keys@.len() as int, key_order(table@, keys.deep_view())),
{
    let ghost names = keys.deep_view();
    if keys.len() < 2 {
        return None;
    }
    let len = checked_len(keys.len());

    // Split the borrow so the comparison can read the ranks while `order` is written.
    let Scratch { ranks, units, order } = scratch;

    // Rank and lowercase each key once, rather than inside the comparison.
    ranks.clear();
    units.clear();
    let mut k: usize = 0;
    while k < keys.len()
        invariant
            k <= keys@.len(),
            names == keys.deep_view(),
            forall|i: int| 0 <= i < keys@.len() ==> rank_fits(table@, #[trigger] keys@[i]@),
            ranks@.len() == k,
            units@.len() == k,
            forall|i: int| 0 <= i < k ==> #[trigger] ranks@[i] == sort_rank(table@, names[i]),
            forall|i: int| 0 <= i < k ==> #[trigger] units@[i]@ == lower_units(names[i]),
        decreases keys@.len() - k,
    {
        let key = keys[k];
        let rank = match table.rank(key) {
            Some(r) => r,
            None => UNRANKED,
        };
        ranks.push(rank);
        units.push(lowercase_units(key));
        k = k + 1;
    }
    let ranks = &*ranks;
    let units = &*units;
    let ghost order_spec = key_order(table@, names);
    let compare = |left: u32, right: u32| -> (o: Order)
        requires
            left < len,
            right < len,
        ensures
            o == order_spec(left, right),
        {
            let (l, r) = (left as usize, right as usize);
            if ranks[l] < ranks[r] {
                Order::Less
            } else if ranks[l] > ranks[r] {
                Order::Greater
            } else {
                let o = compare_units(units[l].as_slice(), units[r].as_slice());
                match o {
                    Order::Equal => {
                        if left < right {
                            Order::Less
                        } else if left > right {
                            Order::Greater
                        } else {
                            Order::Equal
                        }
                    },
                    _ => o,
                }
            }
        };
    proof {
        lemma_key_order_total(table@, names);
    }
    order_into(order, len, compare, Ghost(order_spec))
}

} // verus!

//! Lexicographic order on sequences of code units, and on sequences of such sequences.
//!
//! This is the order JavaScript's relational operators give strings once they are written as
//! UTF-16: the first differing unit decides, and a proper prefix sorts first.

use vstd::prelude::*;

verus! {

/// The outcome of comparing two values.
#[derive(Debug, Clone, Copy, PartialEq, Eq)]
pub enum Order {
    /// The first sorts before the second.
    Less,
    /// Neither sorts before the other.
    Equal,
    /// The first sorts after the second.
    Greater,
}

/// Lexicographic order on code-unit sequences.
pub open spec fn lex_order(a: Seq<u16>, b: Seq<u16>) -> Order
    decreases a.len(),
{
    if a.len() == 0 {
        if b.len() == 0 {
            Order::Equal
        } else {
            Order::Less
        }
    } else if b.len() == 0 {
        Order::Greater
    } else if a[0] < b[0] {
        Order::Less
    } else if a[0] > b[0] {
        Order::Greater
    } else {
        lex_order(a.drop_first(), b.drop_first())
    }
}

/// The order with its arguments swapped.
pub open spec fn reversed(o: Order) -> Order {
    match o {
        Order::Less => Order::Greater,
        Order::Equal => Order::Equal,
        Order::Greater => Order::Less,
    }
}

/// `Equal` exactly for equal sequences.
pub proof fn lemma_lex_equal(a: Seq<u16>, b: Seq<u16>)
    ensures
        (lex_order(a, b) == Order::Equal) <==> (a == b),
    decreases a.len(),
{
    if a.len() > 0 && b.len() > 0 && a[0] == b[0] {
        lemma_lex_equal(a.drop_first(), b.drop_first());
        if a.drop_first() == b.drop_first() {
            assert(a =~= seq![a[0]] + a.drop_first());
            assert(b =~= seq![b[0]] + b.drop_first());
        }
        if a == b {
            assert(a.drop_first() =~= b.drop_first());
        }
    } else if a.len() == 0 && b.len() == 0 {
        assert(a =~= b);
    } else if a == b {
        assert(a.len() == b.len());
        if a.len() > 0 {
            assert(a[0] == b[0]);
        }
    }
}

/// Swapping the arguments reverses the answer.
pub proof fn lemma_lex_antisymmetric(a: Seq<u16>, b: Seq<u16>)
    ensures
        lex_order(b, a) == reversed(lex_order(a, b)),
    decreases a.len(),
{
    if a.len() > 0 && b.len() > 0 && a[0] == b[0] {
        lemma_lex_antisymmetric(a.drop_first(), b.drop_first());
    }
}

/// `Less` is transitive.
pub proof fn lemma_lex_less_transitive(a: Seq<u16>, b: Seq<u16>, c: Seq<u16>)
    requires
        lex_order(a, b) == Order::Less,
        lex_order(b, c) == Order::Less,
    ensures
        lex_order(a, c) == Order::Less,
    decreases a.len(),
{
    if a.len() > 0 && b.len() > 0 && c.len() > 0 && a[0] == b[0] && b[0] == c[0] {
        lemma_lex_less_transitive(a.drop_first(), b.drop_first(), c.drop_first());
    }
}

/// The order facts a caller usually needs, in one place.
pub proof fn lemma_lex_total_order(a: Seq<u16>, b: Seq<u16>, c: Seq<u16>)
    ensures
        (lex_order(a, b) == Order::Equal) <==> (a == b),
        lex_order(b, a) == reversed(lex_order(a, b)),
        lex_order(a, b) == Order::Less && lex_order(b, c) == Order::Less ==> lex_order(a, c)
            == Order::Less,
{
    lemma_lex_equal(a, b);
    lemma_lex_antisymmetric(a, b);
    if lex_order(a, b) == Order::Less && lex_order(b, c) == Order::Less {
        lemma_lex_less_transitive(a, b, c);
    }
}

/// Lexicographic comparison of two code-unit slices.
pub fn compare_units(a: &[u16], b: &[u16]) -> (o: Order)
    ensures
        o == lex_order(a@, b@),
{
    let mut i: usize = 0;
    let ghost mut k: int = 0;
    assert(a@.skip(0) =~= a@);
    assert(b@.skip(0) =~= b@);
    while i < a.len() && i < b.len()
        invariant
            k == i,
            i <= a@.len(),
            i <= b@.len(),
            lex_order(a@, b@) == lex_order(a@.skip(k), b@.skip(k)),
        decreases a@.len() - i,
    {
        if a[i] < b[i] {
            return Order::Less;
        }
        if a[i] > b[i] {
            return Order::Greater;
        }
        assert(a@.skip(k).drop_first() =~= a@.skip(k + 1));
        assert(b@.skip(k).drop_first() =~= b@.skip(k + 1));
        i = i + 1;
        proof {
            k = k + 1;
        }
    }
    if i < a.len() {
        Order::Greater
    } else if i < b.len() {
        Order::Less
    } else {
        Order::Equal
    }
}

/// Lexicographic order on sequences of code-unit sequences, element by element.
pub open spec fn lex_list_order(a: Seq<Seq<u16>>, b: Seq<Seq<u16>>) -> Order
    decreases a.len(),
{
    if a.len() == 0 {
        if b.len() == 0 {
            Order::Equal
        } else {
            Order::Less
        }
    } else if b.len() == 0 {
        Order::Greater
    } else if lex_order(a[0], b[0]) != Order::Equal {
        lex_order(a[0], b[0])
    } else {
        lex_list_order(a.drop_first(), b.drop_first())
    }
}

/// The element-wise order is a total order too.
pub proof fn lemma_lex_list_total_order(a: Seq<Seq<u16>>, b: Seq<Seq<u16>>, c: Seq<Seq<u16>>)
    ensures
        (lex_list_order(a, b) == Order::Equal) <==> (a == b),
        lex_list_order(b, a) == reversed(lex_list_order(a, b)),
        lex_list_order(a, b) == Order::Less && lex_list_order(b, c) == Order::Less
            ==> lex_list_order(a, c) == Order::Less,
    decreases a.len(),
{
    if a.len() > 0 && b.len() > 0 && c.len() > 0 {
        lemma_lex_total_order(a[0], b[0], c[0]);
        lemma_lex_total_order(b[0], c[0], a[0]);
        lemma_lex_total_order(a[0], c[0], b[0]);
        lemma_lex_list_total_order(a.drop_first(), b.drop_first(), c.drop_first());
    } else if a.len() > 0 && b.len() > 0 {
        lemma_lex_total_order(a[0], b[0], a[0]);
        lemma_lex_list_total_order(a.drop_first(), b.drop_first(), a.drop_first());
    }
    if a.len() > 0 && b.len() > 0 {
        if a == b {
            assert(a.drop_first() =~= b.drop_first());
        }
        if a[0] == b[0] && a.drop_first() == b.drop_first() {
            assert(a =~= seq![a[0]] + a.drop_first());
            assert(b =~= seq![b[0]] + b.drop_first());
        }
    } else if a.len() == 0 && b.len() == 0 {
        assert(a =~= b);
    }
}

/// Element-wise lexicographic comparison of two lists of code-unit sequences.
pub fn compare_unit_lists(a: &Vec<Vec<u16>>, b: &Vec<Vec<u16>>) -> (o: Order)
    ensures
        o == lex_list_order(a.deep_view(), b.deep_view()),
{
    let ghost av = a.deep_view();
    let ghost bv = b.deep_view();
    let mut i: usize = 0;
    let ghost mut k: int = 0;
    assert(av.skip(0) =~= av);
    assert(bv.skip(0) =~= bv);
    while i < a.len() && i < b.len()
        invariant
            k == i,
            i <= a@.len(),
            i <= b@.len(),
            av == a.deep_view(),
            bv == b.deep_view(),
            lex_list_order(av, bv) == lex_list_order(av.skip(k), bv.skip(k)),
        decreases a@.len() - i,
    {
        assert(av[k] =~= a@[k]@);
        assert(bv[k] =~= b@[k]@);
        assert(av.skip(k)[0] == av[k]);
        assert(bv.skip(k)[0] == bv[k]);
        let o = compare_units(a[i].as_slice(), b[i].as_slice());
        match o {
            Order::Equal => {},
            _ => {
                return o;
            },
        }
        assert(av.skip(k).drop_first() =~= av.skip(k + 1));
        assert(bv.skip(k).drop_first() =~= bv.skip(k + 1));
        i = i + 1;
        proof {
            k = k + 1;
        }
    }
    if i < a.len() {
        Order::Greater
    } else if i < b.len() {
        Order::Less
    } else {
        Order::Equal
    }
}

} // verus!

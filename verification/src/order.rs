//! Losses and their stable ordering by value.
//!
//! Sorting keeps values that compare equal (the same number, or `+0.0` and
//! `-0.0`) in the order they came in, as a stable sort with an IEEE
//! comparison does.
use vstd::prelude::*;
use crate::ieee::{negate, order_key, spec_key, spec_neg};

verus! {

/// The values that share the order key `k`.
pub open spec fn key_class(k: int) -> spec_fn(u64) -> bool {
    |x: u64| spec_key(x) == k
}

/// `a` may stand before `b`: ascending, or descending when asked.
pub open spec fn in_order(a: u64, b: u64, descending: bool) -> bool {
    if descending {
        spec_key(b) <= spec_key(a)
    } else {
        spec_key(a) <= spec_key(b)
    }
}

/// Every earlier value may stand before every later one.
pub open spec fn is_sorted(s: Seq<u64>, descending: bool) -> bool {
    forall|i: int, j: int| 0 <= i < j < s.len() ==> in_order(#[trigger] s[i], #[trigger] s[j], descending)
}

/// Both sequences hold the same values of each key, in the same order.
pub open spec fn same_ties(a: Seq<u64>, b: Seq<u64>) -> bool {
    forall|k: int| #[trigger] a.filter(key_class(k)) == b.filter(key_class(k))
}

/// `out` is what a stable sort of `input` gives.
pub open spec fn is_stable_sort_of(out: Seq<u64>, input: Seq<u64>, descending: bool) -> bool {
    &&& out.len() == input.len()
    &&& is_sorted(out, descending)
    &&& same_ties(out, input)
}

/// Element-wise negation of a series.
pub open spec fn negated_seq(s: Seq<u64>) -> Seq<u64> {
    Seq::new(s.len(), |i: int| spec_neg(s[i]))
}

/// The losses of a return series: each return negated.
pub fn losses(series: &[u64]) -> (r: Vec<u64>)
    ensures
        r@ == negated_seq(series@),
{
    let n = series.len();
    let mut out: Vec<u64> = Vec::new();
    for i in 0..n
        invariant
            n == series@.len(),
            out@.len() == i,
            forall|j: int| 0 <= j < i ==> out@[j] == spec_neg(#[trigger] series@[j]),
    {
        out.push(negate(series[i]));
    }
    assert(out@ =~= negated_seq(series@));
    out
}

/// `a` must stand after `b` (strictly).
fn goes_after(a: u64, b: u64, descending: bool) -> (r: bool)
    ensures
        r == !in_order(a, b, descending),
{
    if descending {
        order_key(a) < order_key(b)
    } else {
        order_key(a) > order_key(b)
    }
}

proof fn lemma_singleton_filter(x: u64, pred: spec_fn(u64) -> bool)
    ensures
        seq![x].filter(pred) == if pred(x) {
            seq![x]
        } else {
            Seq::<u64>::empty()
        },
{
    reveal(Seq::filter);
    assert(seq![x].drop_last() =~= Seq::<u64>::empty());
    assert(Seq::<u64>::empty().filter(pred) =~= Seq::<u64>::empty());
}

proof fn lemma_filter_none(s: Seq<u64>, pred: spec_fn(u64) -> bool)
    requires
        forall|j: int| 0 <= j < s.len() ==> !pred(#[trigger] s[j]),
    ensures
        s.filter(pred) == Seq::<u64>::empty(),
    decreases s.len(),
{
    reveal(Seq::filter);
    if s.len() > 0 {
        lemma_filter_none(s.drop_last(), pred);
    }
}

/// Inserting `x` ahead of values of other keys adds it to the end of its own
/// key's class and leaves the other classes as they were.
proof fn lemma_insert_filter(s: Seq<u64>, p: int, x: u64, k: int)
    requires
        0 <= p <= s.len(),
        forall|j: int| p <= j < s.len() ==> spec_key(#[trigger] s[j]) != spec_key(x),
    ensures
        s.insert(p, x).filter(key_class(k)) == if spec_key(x) == k {
            s.filter(key_class(k)).push(x)
        } else {
            s.filter(key_class(k))
        },
{
    let pred = key_class(k);
    let a = s.take(p);
    let b = s.skip(p);
    assert(s.insert(p, x) =~= (a + seq![x]) + b);
    assert(s =~= a + b);
    Seq::filter_distributes_over_add(a + seq![x], b, pred);
    Seq::filter_distributes_over_add(a, seq![x], pred);
    Seq::filter_distributes_over_add(a, b, pred);
    lemma_singleton_filter(x, pred);
    if spec_key(x) == k {
        assert forall|j: int| 0 <= j < b.len() implies !pred(#[trigger] b[j]) by {
            assert(b[j] == s[p + j]);
        }
        lemma_filter_none(b, pred);
        assert(a.filter(pred) + seq![x] + b.filter(pred) =~= (a.filter(pred) + b.filter(pred)).push(x));
    } else {
        assert(a.filter(pred) + Seq::<u64>::empty() =~= a.filter(pred));
    }
}

fn stable_sort(values: &[u64], descending: bool) -> (out: Vec<u64>)
    ensures
        is_stable_sort_of(out@, values@, descending),
{
    let n = values.len();
    let mut out: Vec<u64> = Vec::new();
    assert(out@ =~= values@.take(0));
    for i in 0..n
        invariant
            n == values@.len(),
            out@.len() == i,
            is_sorted(out@, descending),
            same_ties(out@, values@.take(i as int)),
    {
        let x = values[i];
        let mut p = out.len();
        while p > 0 && goes_after(out[p - 1], x, descending)
            invariant
                p <= out@.len(),
                forall|j: int| p <= j < out@.len() ==> !in_order(#[trigger] out@[j], x, descending),
            decreases p,
        {
            p = p - 1;
        }
        let ghost old_out = out@;
        proof {
            assert forall|j: int| 0 <= j < p implies in_order(#[trigger] old_out[j], x, descending) by {
                if j < p - 1 {
                    assert(in_order(old_out[j], old_out[p - 1], descending));
                }
            }
            assert forall|k: int| #[trigger] old_out.insert(p as int, x).filter(key_class(k))
                == values@.take(i + 1).filter(key_class(k)) by {
                lemma_insert_filter(old_out, p as int, x, k);
                assert(values@.take(i + 1) =~= values@.take(i as int).push(x));
                values@.take(i as int).lemma_filter_push(x, key_class(k));
            }
            old_out.insert_ensures(p as int, x);
        }
        out.insert(p, x);
        proof {
            assert forall|a: int, b: int| 0 <= a < b < out@.len() implies in_order(
                #[trigger] out@[a],
                #[trigger] out@[b],
                descending,
            ) by {
                if b < p {
                } else if b == p {
                } else if a < p {
                    assert(out@[b] == old_out[b - 1]);
                    assert(in_order(old_out[a], x, descending));
                } else if a == p {
                    assert(out@[b] == old_out[b - 1]);
                } else {
                    assert(out@[a] == old_out[a - 1]);
                    assert(out@[b] == old_out[b - 1]);
                }
            }
        }
    }
    assert(values@.take(n as int) =~= values@);
    out
}

/// Sorts values from the smallest to the largest, keeping ties in input order.
pub fn sort_ascending(values: &[u64]) -> (out: Vec<u64>)
    ensures
        is_stable_sort_of(out@, values@, false),
{
    stable_sort(values, false)
}

/// Sorts values from the largest to the smallest, keeping ties in input order.
pub fn sort_descending(values: &[u64]) -> (out: Vec<u64>)
    ensures
        is_stable_sort_of(out@, values@, true),
{
    stable_sort(values, true)
}

proof fn lemma_last_key_in_other(a: Seq<u64>, b: Seq<u64>, descending: bool)
    requires
        a.len() > 0,
        a.len() == b.len(),
        is_sorted(b, descending),
        same_ties(a, b),
    ensures
        in_order(a.last(), b.last(), descending),
{
    let x = a.last();
    let pred = key_class(spec_key(x));
    a.lemma_filter_contains(pred, a.len() - 1);
    assert(a.filter(pred) == b.filter(pred));
    b.lemma_filter_contains_rev(pred, x);
    let j = choose|j: int| 0 <= j < b.len() && b[j] == x;
    if j < b.len() - 1 {
        assert(in_order(b[j], b[b.len() - 1], descending));
    }
}

proof fn lemma_sorted_same_ties_equal(a: Seq<u64>, b: Seq<u64>, descending: bool)
    requires
        a.len() == b.len(),
        is_sorted(a, descending),
        is_sorted(b, descending),
        same_ties(a, b),
    ensures
        a == b,
    decreases a.len(),
{
    if a.len() == 0 {
        assert(a =~= b);
    } else {
        let x = a.last();
        let y = b.last();
        lemma_last_key_in_other(a, b, descending);
        assert forall|k: int| #[trigger] b.filter(key_class(k)) == a.filter(key_class(k)) by {
            assert(a.filter(key_class(k)) == b.filter(key_class(k)));
        }
        lemma_last_key_in_other(b, a, descending);
        assert(spec_key(x) == spec_key(y));
        let ra = a.drop_last();
        let rb = b.drop_last();
        assert(ra.push(x) =~= a);
        assert(rb.push(y) =~= b);
        assert forall|k: int| #[trigger] ra.filter(key_class(k)) == rb.filter(key_class(k)) by {
            ra.lemma_filter_push(x, key_class(k));
            rb.lemma_filter_push(y, key_class(k));
            assert(a.filter(key_class(k)) == b.filter(key_class(k)));
            if spec_key(x) == k {
                assert(ra.filter(key_class(k)) =~= a.filter(key_class(k)).drop_last());
                assert(rb.filter(key_class(k)) =~= b.filter(key_class(k)).drop_last());
            }
        }
        assert(x == y) by {
            let pred = key_class(spec_key(x));
            ra.lemma_filter_push(x, pred);
            rb.lemma_filter_push(y, pred);
            assert(a.filter(pred) == b.filter(pred));
            assert(a.filter(pred).last() == x);
        }
        lemma_sorted_same_ties_equal(ra, rb, descending);
    }
}

/// A stable sort has exactly one outcome: any two results of sorting the
/// same values the same way are equal.
pub proof fn lemma_stable_sort_unique(input: Seq<u64>, a: Seq<u64>, b: Seq<u64>, descending: bool)
    requires
        is_stable_sort_of(a, input, descending),
        is_stable_sort_of(b, input, descending),
    ensures
        a == b,
{
    assert forall|k: int| #[trigger] a.filter(key_class(k)) == b.filter(key_class(k)) by {
        assert(a.filter(key_class(k)) == input.filter(key_class(k)));
        assert(b.filter(key_class(k)) == input.filter(key_class(k)));
    }
    lemma_sorted_same_ties_equal(a, b, descending);
}

} // verus!

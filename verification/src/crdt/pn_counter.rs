//! Grow-only counter: one slot per node, read as the sum of the slots.

use vstd::prelude::*;
use crate::types::{EntryValue, EntryValueView};
use crate::vector_clock::clock_increment;

verus! {

/// The sum of all slots.
pub open spec fn total(s: Seq<u64>) -> nat
    decreases s.len(),
{
    if s.len() == 0 {
        0
    } else {
        total(s.drop_last()) + s.last() as nat
    }
}

/// Raise this node's slot by one. Values other than a counter, and indices past
/// the end, are left unchanged.
pub fn increment(value: &mut EntryValue, node_index: usize)
    requires
        match old(value)@ {
            EntryValueView::GCounter(c) => node_index < c.len() ==> c[node_index as int] < u64::MAX,
            _ => true,
        },
    ensures
        final(value)@ == match old(value)@ {
            EntryValueView::GCounter(c) => EntryValueView::GCounter(
                clock_increment(c, node_index as int),
            ),
            v => v,
        },
{
    if let EntryValue::GCounter(counts) = value {
        if node_index < counts.len() {
            let v = counts[node_index];
            counts.set(node_index, v + 1);
        }
    }
}

/// The value of a counter: the sum of its slots; 0 for any other kind of value.
pub fn read(value: &EntryValue) -> (r: u64)
    requires
        match value@ {
            EntryValueView::GCounter(c) => total(c) <= u64::MAX,
            _ => true,
        },
    ensures
        r == match value@ {
            EntryValueView::GCounter(c) => total(c),
            _ => 0,
        },
{
    if let EntryValue::GCounter(counts) = value {
        let mut sum: u64 = 0;
        let mut i: usize = 0;
        while i < counts.len()
            invariant
                i <= counts.len(),
                total(counts@) <= u64::MAX,
                sum == total(counts@.take(i as int)),
            decreases counts.len() - i,
        {
            assert(counts@.take(i + 1).drop_last() =~= counts@.take(i as int));
            proof {
                lemma_total_prefix(counts@, i + 1);
            }
            sum = sum + counts[i];
            i = i + 1;
        }
        assert(counts@.take(counts.len() as int) =~= counts@);
        sum
    } else {
        0
    }
}

/// A prefix never sums to more than the whole.
pub proof fn lemma_total_prefix(s: Seq<u64>, k: int)
    requires
        0 <= k <= s.len(),
    ensures
        total(s.take(k)) <= total(s),
    decreases s.len() - k,
{
    if k < s.len() {
        lemma_total_prefix(s, k + 1);
        assert(s.take(k + 1).drop_last() =~= s.take(k));
    } else {
        assert(s.take(k) =~= s);
    }
}

/// A counter of `num_nodes` zero slots.
pub fn new(num_nodes: usize) -> (r: EntryValue)
    ensures
        r@ == EntryValueView::GCounter(Seq::new(num_nodes as nat, |i: int| 0u64)),
{
    EntryValue::GCounter(crate::vector_clock::new_clock(num_nodes))
}

/// Incrementing a slot that exists raises the counter's value by exactly one.
pub proof fn lemma_increment_adds_one(c: Seq<u64>, i: int)
    requires
        0 <= i < c.len(),
        c[i] < u64::MAX,
    ensures
        total(clock_increment(c, i)) == total(c) + 1,
    decreases c.len(),
{
    let n = clock_increment(c, i);
    if i == c.len() - 1 {
        assert(n.drop_last() =~= c.drop_last());
    } else {
        lemma_increment_adds_one(c.drop_last(), i);
        assert(n.drop_last() =~= clock_increment(c.drop_last(), i));
    }
}

} // verus!

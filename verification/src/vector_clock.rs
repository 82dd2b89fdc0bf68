//! Vector clocks: one counter per node, compared slot by slot.

use vstd::prelude::*;

verus! {

/// How one clock relates to another.
#[derive(Debug, PartialEq, Eq, Structural, Clone, Copy)]
pub enum ClockOrdering {
    /// local is strictly older than incoming
    Before,
    /// local is strictly newer than incoming
    After,
    /// both clocks hold the same counters
    Equal,
    /// neither dominates: a genuine conflict
    Concurrent,
}

/// The counter of slot `i`, where slots past the end read as zero.
pub open spec fn slot(c: Seq<u64>, i: int) -> int {
    if 0 <= i < c.len() {
        c[i] as int
    } else {
        0
    }
}

/// Some slot of `a` holds a larger counter than the same slot of `b`.
pub open spec fn exceeds_somewhere(a: Seq<u64>, b: Seq<u64>) -> bool {
    exists|i: int| 0 <= i && #[trigger] slot(a, i) > slot(b, i)
}

/// Every slot of `a` is at least the same slot of `b`.
pub open spec fn dominates(a: Seq<u64>, b: Seq<u64>) -> bool {
    forall|i: int| #[trigger] slot(a, i) >= slot(b, i)
}

/// The relation of `local` to `incoming`.
pub open spec fn clock_order(local: Seq<u64>, incoming: Seq<u64>) -> ClockOrdering {
    let l = exceeds_somewhere(local, incoming);
    let r = exceeds_somewhere(incoming, local);
    if !l && !r {
        ClockOrdering::Equal
    } else if l && !r {
        ClockOrdering::After
    } else if !l && r {
        ClockOrdering::Before
    } else {
        ClockOrdering::Concurrent
    }
}

pub open spec fn max_len(a: Seq<u64>, b: Seq<u64>) -> nat {
    if a.len() >= b.len() {
        a.len()
    } else {
        b.len()
    }
}

/// The slot-wise maximum of two clocks, as long as the longer one.
pub open spec fn clock_merge(a: Seq<u64>, b: Seq<u64>) -> Seq<u64> {
    Seq::new(
        max_len(a, b),
        |i: int|
            if slot(a, i) >= slot(b, i) {
                slot(a, i) as u64
            } else {
                slot(b, i) as u64
            },
    )
}

/// A clock with slot `i` raised by one; out-of-range indices change nothing.
pub open spec fn clock_increment(c: Seq<u64>, i: int) -> Seq<u64> {
    if 0 <= i < c.len() {
        c.update(i, (c[i] + 1) as u64)
    } else {
        c
    }
}


/// Slot `i` of a merged clock is the larger of the two slots.
pub proof fn lemma_merge_slot(a: Seq<u64>, b: Seq<u64>, i: int)
    ensures
        slot(clock_merge(a, b), i) == if slot(a, i) >= slot(b, i) {
            slot(a, i)
        } else {
            slot(b, i)
        },
{
}

/// Comparison is antisymmetric: `a` is before `b` exactly when `b` is after `a`,
/// and equality and concurrency hold in both directions at once.
pub proof fn lemma_compare_antisymmetric(a: Seq<u64>, b: Seq<u64>)
    ensures
        (clock_order(a, b) == ClockOrdering::Before) <==> (clock_order(b, a) == ClockOrdering::After),
        (clock_order(a, b) == ClockOrdering::Equal) <==> (clock_order(b, a) == ClockOrdering::Equal),
        (clock_order(a, b) == ClockOrdering::Concurrent) <==> (clock_order(b, a)
            == ClockOrdering::Concurrent),
{
}

/// Two clocks compare `Equal` exactly when every slot (missing slots as zero) agrees.
pub proof fn lemma_equal_iff_same_slots(a: Seq<u64>, b: Seq<u64>)
    ensures
        (clock_order(a, b) == ClockOrdering::Equal) <==> (forall|i: int| #[trigger] slot(a, i) == slot(b, i)),
{
    if forall|i: int| #[trigger] slot(a, i) == slot(b, i) {
        assert(!exceeds_somewhere(a, b));
        assert(!exceeds_somewhere(b, a));
    }
    if clock_order(a, b) == ClockOrdering::Equal {
        assert forall|i: int| #[trigger] slot(a, i) == slot(b, i) by {
            if i >= 0 && slot(a, i) > slot(b, i) {
                assert(exceeds_somewhere(a, b));
            }
            if i >= 0 && slot(b, i) > slot(a, i) {
                assert(exceeds_somewhere(b, a));
            }
        }
    }
}

/// `a` compares `After` `b` exactly when `a` dominates `b` slot by slot and exceeds it somewhere.
pub proof fn lemma_after_iff_strictly_dominates(a: Seq<u64>, b: Seq<u64>)
    ensures
        (clock_order(a, b) == ClockOrdering::After) <==> (dominates(a, b) && exceeds_somewhere(a, b)),
{
    if dominates(a, b) {
        if exceeds_somewhere(b, a) {
            let j = choose|j: int| 0 <= j && #[trigger] slot(b, j) > slot(a, j);
            assert(slot(a, j) >= slot(b, j));
        }
    }
    if !exceeds_somewhere(b, a) {
        assert forall|i: int| #[trigger] slot(a, i) >= slot(b, i) by {
            if i >= 0 && slot(b, i) > slot(a, i) {
                assert(exceeds_somewhere(b, a));
            }
        }
    }
}

/// Merging is commutative.
pub proof fn lemma_merge_commutative(a: Seq<u64>, b: Seq<u64>)
    ensures
        clock_merge(a, b) == clock_merge(b, a),
{
    assert(clock_merge(a, b) =~= clock_merge(b, a));
}

/// Merging is associative.
pub proof fn lemma_merge_associative(a: Seq<u64>, b: Seq<u64>, c: Seq<u64>)
    ensures
        clock_merge(clock_merge(a, b), c) == clock_merge(a, clock_merge(b, c)),
{
    let l = clock_merge(clock_merge(a, b), c);
    let r = clock_merge(a, clock_merge(b, c));
    assert forall|i: int| 0 <= i < l.len() implies l[i] == r[i] by {
        lemma_merge_slot(a, b, i);
        lemma_merge_slot(b, c, i);
    }
    assert(l =~= r);
}

/// Merging a clock with itself gives it back.
pub proof fn lemma_merge_idempotent(a: Seq<u64>)
    ensures
        clock_merge(a, a) == a,
{
    assert(clock_merge(a, a) =~= a);
}

/// The merged clock is the least clock that dominates both: it dominates each of
/// them, and every clock that dominates both dominates it.
pub proof fn lemma_merge_least_upper_bound(a: Seq<u64>, b: Seq<u64>, c: Seq<u64>)
    ensures
        dominates(clock_merge(a, b), a),
        dominates(clock_merge(a, b), b),
        dominates(c, a) && dominates(c, b) ==> dominates(c, clock_merge(a, b)),
{
    assert forall|i: int| #[trigger] slot(clock_merge(a, b), i) >= slot(a, i) by {
        lemma_merge_slot(a, b, i);
    }
    assert forall|i: int| #[trigger] slot(clock_merge(a, b), i) >= slot(b, i) by {
        lemma_merge_slot(a, b, i);
    }
    if dominates(c, a) && dominates(c, b) {
        assert forall|i: int| #[trigger] slot(c, i) >= slot(clock_merge(a, b), i) by {
            lemma_merge_slot(a, b, i);
            assert(slot(c, i) >= slot(a, i));
            assert(slot(c, i) >= slot(b, i));
        }
    }
}

/// After a merge, the merged clock compares `After` or `Equal` to each input:
/// it has seen everything either side had seen.
pub proof fn lemma_merge_not_behind(a: Seq<u64>, b: Seq<u64>)
    ensures
        clock_order(clock_merge(a, b), a) == ClockOrdering::After || clock_order(clock_merge(a, b), a)
            == ClockOrdering::Equal,
        clock_order(clock_merge(a, b), b) == ClockOrdering::After || clock_order(clock_merge(a, b), b)
            == ClockOrdering::Equal,
{
    lemma_merge_least_upper_bound(a, b, a);
    lemma_after_iff_strictly_dominates(clock_merge(a, b), a);
    lemma_after_iff_strictly_dominates(clock_merge(a, b), b);
}

/// Incrementing a slot that exists makes the clock strictly newer than before.
pub proof fn lemma_increment_is_after(c: Seq<u64>, i: int)
    requires
        0 <= i < c.len(),
        c[i] < u64::MAX,
    ensures
        clock_order(clock_increment(c, i), c) == ClockOrdering::After,
{
    let n = clock_increment(c, i);
    assert(slot(n, i) > slot(c, i));
    assert forall|j: int| #[trigger] slot(n, j) >= slot(c, j) by {}
    lemma_after_iff_strictly_dominates(n, c);
}

/// A fresh clock of `num_nodes` zero counters.
pub fn new_clock(num_nodes: usize) -> (clock: Vec<u64>)
    ensures
        clock@ == Seq::new(num_nodes as nat, |i: int| 0u64),
{
    let mut clock: Vec<u64> = Vec::new();
    let mut k: usize = 0;
    while k < num_nodes
        invariant
            k <= num_nodes,
            clock@ == Seq::new(k as nat, |i: int| 0u64),
        decreases num_nodes - k,
    {
        clock.push(0);
        k = k + 1;
    }
    clock
}

/// Raise this node's own slot; an index past the end is ignored.
pub fn increment(clock: &mut Vec<u64>, node_index: usize)
    requires
        node_index < old(clock).len() ==> old(clock)@[node_index as int] < u64::MAX,
    ensures
        final(clock)@ == clock_increment(old(clock)@, node_index as int),
{
    if node_index < clock.len() {
        let v = clock[node_index];
        clock.set(node_index, v + 1);
    }
}

fn slot_at(c: &Vec<u64>, i: usize) -> (v: u64)
    ensures
        v as int == slot(c@, i as int),
{
    if i < c.len() {
        c[i]
    } else {
        0
    }
}

/// Compare two clocks; missing slots count as zero.
pub fn compare(local: &Vec<u64>, incoming: &Vec<u64>) -> (r: ClockOrdering)
    ensures
        r == clock_order(local@, incoming@),
{
    let len = if local.len() >= incoming.len() {
        local.len()
    } else {
        incoming.len()
    };
    let mut local_greater = false;
    let mut incoming_greater = false;
    let mut i: usize = 0;
    while i < len
        invariant
            i <= len,
            len == max_len(local@, incoming@),
            local_greater <==> exists|j: int| 0 <= j < i && #[trigger] slot(local@, j) > slot(
                incoming@,
                j,
            ),
            incoming_greater <==> exists|j: int| 0 <= j < i && #[trigger] slot(incoming@, j)
                > slot(local@, j),
        decreases len - i,
    {
        let l = slot_at(local, i);
        let r = slot_at(incoming, i);
        if l > r {
            local_greater = true;
        }
        if r > l {
            incoming_greater = true;
        }
        i = i + 1;
    }
    assert(local_greater <==> exceeds_somewhere(local@, incoming@)) by {
        if exceeds_somewhere(local@, incoming@) {
            let j = choose|j: int| 0 <= j && #[trigger] slot(local@, j) > slot(incoming@, j);
            assert(j < len);
        }
    }
    assert(incoming_greater <==> exceeds_somewhere(incoming@, local@)) by {
        if exceeds_somewhere(incoming@, local@) {
            let j = choose|j: int| 0 <= j && #[trigger] slot(incoming@, j) > slot(local@, j);
            assert(j < len);
        }
    }
    if !local_greater && !incoming_greater {
        ClockOrdering::Equal
    } else if local_greater && !incoming_greater {
        ClockOrdering::After
    } else if !local_greater && incoming_greater {
        ClockOrdering::Before
    } else {
        ClockOrdering::Concurrent
    }
}

/// The slot-wise maximum of two clocks.
pub fn merge(local: &Vec<u64>, incoming: &Vec<u64>) -> (merged: Vec<u64>)
    ensures
        merged@ == clock_merge(local@, incoming@),
{
    let len = if local.len() >= incoming.len() {
        local.len()
    } else {
        incoming.len()
    };
    let mut merged: Vec<u64> = Vec::new();
    let mut i: usize = 0;
    while i < len
        invariant
            i <= len,
            len == max_len(local@, incoming@),
            merged@ == clock_merge(local@, incoming@).take(i as int),
        decreases len - i,
    {
        let l = slot_at(local, i);
        let r = slot_at(incoming, i);
        let m = if l >= r {
            l
        } else {
            r
        };
        merged.push(m);
        i = i + 1;
    }
    assert(merged@ =~= clock_merge(local@, incoming@));
    merged
}

} // verus!

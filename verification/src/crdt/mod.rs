//! Conflict resolution between two versions of the same entry.

pub mod lww_register;
pub mod or_set;
pub mod pn_counter;

use vstd::prelude::*;
use crate::types::{
    copy_items, items_view, Entry, EntryValue, EntryValueView, EntryView, OrSetItem,
    OrSetItemView, priority_of, source_priority,
};
use crate::text::{lemma_lex_total, lex_less, str_at_least};
use crate::vector_clock::{
    clock_merge, clock_order, compare, dominates, lemma_after_iff_strictly_dominates,
    lemma_compare_antisymmetric, lemma_equal_iff_same_slots, lemma_merge_commutative,
    lemma_merge_least_upper_bound, merge, slot, ClockOrdering,
};

verus! {

/// Whether the local register's value wins a concurrent write: the more
/// authoritative source wins, and between equally authoritative sources the
/// node id that sorts last.
pub open spec fn local_register_wins(local: EntryView, incoming: EntryView) -> bool {
    let pl = priority_of(local.source);
    let pi = priority_of(incoming.source);
    pl > pi || (pl == pi && !lex_less(local.node_id, incoming.node_id))
}

/// Some item of `items` carries `tag`.
pub open spec fn has_tag(items: Seq<OrSetItemView>, tag: Seq<char>) -> bool {
    exists|k: int| 0 <= k < items.len() && #[trigger] items[k].tag == tag
}

/// The items of `r` after taking in `x`, an item whose tag `r` already holds:
/// every item with that tag becomes removed when `x` is removed, so a removal
/// made on either side survives.
pub open spec fn absorb(r: Seq<OrSetItemView>, x: OrSetItemView) -> Seq<OrSetItemView> {
    r.map_values(
        |i: OrSetItemView|
            if i.tag == x.tag {
                OrSetItemView { value: i.value, tag: i.tag, removed: i.removed || x.removed }
            } else {
                i
            },
    )
}

/// The union of two OR-Sets by tag, keeping removals: the items of `a` in
/// order, then each item of `b` whose tag is new; an item of `b` whose tag is
/// already present marks it removed when it is itself removed.
pub open spec fn or_union(a: Seq<OrSetItemView>, b: Seq<OrSetItemView>) -> Seq<OrSetItemView>
    decreases b.len(),
{
    if b.len() == 0 {
        a
    } else {
        let r = or_union(a, b.drop_last());
        if has_tag(r, b.last().tag) {
            absorb(r, b.last())
        } else {
            r.push(b.last())
        }
    }
}

/// The value of a concurrent merge, by kind of CRDT.
pub open spec fn merged_value(local: EntryView, incoming: EntryView) -> EntryValueView {
    match (local.value, incoming.value) {
        (EntryValueView::Register(_), EntryValueView::Register(_)) => if local_register_wins(
            local,
            incoming,
        ) {
            local.value
        } else {
            incoming.value
        },
        (EntryValueView::GCounter(a), EntryValueView::GCounter(b)) => EntryValueView::GCounter(
            clock_merge(a, b),
        ),
        (EntryValueView::PnCounter(ia, da), EntryValueView::PnCounter(ib, db)) => {
            EntryValueView::PnCounter(clock_merge(ia, ib), clock_merge(da, db))
        },
        (EntryValueView::OrSet(a), EntryValueView::OrSet(b)) => EntryValueView::OrSet(
            or_union(a, b),
        ),
        _ => local.value,
    }
}

/// The entry that a concurrent merge produces.
pub open spec fn concurrent_merge(local: EntryView, incoming: EntryView) -> EntryView {
    EntryView {
        key: local.key,
        value: merged_value(local, incoming),
        crdt_type: local.crdt_type,
        clock: clock_merge(local.clock, incoming.clock),
        node_id: local.node_id,
        source: if priority_of(local.source) >= priority_of(incoming.source) {
            local.source
        } else {
            incoming.source
        },
    }
}

/// The entry that merging `incoming` into `local` produces: the newer one when
/// one clock dominates, `incoming` when the clocks are equal, and a merge by
/// kind of CRDT when they are concurrent.
pub open spec fn merged_entry(local: EntryView, incoming: EntryView) -> EntryView {
    match clock_order(local.clock, incoming.clock) {
        ClockOrdering::After => local,
        ClockOrdering::Before | ClockOrdering::Equal => incoming,
        ClockOrdering::Concurrent => concurrent_merge(local, incoming),
    }
}

/// Merging an entry with an identical copy of itself gives it back.
pub proof fn lemma_merge_with_self(e: EntryView)
    ensures
        merged_entry(e, e) == e,
{
    crate::vector_clock::lemma_equal_iff_same_slots(e.clock, e.clock);
}

/// The clock of a merge result has seen both writes: it dominates both input clocks.
pub proof fn lemma_merged_clock_dominates(local: EntryView, incoming: EntryView)
    ensures
        dominates(merged_entry(local, incoming).clock, local.clock),
        dominates(merged_entry(local, incoming).clock, incoming.clock),
{
    lemma_after_iff_strictly_dominates(local.clock, incoming.clock);
    lemma_after_iff_strictly_dominates(incoming.clock, local.clock);
    lemma_compare_antisymmetric(local.clock, incoming.clock);
    lemma_equal_iff_same_slots(local.clock, incoming.clock);
    lemma_merge_least_upper_bound(local.clock, incoming.clock, local.clock);
    let o = clock_order(local.clock, incoming.clock);
    if o == ClockOrdering::Equal {
        assert forall|i: int| #[trigger] slot(local.clock, i) >= slot(incoming.clock, i) by {}
        assert forall|i: int| #[trigger] slot(incoming.clock, i) >= slot(local.clock, i) by {}
    }
}

/// When one version's clock is strictly newer, that version wins in whichever
/// order the two are merged.
pub proof fn lemma_newer_wins_either_way(newer: EntryView, older: EntryView)
    requires
        clock_order(newer.clock, older.clock) == ClockOrdering::After,
    ensures
        merged_entry(newer, older) == newer,
        merged_entry(older, newer) == newer,
{
    lemma_compare_antisymmetric(newer.clock, older.clock);
}

/// Concurrent register writes converge: merged in either order they give the
/// same value and the same clock, provided the writes differ in source priority
/// or in node id; and the same source when the source priorities differ.
pub proof fn lemma_concurrent_registers_converge(a: EntryView, b: EntryView)
    requires
        clock_order(a.clock, b.clock) == ClockOrdering::Concurrent,
        a.value is Register,
        b.value is Register,
        priority_of(a.source) != priority_of(b.source) || a.node_id != b.node_id,
    ensures
        merged_entry(a, b).value == merged_entry(b, a).value,
        merged_entry(a, b).clock == merged_entry(b, a).clock,
        priority_of(a.source) != priority_of(b.source) ==> merged_entry(a, b).source == merged_entry(
            b,
            a,
        ).source,
{
    lemma_compare_antisymmetric(a.clock, b.clock);
    lemma_merge_commutative(a.clock, b.clock);
    lemma_lex_total(a.node_id, b.node_id);
}

/// How concurrent register writes are decided: the write from the more
/// authoritative source wins; between equally authoritative sources, the write
/// of the node whose id sorts last wins, whatever the value texts are. The
/// merged clock is the slot-wise maximum.
pub proof fn lemma_register_merge_winner(l: EntryView, i: EntryView)
    requires
        clock_order(l.clock, i.clock) == ClockOrdering::Concurrent,
        l.value is Register,
        i.value is Register,
    ensures
        priority_of(l.source) > priority_of(i.source) ==> merged_entry(l, i).value == l.value,
        priority_of(l.source) < priority_of(i.source) ==> merged_entry(l, i).value == i.value,
        priority_of(l.source) == priority_of(i.source) ==> merged_entry(l, i).value == (if !lex_less(
            l.node_id,
            i.node_id,
        ) {
            l.value
        } else {
            i.value
        }),
        forall|k: int| #[trigger] slot(merged_entry(l, i).clock, k) == if slot(l.clock, k) >= slot(
            i.clock,
            k,
        ) {
            slot(l.clock, k)
        } else {
            slot(i.clock, k)
        },
        merged_entry(l, i).node_id == l.node_id,
        merged_entry(l, i).key == l.key,
{
    assert forall|k: int| #[trigger] slot(merged_entry(l, i).clock, k) == if slot(l.clock, k) >= slot(
        i.clock,
        k,
    ) {
        slot(l.clock, k)
    } else {
        slot(i.clock, k)
    } by {
        crate::vector_clock::lemma_merge_slot(l.clock, i.clock, k);
    }
}

/// Concurrent counter updates converge: grow-only and increment/decrement
/// counters merged in either order have the same value and the same clock.
pub proof fn lemma_concurrent_counters_converge(a: EntryView, b: EntryView)
    requires
        clock_order(a.clock, b.clock) == ClockOrdering::Concurrent,
        (a.value is GCounter && b.value is GCounter) || (a.value is PnCounter && b.value is PnCounter),
    ensures
        merged_entry(a, b).value == merged_entry(b, a).value,
        merged_entry(a, b).clock == merged_entry(b, a).clock,
{
    lemma_compare_antisymmetric(a.clock, b.clock);
    lemma_merge_commutative(a.clock, b.clock);
    match (a.value, b.value) {
        (EntryValueView::GCounter(x), EntryValueView::GCounter(y)) => {
            lemma_merge_commutative(x, y);
        },
        (EntryValueView::PnCounter(ix, dx), EntryValueView::PnCounter(iy, dy)) => {
            lemma_merge_commutative(ix, iy);
            lemma_merge_commutative(dx, dy);
        },
        _ => {},
    }
}

/// No two items of `s` carry the same tag: each add operation appears once.
pub open spec fn tags_unique(s: Seq<OrSetItemView>) -> bool {
    forall|i: int, j: int|
        0 <= i < s.len() && 0 <= j < s.len() && i != j ==> #[trigger] s[i].tag != #[trigger] s[j].tag
}

/// Some item of `s` with tag `t` is removed.
pub open spec fn removed_in(s: Seq<OrSetItemView>, t: Seq<char>) -> bool {
    exists|i: int| 0 <= i < s.len() && #[trigger] s[i].tag == t && s[i].removed
}

/// Some item of `s` with tag `t` holds value `v`.
pub open spec fn holds_value(s: Seq<OrSetItemView>, t: Seq<char>, v: Seq<char>) -> bool {
    exists|i: int| 0 <= i < s.len() && #[trigger] s[i].tag == t && s[i].value == v
}

/// Items that carry the same tag on the two sides hold the same value (a tag
/// names one add operation).
pub open spec fn values_agree(a: Seq<OrSetItemView>, b: Seq<OrSetItemView>) -> bool {
    forall|i: int, j: int|
        0 <= i < a.len() && 0 <= j < b.len() && #[trigger] a[i].tag == #[trigger] b[j].tag
            ==> a[i].value == b[j].value
}

proof fn lemma_last_split(b: Seq<OrSetItemView>, t: Seq<char>, v: Seq<char>)
    requires
        b.len() > 0,
    ensures
        has_tag(b, t) == (has_tag(b.drop_last(), t) || b.last().tag == t),
        removed_in(b, t) == (removed_in(b.drop_last(), t) || (b.last().tag == t
            && b.last().removed)),
        holds_value(b, t, v) == (holds_value(b.drop_last(), t, v) || (b.last().tag == t
            && b.last().value == v)),
{
    let p = b.drop_last();
    if has_tag(b, t) {
        let i = choose|i: int| 0 <= i < b.len() && #[trigger] b[i].tag == t;
        if i < p.len() {
            assert(p[i].tag == t);
        }
    }
    if has_tag(p, t) {
        let i = choose|i: int| 0 <= i < p.len() && #[trigger] p[i].tag == t;
        assert(b[i].tag == t);
    }
    if b.last().tag == t {
        assert(b[b.len() - 1].tag == t);
    }
    if removed_in(b, t) {
        let i = choose|i: int| 0 <= i < b.len() && #[trigger] b[i].tag == t && b[i].removed;
        if i < p.len() {
            assert(p[i].tag == t);
        }
    }
    if removed_in(p, t) {
        let i = choose|i: int| 0 <= i < p.len() && #[trigger] p[i].tag == t && p[i].removed;
        assert(b[i].tag == t);
    }
    if b.last().tag == t && b.last().removed {
        assert(b[b.len() - 1].tag == t);
    }
    if holds_value(b, t, v) {
        let i = choose|i: int| 0 <= i < b.len() && #[trigger] b[i].tag == t && b[i].value == v;
        if i < p.len() {
            assert(p[i].tag == t);
        }
    }
    if holds_value(p, t, v) {
        let i = choose|i: int| 0 <= i < p.len() && #[trigger] p[i].tag == t && p[i].value == v;
        assert(b[i].tag == t);
    }
    if b.last().tag == t && b.last().value == v {
        assert(b[b.len() - 1].tag == t);
    }
}

proof fn lemma_last_split_all(b: Seq<OrSetItemView>)
    requires
        b.len() > 0,
    ensures
        forall|t: Seq<char>|
            #[trigger] has_tag(b, t) == (has_tag(b.drop_last(), t) || b.last().tag == t),
        forall|t: Seq<char>|
            #[trigger] removed_in(b, t) == (removed_in(b.drop_last(), t) || (b.last().tag == t
                && b.last().removed)),
        forall|t: Seq<char>, v: Seq<char>|
            #[trigger] holds_value(b, t, v) == (holds_value(b.drop_last(), t, v) || (b.last().tag
                == t && b.last().value == v)),
{
    assert forall|t: Seq<char>|
        #[trigger] has_tag(b, t) == (has_tag(b.drop_last(), t) || b.last().tag == t) by {
        lemma_last_split(b, t, Seq::empty());
    }
    assert forall|t: Seq<char>|
        #[trigger] removed_in(b, t) == (removed_in(b.drop_last(), t) || (b.last().tag == t
            && b.last().removed)) by {
        lemma_last_split(b, t, Seq::empty());
    }
    assert forall|t: Seq<char>, v: Seq<char>|
        #[trigger] holds_value(b, t, v) == (holds_value(b.drop_last(), t, v) || (b.last().tag
            == t && b.last().value == v)) by {
        lemma_last_split(b, t, v);
    }
}

/// An OR-Set merge loses no add operation: a tag is in the union exactly when
/// it is in either side.
pub proof fn lemma_or_union_tags(a: Seq<OrSetItemView>, b: Seq<OrSetItemView>, t: Seq<char>)
    ensures
        has_tag(or_union(a, b), t) <==> (has_tag(a, t) || has_tag(b, t)),
    decreases b.len(),
{
    if b.len() > 0 {
        let p = b.drop_last();
        let x = b.last();
        lemma_or_union_tags(a, p, t);
        lemma_last_split(b, t, Seq::empty());
        let r = or_union(a, p);
        if has_tag(r, x.tag) {
            let n = absorb(r, x);
            if has_tag(r, t) {
                let k = choose|k: int| 0 <= k < r.len() && #[trigger] r[k].tag == t;
                assert(n[k].tag == t);
            }
            if has_tag(n, t) {
                let k = choose|k: int| 0 <= k < n.len() && #[trigger] n[k].tag == t;
                assert(r[k].tag == t);
            }
            if x.tag == t {
                let k = choose|k: int| 0 <= k < r.len() && #[trigger] r[k].tag == x.tag;
                assert(r[k].tag == t);
            }
        } else {
            let n = r.push(x);
            assert(n[r.len() as int].tag == x.tag);
            if has_tag(r, t) {
                let k = choose|k: int| 0 <= k < r.len() && #[trigger] r[k].tag == t;
                assert(n[k].tag == t);
            }
            if has_tag(n, t) {
                let k = choose|k: int| 0 <= k < n.len() && #[trigger] n[k].tag == t;
                if k < r.len() {
                    assert(r[k].tag == t);
                }
            }
        }
    }
}

/// The shape of an OR-Set merge of replicas whose tags are each unique: the
/// result's tags are unique; `a`'s items come first, in order, with their tags
/// and values; every item is removed exactly when either side removed its tag;
/// and every item's value is one that some side holds under its tag.
pub proof fn lemma_or_union_shape(a: Seq<OrSetItemView>, b: Seq<OrSetItemView>)
    requires
        tags_unique(a),
        tags_unique(b),
    ensures
        tags_unique(or_union(a, b)),
        or_union(a, b).len() >= a.len(),
        forall|k: int|
            0 <= k < a.len() ==> (#[trigger] or_union(a, b)[k]).tag == a[k].tag
                && or_union(a, b)[k].value == a[k].value,
        forall|k: int|
            0 <= k < or_union(a, b).len() ==> (#[trigger] or_union(a, b)[k]).removed == (removed_in(
                a,
                or_union(a, b)[k].tag,
            ) || removed_in(b, or_union(a, b)[k].tag)),
        forall|k: int|
            0 <= k < or_union(a, b).len() ==> holds_value(a, (#[trigger] or_union(a, b)[k]).tag, or_union(a, b)[k].value)
                || holds_value(b, or_union(a, b)[k].tag, or_union(a, b)[k].value),
    decreases b.len(),
{
    let u = or_union(a, b);
    if b.len() == 0 {
        assert forall|k: int| 0 <= k < u.len() implies (#[trigger] u[k]).removed == (removed_in(
            a,
            u[k].tag,
        ) || removed_in(b, u[k].tag)) by {
            if u[k].removed {
                assert(a[k].tag == u[k].tag);
            }
            if removed_in(a, u[k].tag) {
                let i = choose|i: int| 0 <= i < a.len() && #[trigger] a[i].tag == u[k].tag && a[i].removed;
                if i != k {
                    assert(a[i].tag != a[k].tag);
                }
            }
        }
        assert forall|k: int| 0 <= k < u.len() implies holds_value(a, (#[trigger] u[k]).tag, u[k].value)
            || holds_value(b, u[k].tag, u[k].value) by {
            assert(a[k].tag == u[k].tag);
        }
    } else {
        let p = b.drop_last();
        let x = b.last();
        assert forall|i: int, j: int|
            0 <= i < p.len() && 0 <= j < p.len() && i != j implies #[trigger] p[i].tag
            != #[trigger] p[j].tag by {
            assert(p[i] == b[i]);
            assert(p[j] == b[j]);
        }
        lemma_or_union_shape(a, p);
        let r = or_union(a, p);
        lemma_last_split_all(b);
        if has_tag(r, x.tag) {
            let n = absorb(r, x);
            assert(u == n);
            assert forall|i: int, j: int|
                0 <= i < n.len() && 0 <= j < n.len() && i != j implies #[trigger] n[i].tag
                != #[trigger] n[j].tag by {
                assert(n[i].tag == r[i].tag);
                assert(n[j].tag == r[j].tag);
            }
            assert forall|k: int| 0 <= k < a.len() implies (#[trigger] n[k]).tag == a[k].tag
                && n[k].value == a[k].value by {
                assert(r[k].tag == a[k].tag);
            }
            assert forall|k: int| 0 <= k < n.len() implies (#[trigger] n[k]).removed == (removed_in(
                a,
                n[k].tag,
            ) || removed_in(b, n[k].tag)) by {
                assert(r[k].removed == (removed_in(a, r[k].tag) || removed_in(p, r[k].tag)));
            }
            assert forall|k: int| 0 <= k < n.len() implies holds_value(a, (#[trigger] n[k]).tag, n[k].value)
                || holds_value(b, n[k].tag, n[k].value) by {
                assert(holds_value(a, r[k].tag, r[k].value) || holds_value(p, r[k].tag, r[k].value));
            }
        } else {
            let n = r.push(x);
            assert(u == n);
            assert(!has_tag(a, x.tag)) by {
                lemma_or_union_tags(a, p, x.tag);
            }
            assert(!has_tag(p, x.tag)) by {
                lemma_or_union_tags(a, p, x.tag);
            }
            assert forall|i: int, j: int|
                0 <= i < n.len() && 0 <= j < n.len() && i != j implies #[trigger] n[i].tag
                != #[trigger] n[j].tag by {
                if i == r.len() {
                    assert(r[j].tag == n[j].tag);
                } else if j == r.len() {
                    assert(r[i].tag == n[i].tag);
                } else {
                    assert(n[i] == r[i]);
                    assert(n[j] == r[j]);
                }
            }
            assert forall|k: int| 0 <= k < a.len() implies (#[trigger] n[k]).tag == a[k].tag
                && n[k].value == a[k].value by {
                assert(n[k] == r[k]);
            }
            assert forall|k: int| 0 <= k < n.len() implies (#[trigger] n[k]).removed == (removed_in(
                a,
                n[k].tag,
            ) || removed_in(b, n[k].tag)) by {
                if k == r.len() {
                    assert(n[k] == x);
                    if removed_in(a, x.tag) {
                        let i = choose|i: int| 0 <= i < a.len() && #[trigger] a[i].tag == x.tag && a[i].removed;
                    }
                    if removed_in(p, x.tag) {
                        let i = choose|i: int| 0 <= i < p.len() && #[trigger] p[i].tag == x.tag && p[i].removed;
                    }
                } else {
                    assert(n[k] == r[k]);
                    assert(r[k].tag != x.tag);
                    assert(r[k].removed == (removed_in(a, r[k].tag) || removed_in(p, r[k].tag)));
                }
            }
            assert forall|k: int| 0 <= k < n.len() implies holds_value(a, (#[trigger] n[k]).tag, n[k].value)
                || holds_value(b, n[k].tag, n[k].value) by {
                if k == r.len() {
                    assert(n[k] == x);
                } else {
                    assert(n[k] == r[k]);
                    assert(holds_value(a, r[k].tag, r[k].value) || holds_value(p, r[k].tag, r[k].value));
                }
            }
        }
    }
}

/// An OR-Set merge keeps removals from either side: an item of the union is
/// removed exactly when its add was removed on either replica.
pub proof fn lemma_or_union_keeps_removals(a: Seq<OrSetItemView>, b: Seq<OrSetItemView>, k: int)
    requires
        tags_unique(a),
        tags_unique(b),
        0 <= k < or_union(a, b).len(),
    ensures
        or_union(a, b)[k].removed == (removed_in(a, or_union(a, b)[k].tag) || removed_in(
            b,
            or_union(a, b)[k].tag,
        )),
{
    lemma_or_union_shape(a, b);
}

proof fn lemma_one_value_per_tag(
    a: Seq<OrSetItemView>,
    b: Seq<OrSetItemView>,
    t: Seq<char>,
    v1: Seq<char>,
    v2: Seq<char>,
)
    requires
        tags_unique(a),
        tags_unique(b),
        values_agree(a, b),
        holds_value(a, t, v1) || holds_value(b, t, v1),
        holds_value(a, t, v2) || holds_value(b, t, v2),
    ensures
        v1 == v2,
{
    if holds_value(a, t, v1) {
        let i = choose|i: int| 0 <= i < a.len() && #[trigger] a[i].tag == t && a[i].value == v1;
        if holds_value(a, t, v2) {
            let j = choose|j: int| 0 <= j < a.len() && #[trigger] a[j].tag == t && a[j].value == v2;
            if i != j {
                assert(a[i].tag != a[j].tag);
            }
        } else {
            let j = choose|j: int| 0 <= j < b.len() && #[trigger] b[j].tag == t && b[j].value == v2;
            assert(a[i].tag == b[j].tag);
        }
    } else {
        let i = choose|i: int| 0 <= i < b.len() && #[trigger] b[i].tag == t && b[i].value == v1;
        if holds_value(a, t, v2) {
            let j = choose|j: int| 0 <= j < a.len() && #[trigger] a[j].tag == t && a[j].value == v2;
            assert(a[j].tag == b[i].tag);
        } else {
            let j = choose|j: int| 0 <= j < b.len() && #[trigger] b[j].tag == t && b[j].value == v2;
            if i != j {
                assert(b[i].tag != b[j].tag);
            }
        }
    }
}

/// OR-Set merges converge: for replicas whose tags are each unique and that
/// hold the same value under a shared tag, merging in either order yields the
/// same items, removals from either side included.
pub proof fn lemma_or_union_converges(
    a: Seq<OrSetItemView>,
    b: Seq<OrSetItemView>,
    x: OrSetItemView,
)
    requires
        tags_unique(a),
        tags_unique(b),
        values_agree(a, b),
    ensures
        or_union(a, b).contains(x) <==> or_union(b, a).contains(x),
{
    assert(values_agree(b, a));
    lemma_or_union_shape(a, b);
    lemma_or_union_shape(b, a);
    if or_union(a, b).contains(x) {
        lemma_converge_one_way(a, b, x);
    }
    if or_union(b, a).contains(x) {
        lemma_converge_one_way(b, a, x);
    }
}

proof fn lemma_converge_one_way(a: Seq<OrSetItemView>, b: Seq<OrSetItemView>, x: OrSetItemView)
    requires
        tags_unique(a),
        tags_unique(b),
        values_agree(a, b),
        values_agree(b, a),
        or_union(a, b).contains(x),
    ensures
        or_union(b, a).contains(x),
{
    lemma_or_union_shape(a, b);
    lemma_or_union_shape(b, a);
    let u1 = or_union(a, b);
    let u2 = or_union(b, a);
    let k = choose|k: int| 0 <= k < u1.len() && u1[k] == x;
    assert(has_tag(u1, x.tag)) by {
        assert(u1[k].tag == x.tag);
    }
    lemma_or_union_tags(a, b, x.tag);
    lemma_or_union_tags(b, a, x.tag);
    let j = choose|j: int| 0 <= j < u2.len() && #[trigger] u2[j].tag == x.tag;
    let y = u2[j];
    assert(y.removed == x.removed) by {
        assert(u1[k].removed == (removed_in(a, x.tag) || removed_in(b, x.tag)));
        assert(u2[j].removed == (removed_in(b, x.tag) || removed_in(a, x.tag)));
    }
    assert(y.value == x.value) by {
        assert(holds_value(a, x.tag, u1[k].value) || holds_value(b, x.tag, u1[k].value));
        assert(holds_value(b, x.tag, u2[j].value) || holds_value(a, x.tag, u2[j].value));
        lemma_one_value_per_tag(a, b, x.tag, x.value, y.value);
    }
    assert(y == x);
}

/// Concurrent OR-Set entries converge: merged in either order their values
/// hold the same items, with removals from either side kept, and their clocks
/// are equal; for replicas whose tags are each unique and that agree on the
/// value of a shared tag.
pub proof fn lemma_concurrent_sets_converge(
    a: EntryView,
    b: EntryView,
    xs: Seq<OrSetItemView>,
    ys: Seq<OrSetItemView>,
    item: OrSetItemView,
)
    requires
        clock_order(a.clock, b.clock) == ClockOrdering::Concurrent,
        a.value == EntryValueView::OrSet(xs),
        b.value == EntryValueView::OrSet(ys),
        tags_unique(xs),
        tags_unique(ys),
        values_agree(xs, ys),
    ensures
        merged_entry(a, b).value == EntryValueView::OrSet(or_union(xs, ys)),
        merged_entry(b, a).value == EntryValueView::OrSet(or_union(ys, xs)),
        or_union(xs, ys).contains(item) <==> or_union(ys, xs).contains(item),
        merged_entry(a, b).clock == merged_entry(b, a).clock,
{
    lemma_compare_antisymmetric(a.clock, b.clock);
    lemma_merge_commutative(a.clock, b.clock);
    lemma_or_union_converges(xs, ys, item);
}

/// Concurrent OR-Set updates keep the same add operations in either merge order.
pub proof fn lemma_concurrent_sets_keep_same_tags(
    a: EntryView,
    b: EntryView,
    xs: Seq<OrSetItemView>,
    ys: Seq<OrSetItemView>,
    t: Seq<char>,
)
    requires
        clock_order(a.clock, b.clock) == ClockOrdering::Concurrent,
        a.value == EntryValueView::OrSet(xs),
        b.value == EntryValueView::OrSet(ys),
    ensures
        merged_entry(a, b).value == EntryValueView::OrSet(or_union(xs, ys)),
        merged_entry(b, a).value == EntryValueView::OrSet(or_union(ys, xs)),
        has_tag(or_union(xs, ys), t) <==> has_tag(or_union(ys, xs), t),
        merged_entry(a, b).clock == merged_entry(b, a).clock,
{
    lemma_compare_antisymmetric(a.clock, b.clock);
    lemma_merge_commutative(a.clock, b.clock);
    lemma_or_union_tags(xs, ys, t);
    lemma_or_union_tags(ys, xs, t);
}

/// Merge two versions of the same entry.
pub fn merge_entries(local: &Entry, incoming: &Entry) -> (r: Entry)
    ensures
        r@ == merged_entry(local@, incoming@),
{
    match compare(&local.clock, &incoming.clock) {
        ClockOrdering::After => local.copy(),
        ClockOrdering::Before | ClockOrdering::Equal => incoming.copy(),
        ClockOrdering::Concurrent => merge_concurrent(local, incoming),
    }
}

/// The union by tag of two item lists, keeping removals from either side.
fn merge_items(a: &Vec<OrSetItem>, b: &Vec<OrSetItem>) -> (r: Vec<OrSetItem>)
    ensures
        items_view(r@) == or_union(items_view(a@), items_view(b@)),
{
    let mut merged = copy_items(a);
    let mut j: usize = 0;
    assert(items_view(b@.take(0)) =~= Seq::<OrSetItemView>::empty());
    while j < b.len()
        invariant
            j <= b.len(),
            items_view(merged@) == or_union(items_view(a@), items_view(b@.take(j as int))),
        decreases b.len() - j,
    {
        let ghost prefix = items_view(b@.take(j as int));
        let ghost x = b@[j as int]@;
        let ghost before = items_view(merged@);
        assert(items_view(b@.take(j + 1)).drop_last() =~= prefix);
        assert(items_view(b@.take(j + 1)).last() == x);
        let mut found = false;
        let mut k: usize = 0;
        while k < merged.len()
            invariant
                k <= merged.len(),
                j < b.len(),
                x == b@[j as int]@,
                items_view(merged@).len() == before.len(),
                forall|m: int| 0 <= m < k ==> #[trigger] items_view(merged@)[m] == absorb(before, x)[m],
                forall|m: int| k <= m < before.len() ==> #[trigger] items_view(merged@)[m] == before[m],
                found <==> exists|m: int| 0 <= m < k && #[trigger] before[m].tag == x.tag,
            decreases merged.len() - k,
        {
            assert(items_view(merged@)[k as int] == before[k as int]);
            let ghost prev = merged@;
            if merged[k].tag == b[j].tag {
                assert(before[k as int].tag == x.tag);
                found = true;
                if b[j].removed && !merged[k].removed {
                    let mut it = merged[k].copy();
                    it.removed = true;
                    merged.set(k, it);
                }
            } else {
                assert(before[k as int].tag != x.tag);
            }
            assert(items_view(merged@)[k as int] == absorb(before, x)[k as int]);
            assert forall|m: int| 0 <= m < merged@.len() && m != k implies #[trigger] items_view(
                merged@,
            )[m] == items_view(prev)[m] by {
                assert(merged@[m] == prev[m]);
            }
            k = k + 1;
        }
        assert(found <==> has_tag(before, x.tag)) by {
            if has_tag(before, x.tag) {
                let m = choose|m: int| 0 <= m < before.len() && #[trigger] before[m].tag == x.tag;
                assert(before[m].tag == x.tag);
            }
        }
        if found {
            assert(items_view(merged@) =~= absorb(before, x));
        } else {
            assert(items_view(merged@) =~= before);
            merged.push(b[j].copy());
            assert(items_view(merged@) =~= before.push(x));
        }
        j = j + 1;
    }
    assert(b@.take(b.len() as int) =~= b@);
    merged
}

/// Merge two versions whose clocks are concurrent, by kind of CRDT.
fn merge_concurrent(local: &Entry, incoming: &Entry) -> (r: Entry)
    ensures
        r@ == concurrent_merge(local@, incoming@),
{
    let merged_clock = merge(&local.clock, &incoming.clock);
    let pl = source_priority(local.source.as_str());
    let pi = source_priority(incoming.source.as_str());
    let merged_value = match (&local.value, &incoming.value) {
        (EntryValue::Register(_), EntryValue::Register(_)) => {
            if pl > pi || (pl == pi && str_at_least(
                local.node_id.as_str(),
                incoming.node_id.as_str(),
            )) {
                local.value.copy()
            } else {
                incoming.value.copy()
            }
        },
        (EntryValue::GCounter(a), EntryValue::GCounter(b)) => EntryValue::GCounter(merge(a, b)),
        (EntryValue::PnCounter(inc_a, dec_a), EntryValue::PnCounter(inc_b, dec_b)) => {
            EntryValue::PnCounter(merge(inc_a, inc_b), merge(dec_a, dec_b))
        },
        (EntryValue::OrSet(a), EntryValue::OrSet(b)) => EntryValue::OrSet(merge_items(a, b)),
        _ => local.value.copy(),
    };
    let source = if pl >= pi {
        local.source.clone()
    } else {
        incoming.source.clone()
    };
    Entry {
        key: local.key.clone(),
        value: merged_value,
        crdt_type: local.crdt_type,
        clock: merged_clock,
        node_id: local.node_id.clone(),
        source,
    }
}

} // verus!

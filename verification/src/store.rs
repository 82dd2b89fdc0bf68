//! The node's write and merge rules, independent of where entries are kept.

use vstd::prelude::*;
use crate::crdt::{merge_entries, merged_entry};
use crate::types::{CrdtType, Entry, EntryValue, EntryValueView, EntryView, NodeId};
use crate::vector_clock::{
    clock_increment, clock_order, increment, lemma_increment_is_after, new_clock, slot,
    ClockOrdering,
};

verus! {

/// The identity of this node within the cluster.
pub struct KvStore {
    node_id: NodeId,
    node_index: usize,
    num_nodes: usize,
}

pub struct StoreIdentity {
    pub node_id: Seq<char>,
    pub node_index: usize,
    pub num_nodes: usize,
}

impl View for KvStore {
    type V = StoreIdentity;

    closed spec fn view(&self) -> StoreIdentity {
        StoreIdentity {
            node_id: self.node_id@,
            node_index: self.node_index,
            num_nodes: self.num_nodes,
        }
    }
}

/// The clock that a local write starts from: the stored entry's clock, or a
/// fresh all-zero clock for a new key.
pub open spec fn base_clock(current: Option<EntryView>, num_nodes: usize) -> Seq<u64> {
    match current {
        Some(e) => e.clock,
        None => Seq::new(num_nodes as nat, |i: int| 0u64),
    }
}

/// The entry that a local write of `value` under `key` stores.
pub open spec fn written_entry(
    s: StoreIdentity,
    current: Option<EntryView>,
    key: Seq<char>,
    value: Seq<char>,
    source: Seq<char>,
) -> EntryView {
    EntryView {
        key,
        value: EntryValueView::Register(value),
        crdt_type: CrdtType::LwwRegister,
        clock: clock_increment(base_clock(current, s.num_nodes), s.node_index as int),
        node_id: s.node_id,
        source,
    }
}

pub open spec fn opt_view(e: Option<&Entry>) -> Option<EntryView> {
    match e {
        Some(x) => Some(x@),
        None => None,
    }
}

/// A local write raises only this node's own slot of the clock: every other
/// slot keeps the value it had.
pub proof fn lemma_write_touches_own_slot(
    s: StoreIdentity,
    current: Option<EntryView>,
    key: Seq<char>,
    value: Seq<char>,
    source: Seq<char>,
    j: int,
)
    requires
        j != s.node_index,
    ensures
        slot(written_entry(s, current, key, value, source).clock, j) == slot(
            base_clock(current, s.num_nodes),
            j,
        ),
{
}

/// A local write records what it was given, whatever is stored under the key:
/// its key, a register of its value, this node's id and its source; only the
/// clock comes from the stored entry.
pub proof fn lemma_write_records_its_inputs(
    s: StoreIdentity,
    current: Option<EntryView>,
    key: Seq<char>,
    value: Seq<char>,
    source: Seq<char>,
)
    ensures
        written_entry(s, current, key, value, source).key == key,
        written_entry(s, current, key, value, source).value == EntryValueView::Register(value),
        written_entry(s, current, key, value, source).crdt_type == CrdtType::LwwRegister,
        written_entry(s, current, key, value, source).node_id == s.node_id,
        written_entry(s, current, key, value, source).source == source,
        forall|c: Option<EntryView>|
            #![trigger written_entry(s, c, key, value, source)]
            written_entry(s, c, key, value, source).source == written_entry(
                s,
                current,
                key,
                value,
                source,
            ).source && written_entry(s, c, key, value, source).value == written_entry(
                s,
                current,
                key,
                value,
                source,
            ).value,
{
}

impl KvStore {
    /// The rules of the node `node_id`, which owns slot `node_index` of a
    /// cluster of `num_nodes`.
    pub fn new(node_id: NodeId, node_index: usize, num_nodes: usize) -> (s: KvStore)
        ensures
            s@ == (StoreIdentity { node_id: node_id@, node_index, num_nodes }),
    {
        KvStore { node_id, node_index, num_nodes }
    }

    /// The entry to store for a local write, given what is stored under the key
    /// now: a register with this node's slot of the clock raised by one.
    pub fn set(&self, current: Option<&Entry>, key: String, value_str: String, source: String) -> (r:
        Entry)
        requires
            self@.node_index < base_clock(opt_view(current), self@.num_nodes).len() ==> base_clock(
                opt_view(current),
                self@.num_nodes,
            )[self@.node_index as int] < u64::MAX,
        ensures
            r@ == written_entry(self@, opt_view(current), key@, value_str@, source@),
            r@.key == key@,
            r@.value == EntryValueView::Register(value_str@),
            r@.crdt_type == CrdtType::LwwRegister,
            r@.node_id == self@.node_id,
            r@.source == source@,
            self@.node_index < base_clock(opt_view(current), self@.num_nodes).len() ==> clock_order(
                r@.clock,
                base_clock(opt_view(current), self@.num_nodes),
            ) == ClockOrdering::After,
    {
        let mut clock = match current {
            Some(e) => crate::types::copy_counters(&e.clock),
            None => new_clock(self.num_nodes),
        };
        increment(&mut clock, self.node_index);
        proof {
            let b = base_clock(opt_view(current), self@.num_nodes);
            if (self.node_index as int) < b.len() {
                lemma_increment_is_after(b, self.node_index as int);
            }
        }
        Entry {
            key,
            value: EntryValue::Register(value_str),
            crdt_type: CrdtType::LwwRegister,
            clock,
            node_id: self.node_id.clone(),
            source,
        }
    }

    /// The entry to store when `incoming` arrives from another node: its merge
    /// with the stored entry, or `incoming` itself for a new key.
    pub fn apply_gossip(&self, local: Option<&Entry>, incoming: Entry) -> (r: Entry)
        ensures
            r@ == match local {
                Some(l) => merged_entry(l@, incoming@),
                None => incoming@,
            },
    {
        match local {
            Some(l) => merge_entries(l, &incoming),
            None => incoming,
        }
    }
}

} // verus!

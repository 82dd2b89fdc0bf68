//! The data that the nodes store and exchange.

use vstd::prelude::*;
use crate::text::{concat, push_char, push_decimal, decimal_chars, str_equal};

verus! {

pub type NodeId = String;

pub type Key = String;

pub type VectorClock = Vec<u64>;

/// Which CRDT an entry holds.
#[derive(Debug, Clone, Copy, PartialEq, Eq, Structural)]
pub enum CrdtType {
    /// single value, last write wins via vector clock
    LwwRegister,
    /// counter that only goes up
    GCounter,
    /// counter that goes up and down
    PnCounter,
    /// set that supports add and remove correctly
    OrSet,
}

/// One stored key with its value, clock and provenance.
#[derive(Debug, Clone)]
pub struct Entry {
    pub key: Key,
    pub value: EntryValue,
    pub crdt_type: CrdtType,
    pub clock: VectorClock,
    /// which node last wrote this
    pub node_id: NodeId,
    /// where the value came from, e.g. "frankfurter"
    pub source: String,
}

/// The value of an entry, one variant per CRDT.
#[derive(Debug, Clone)]
pub enum EntryValue {
    /// e.g. "0.921"
    Register(String),
    /// one slot per node
    GCounter(Vec<u64>),
    /// (increments, decrements)
    PnCounter(Vec<u64>, Vec<u64>),
    /// tagged items
    OrSet(Vec<OrSetItem>),
}

/// One add operation of an OR-Set.
#[derive(Debug, Clone)]
pub struct OrSetItem {
    pub value: String,
    /// a unique ID generated at add time
    pub tag: String,
    pub removed: bool,
}

/// The address of a peer node.
#[derive(Debug, Clone)]
pub struct NodeAddr {
    pub id: NodeId,
    pub host: String,
    pub port: u16,
}

pub struct OrSetItemView {
    pub value: Seq<char>,
    pub tag: Seq<char>,
    pub removed: bool,
}

pub enum EntryValueView {
    Register(Seq<char>),
    GCounter(Seq<u64>),
    PnCounter(Seq<u64>, Seq<u64>),
    OrSet(Seq<OrSetItemView>),
}

pub struct EntryView {
    pub key: Seq<char>,
    pub value: EntryValueView,
    pub crdt_type: CrdtType,
    pub clock: Seq<u64>,
    pub node_id: Seq<char>,
    pub source: Seq<char>,
}

pub struct NodeAddrView {
    pub id: Seq<char>,
    pub host: Seq<char>,
    pub port: u16,
}

impl View for OrSetItem {
    type V = OrSetItemView;

    open spec fn view(&self) -> OrSetItemView {
        OrSetItemView { value: self.value@, tag: self.tag@, removed: self.removed }
    }
}

/// The views of a sequence of OR-Set items.
pub open spec fn items_view(items: Seq<OrSetItem>) -> Seq<OrSetItemView> {
    items.map_values(|i: OrSetItem| i@)
}

impl View for EntryValue {
    type V = EntryValueView;

    open spec fn view(&self) -> EntryValueView {
        match self {
            EntryValue::Register(s) => EntryValueView::Register(s@),
            EntryValue::GCounter(c) => EntryValueView::GCounter(c@),
            EntryValue::PnCounter(inc, dec) => EntryValueView::PnCounter(inc@, dec@),
            EntryValue::OrSet(items) => EntryValueView::OrSet(items_view(items@)),
        }
    }
}

impl View for Entry {
    type V = EntryView;

    open spec fn view(&self) -> EntryView {
        EntryView {
            key: self.key@,
            value: self.value@,
            crdt_type: self.crdt_type,
            clock: self.clock@,
            node_id: self.node_id@,
            source: self.source@,
        }
    }
}

impl View for NodeAddr {
    type V = NodeAddrView;

    open spec fn view(&self) -> NodeAddrView {
        NodeAddrView { id: self.id@, host: self.host@, port: self.port }
    }
}

/// A copy of a vector of counters.
pub(crate) fn copy_counters(v: &Vec<u64>) -> (r: Vec<u64>)
    ensures
        r@ == v@,
{
    let mut r: Vec<u64> = Vec::new();
    let mut i: usize = 0;
    while i < v.len()
        invariant
            i <= v.len(),
            r@ == v@.take(i as int),
        decreases v.len() - i,
    {
        r.push(v[i]);
        assert(v@.take(i as int).push(v@[i as int]) =~= v@.take(i + 1));
        i = i + 1;
    }
    assert(v@.take(v.len() as int) =~= v@);
    r
}

impl OrSetItem {
    /// A copy of this item.
    pub(crate) fn copy(&self) -> (r: OrSetItem)
        ensures
            r@ == self@,
    {
        OrSetItem { value: self.value.clone(), tag: self.tag.clone(), removed: self.removed }
    }
}

/// A copy of a list of OR-Set items.
pub(crate) fn copy_items(v: &Vec<OrSetItem>) -> (r: Vec<OrSetItem>)
    ensures
        items_view(r@) == items_view(v@),
{
    let mut r: Vec<OrSetItem> = Vec::new();
    let mut i: usize = 0;
    while i < v.len()
        invariant
            i <= v.len(),
            items_view(r@) == items_view(v@.take(i as int)),
        decreases v.len() - i,
    {
        r.push(v[i].copy());
        assert(items_view(v@.take(i + 1)) =~= items_view(v@.take(i as int)).push(v@[i as int]@));
        assert(items_view(r@) =~= items_view(v@.take(i + 1)));
        i = i + 1;
    }
    assert(v@.take(v.len() as int) =~= v@);
    r
}

impl EntryValue {
    /// A copy of this value.
    pub(crate) fn copy(&self) -> (r: EntryValue)
        ensures
            r@ == self@,
    {
        match self {
            EntryValue::Register(s) => EntryValue::Register(s.clone()),
            EntryValue::GCounter(c) => EntryValue::GCounter(copy_counters(c)),
            EntryValue::PnCounter(inc, dec) => EntryValue::PnCounter(
                copy_counters(inc),
                copy_counters(dec),
            ),
            EntryValue::OrSet(items) => EntryValue::OrSet(copy_items(items)),
        }
    }
}

impl Entry {
    /// A copy of this entry.
    pub(crate) fn copy(&self) -> (r: Entry)
        ensures
            r@ == self@,
    {
        Entry {
            key: self.key.clone(),
            value: self.value.copy(),
            crdt_type: self.crdt_type,
            clock: copy_counters(&self.clock),
            node_id: self.node_id.clone(),
            source: self.source.clone(),
        }
    }
}

impl NodeAddr {
    /// The gRPC endpoint of this peer: `http://host:port`.
    pub fn to_addr(&self) -> (addr: String)
        ensures
            addr@ == "http://"@ + self.host@ + ":"@ + decimal_chars(self.port as nat),
    {
        let mut addr = concat("http://", self.host.as_str());
        push_char(&mut addr, ':');
        push_decimal(&mut addr, self.port);
        proof {
            reveal_strlit(":");
        }
        assert(addr@ =~= "http://"@ + self.host@ + ":"@ + decimal_chars(self.port as nat));
        addr
    }
}

/// How authoritative a source of rates is: frankfurter 3, coincap 2, manual 1,
/// anything else 0.
pub open spec fn priority_of(source: Seq<char>) -> u8 {
    if source == "frankfurter"@ {
        3
    } else if source == "coincap"@ {
        2
    } else if source == "manual"@ {
        1
    } else {
        0
    }
}

/// How authoritative a source of rates is.
pub fn source_priority(source: &str) -> (p: u8)
    ensures
        p == priority_of(source@),
{
    if str_equal(source, "frankfurter") {
        3
    } else if str_equal(source, "coincap") {
        2
    } else if str_equal(source, "manual") {
        1
    } else {
        0
    }
}

} // verus!

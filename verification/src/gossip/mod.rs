//! Anti-entropy gossip: digests, deltas and the messages that carry them.

pub mod delta;
pub mod digest;

use vstd::prelude::*;
use crate::text::{str_equal, string_from_chars};
use crate::types::{copy_counters, CrdtType, Entry, EntryValue, EntryValueView, EntryView, NodeAddr};

verus! {

/// One entry as the gossip protocol carries it: the value travels as text,
/// and an empty value when only the key and clock are summarised.
#[derive(Debug, Clone)]
pub struct GossipEntry {
    pub key: String,
    pub value: String,
    pub vector_clock: Vec<u64>,
    pub crdt_type: String,
}

pub struct GossipEntryView {
    pub key: Seq<char>,
    pub value: Seq<char>,
    pub vector_clock: Seq<u64>,
    pub crdt_type: Seq<char>,
}

impl View for GossipEntry {
    type V = GossipEntryView;

    open spec fn view(&self) -> GossipEntryView {
        GossipEntryView {
            key: self.key@,
            value: self.value@,
            vector_clock: self.vector_clock@,
            crdt_type: self.crdt_type@,
        }
    }
}

/// The name of a CRDT kind on the wire, as its `Debug` form writes it.
pub open spec fn crdt_type_name_of(t: CrdtType) -> Seq<char> {
    match t {
        CrdtType::LwwRegister => "LwwRegister"@,
        CrdtType::GCounter => "GCounter"@,
        CrdtType::PnCounter => "PnCounter"@,
        CrdtType::OrSet => "OrSet"@,
    }
}

/// The kind of CRDT that a wire name denotes, if any.
pub open spec fn crdt_type_from_name(name: Seq<char>) -> Option<CrdtType> {
    if name == "LwwRegister"@ {
        Some(CrdtType::LwwRegister)
    } else if name == "GCounter"@ {
        Some(CrdtType::GCounter)
    } else if name == "PnCounter"@ {
        Some(CrdtType::PnCounter)
    } else if name == "OrSet"@ {
        Some(CrdtType::OrSet)
    } else {
        None
    }
}

fn string_of(s: &str) -> (r: String)
    ensures
        r@ == s@,
{
    let cs = crate::text::chars_of(s);
    string_from_chars(cs.as_slice())
}

/// The wire name of a CRDT kind.
pub fn crdt_type_name(t: CrdtType) -> (name: String)
    ensures
        name@ == crdt_type_name_of(t),
{
    match t {
        CrdtType::LwwRegister => string_of("LwwRegister"),
        CrdtType::GCounter => string_of("GCounter"),
        CrdtType::PnCounter => string_of("PnCounter"),
        CrdtType::OrSet => string_of("OrSet"),
    }
}

/// The kind of CRDT that a wire name denotes.
pub fn parse_crdt_type(name: &str) -> (t: Option<CrdtType>)
    ensures
        t == crdt_type_from_name(name@),
{
    if str_equal(name, "LwwRegister") {
        Some(CrdtType::LwwRegister)
    } else if str_equal(name, "GCounter") {
        Some(CrdtType::GCounter)
    } else if str_equal(name, "PnCounter") {
        Some(CrdtType::PnCounter)
    } else if str_equal(name, "OrSet") {
        Some(CrdtType::OrSet)
    } else {
        None
    }
}

/// The text that stands for a value on the wire: a register's string, and
/// an empty string for every other kind.
pub open spec fn wire_value(v: EntryValueView) -> Seq<char> {
    match v {
        EntryValueView::Register(s) => s,
        _ => Seq::empty(),
    }
}

/// The wire text of a value.
pub fn value_text(v: &EntryValue) -> (s: String)
    ensures
        s@ == wire_value(v@),
{
    match v {
        EntryValue::Register(s) => s.clone(),
        _ => String::new(),
    }
}

/// The gossip message that carries `entry` with its value.
pub open spec fn entry_message(e: EntryView) -> GossipEntryView {
    GossipEntryView {
        key: e.key,
        value: wire_value(e.value),
        vector_clock: e.clock,
        crdt_type: crdt_type_name_of(e.crdt_type),
    }
}

/// The gossip message for one entry, value included.
pub fn entry_to_proto(entry: &Entry) -> (m: GossipEntry)
    ensures
        m@ == entry_message(entry@),
{
    GossipEntry {
        key: entry.key.clone(),
        value: value_text(&entry.value),
        vector_clock: copy_counters(&entry.clock),
        crdt_type: crdt_type_name(entry.crdt_type),
    }
}

/// The digest message for one entry: its key, clock and kind, with an empty value.
pub open spec fn digest_message(e: EntryView) -> GossipEntryView {
    GossipEntryView {
        key: e.key,
        value: Seq::empty(),
        vector_clock: e.clock,
        crdt_type: crdt_type_name_of(e.crdt_type),
    }
}

/// The digest that opens a gossip round: one message per local entry, in order,
/// without values.
pub fn digest_messages(entries: &[Entry]) -> (r: Vec<GossipEntry>)
    ensures
        r@.len() == entries@.len(),
        forall|i: int| 0 <= i < r@.len() ==> #[trigger] r@[i]@ == digest_message(entries@[i]@),
{
    let mut r: Vec<GossipEntry> = Vec::new();
    let mut i: usize = 0;
    while i < entries.len()
        invariant
            i <= entries.len(),
            r@.len() == i,
            forall|k: int| 0 <= k < i ==> #[trigger] r@[k]@ == digest_message(entries@[k]@),
        decreases entries.len() - i,
    {
        let e = &entries[i];
        r.push(
            GossipEntry {
                key: e.key.clone(),
                value: String::new(),
                vector_clock: copy_counters(&e.clock),
                crdt_type: crdt_type_name(e.crdt_type),
            },
        );
        i = i + 1;
    }
    r
}

/// The entry that a received gossip message stands for: a register holding the
/// message's text, from the "gossip" source and no node; `None` when the kind
/// name is unknown.
pub open spec fn message_entry(m: GossipEntryView) -> Option<EntryView> {
    match crdt_type_from_name(m.crdt_type) {
        Some(t) => Some(
            EntryView {
                key: m.key,
                value: EntryValueView::Register(m.value),
                crdt_type: t,
                clock: m.vector_clock,
                node_id: Seq::empty(),
                source: "gossip"@,
            },
        ),
        None => None,
    }
}

/// The entry that a received gossip message stands for.
pub fn proto_to_entry(proto: GossipEntry) -> (r: Option<Entry>)
    ensures
        match message_entry(proto@) {
            Some(e) => r is Some && r->0@ == e,
            None => r is None,
        },
{
    let crdt_type = match parse_crdt_type(proto.crdt_type.as_str()) {
        Some(t) => t,
        None => return None,
    };
    Some(
        Entry {
            key: proto.key,
            value: EntryValue::Register(proto.value),
            crdt_type,
            clock: proto.vector_clock,
            node_id: String::new(),
            source: string_of("gossip"),
        },
    )
}

/// The entries that received gossip messages stand for, in order; messages of
/// unknown kind are dropped.
pub open spec fn message_entries(ms: Seq<GossipEntryView>) -> Seq<EntryView>
    decreases ms.len(),
{
    if ms.len() == 0 {
        Seq::empty()
    } else {
        message_entries(ms.drop_last()) + match message_entry(ms.last()) {
            Some(e) => seq![e],
            None => Seq::empty(),
        }
    }
}

/// The entries that a gossip answer carries, to be applied in order.
pub fn entries_from_messages(ms: &[GossipEntry]) -> (r: Vec<Entry>)
    ensures
        r@.map_values(|e: Entry| e@) == message_entries(ms@.map_values(|m: GossipEntry| m@)),
{
    let ghost mv = ms@.map_values(|m: GossipEntry| m@);
    let mut r: Vec<Entry> = Vec::new();
    let mut i: usize = 0;
    while i < ms.len()
        invariant
            i <= ms.len(),
            mv == ms@.map_values(|m: GossipEntry| m@),
            r@.map_values(|e: Entry| e@) == message_entries(mv.take(i as int)),
        decreases ms.len() - i,
    {
        assert(mv.take(i + 1).drop_last() =~= mv.take(i as int));
        assert(mv.take(i + 1).last() == ms@[i as int]@);
        let m = &ms[i];
        let copy = GossipEntry {
            key: m.key.clone(),
            value: m.value.clone(),
            vector_clock: copy_counters(&m.vector_clock),
            crdt_type: m.crdt_type.clone(),
        };
        let ghost before = r@.map_values(|e: Entry| e@);
        match proto_to_entry(copy) {
            Some(e) => {
                r.push(e);
            },
            None => {},
        }
        assert(r@.map_values(|e: Entry| e@) =~= message_entries(mv.take(i + 1)));
        i = i + 1;
    }
    assert(mv.take(ms.len() as int) =~= mv);
    r
}

/// The peer at `nanos` modulo the number of peers.
pub fn peer_at(peers: &[NodeAddr], nanos: u32) -> (p: &NodeAddr)
    requires
        peers@.len() > 0,
    ensures
        *p == peers@[(nanos as int) % (peers@.len() as int)],
{
    let idx = (nanos as usize) % peers.len();
    &peers[idx]
}

/// The sub-second nanoseconds of the system clock since the Unix epoch;
/// `None` when the clock reads a time before the epoch.
///
/// Calls `SystemTime::now` and `duration_since(UNIX_EPOCH)`, then
/// `Duration::subsec_nanos`, which the standard library documents as below one
/// billion. The value depends on the time: the contract states that bound only.
#[verifier::external_body]
fn clock_subsec_nanos() -> (n: Option<u32>)
    ensures
        n matches Some(v) ==> v < 1_000_000_000,
{
    match std::time::SystemTime::now().duration_since(std::time::UNIX_EPOCH) {
        Ok(d) => Some(d.subsec_nanos()),
        Err(_) => None,
    }
}

/// Pick a peer by the current sub-second time. A clock set before the Unix
/// epoch picks the first peer.
pub fn pick_random_peer(peers: &[NodeAddr]) -> (p: &NodeAddr)
    requires
        peers@.len() > 0,
    ensures
        peers@.contains(*p),
{
    let nanos = match clock_subsec_nanos() {
        Some(n) => n,
        None => 0,
    };
    let p = peer_at(peers, nanos);
    assert(peers@[(nanos as int) % (peers@.len() as int)] == *p);
    p
}

} // verus!

//! What the node's request handlers answer.

use vstd::prelude::*;
use crate::gossip::delta::{compute_delta, delta_of, entries_view};
use crate::gossip::digest::{DigestEntry, DigestView};
use crate::gossip::{entry_message, entry_to_proto, wire_value, GossipEntry, GossipEntryView};
use crate::types::{copy_counters, Entry, EntryView};

verus! {

/// The answer to a read: the register's text when the key is found.
#[derive(Debug, Clone)]
pub struct GetResponse {
    pub value: String,
    pub found: bool,
}

/// Answer a read from the entry stored under the key, if any. Only registers
/// have a text value; other kinds answer an empty string.
pub fn get_response(entry: Option<&Entry>) -> (r: GetResponse)
    ensures
        r.found == entry is Some,
        r.value@ == match entry {
            Some(e) => wire_value(e.value@),
            None => Seq::<char>::empty(),
        },
{
    match entry {
        Some(e) => GetResponse { value: crate::gossip::value_text(&e.value), found: true },
        None => GetResponse { value: String::new(), found: false },
    }
}

/// The digest that a received gossip message summarises.
pub open spec fn message_digest(m: GossipEntryView) -> DigestView {
    DigestView { key: m.key, clock: m.vector_clock }
}

/// The views of a sequence of gossip messages.
pub open spec fn messages_view(ms: Seq<GossipEntry>) -> Seq<GossipEntryView> {
    ms.map_values(|m: GossipEntry| m@)
}

/// Answer a gossip digest: the messages for the local entries that the sender
/// needs, values included.
pub fn gossip_response(local_entries: &[Entry], incoming: &[GossipEntry]) -> (r: Vec<GossipEntry>)
    ensures
        messages_view(r@) == delta_of(
            entries_view(local_entries@),
            messages_view(incoming@).map_values(|m: GossipEntryView| message_digest(m)),
        ).map_values(|e: EntryView| entry_message(e)),
{
    let mut digest: Vec<DigestEntry> = Vec::new();
    let mut i: usize = 0;
    while i < incoming.len()
        invariant
            i <= incoming.len(),
            digest@.len() == i,
            forall|k: int| 0 <= k < i ==> #[trigger] digest@[k]@ == message_digest(incoming@[k]@),
        decreases incoming.len() - i,
    {
        digest.push(
            DigestEntry { key: incoming[i].key.clone(), clock: copy_counters(&incoming[i].vector_clock) },
        );
        i = i + 1;
    }
    assert(digest@.map_values(|d: DigestEntry| d@) =~= messages_view(incoming@).map_values(
        |m: GossipEntryView| message_digest(m),
    ));
    let delta = compute_delta(local_entries, digest.as_slice());
    let mut r: Vec<GossipEntry> = Vec::new();
    let mut j: usize = 0;
    while j < delta.len()
        invariant
            j <= delta.len(),
            r@.len() == j,
            forall|k: int| 0 <= k < j ==> #[trigger] r@[k]@ == entry_message(delta@[k]@),
        decreases delta.len() - j,
    {
        r.push(entry_to_proto(&delta[j]));
        j = j + 1;
    }
    assert(messages_view(r@) =~= entries_view(delta@).map_values(|e: EntryView| entry_message(e)));
    r
}

} // verus!

//! Gossip digests: the key and clock of each entry, without its value.

use vstd::prelude::*;
use crate::types::{copy_counters, Entry};

verus! {

/// A lightweight summary of one entry: its key and clock.
#[derive(Debug, Clone)]
pub struct DigestEntry {
    pub key: String,
    pub clock: Vec<u64>,
}

pub struct DigestView {
    pub key: Seq<char>,
    pub clock: Seq<u64>,
}

impl View for DigestEntry {
    type V = DigestView;

    open spec fn view(&self) -> DigestView {
        DigestView { key: self.key@, clock: self.clock@ }
    }
}

/// Build a digest from a list of entries: one summary per entry, in order.
pub fn build_digest(entries: &[Entry]) -> (r: Vec<DigestEntry>)
    ensures
        r@.len() == entries@.len(),
        forall|i: int|
            0 <= i < r@.len() ==> #[trigger] r@[i]@ == (DigestView {
                key: entries@[i].key@,
                clock: entries@[i].clock@,
            }),
{
    let mut r: Vec<DigestEntry> = Vec::new();
    let mut i: usize = 0;
    while i < entries.len()
        invariant
            i <= entries.len(),
            r@.len() == i,
            forall|k: int|
                0 <= k < i ==> #[trigger] r@[k]@ == (DigestView {
                    key: entries@[k].key@,
                    clock: entries@[k].clock@,
                }),
        decreases entries.len() - i,
    {
        let e = &entries[i];
        r.push(DigestEntry { key: e.key.clone(), clock: copy_counters(&e.clock) });
        i = i + 1;
    }
    r
}

} // verus!

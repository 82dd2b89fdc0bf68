//! Gossip deltas: the entries a peer is missing, judged from its digest.

use vstd::prelude::*;
use crate::gossip::digest::{DigestEntry, DigestView};
use crate::types::{copy_counters, Entry, EntryView};
use crate::vector_clock::{clock_order, compare, new_clock, ClockOrdering};

verus! {

/// The clock of the first digest entry for `key`, if there is one.
pub open spec fn digest_clock(digest: Seq<DigestView>, key: Seq<char>) -> Option<Seq<u64>>
    decreases digest.len(),
{
    if digest.len() == 0 {
        None
    } else if digest[0].key == key {
        Some(digest[0].clock)
    } else {
        digest_clock(digest.drop_first(), key)
    }
}

/// The clock the sender holds for `local`'s key: its digest clock, or zeros
/// as long as `local`'s clock when the digest does not name the key.
pub open spec fn sender_clock(local: EntryView, digest: Seq<DigestView>) -> Seq<u64> {
    match digest_clock(digest, local.key) {
        Some(c) => c,
        None => Seq::new(local.clock.len(), |i: int| 0u64),
    }
}

/// Whether the sender needs `local`: our clock is newer than, or concurrent
/// with, the one it holds.
pub open spec fn sender_needs(local: EntryView, digest: Seq<DigestView>) -> bool {
    let o = clock_order(local.clock, sender_clock(local, digest));
    o == ClockOrdering::After || o == ClockOrdering::Concurrent
}

/// The local entries that the sender of `digest` needs, in order.
pub open spec fn delta_of(locals: Seq<EntryView>, digest: Seq<DigestView>) -> Seq<EntryView>
    decreases locals.len(),
{
    if locals.len() == 0 {
        Seq::empty()
    } else if sender_needs(locals.last(), digest) {
        delta_of(locals.drop_last(), digest).push(locals.last())
    } else {
        delta_of(locals.drop_last(), digest)
    }
}

/// The views of a sequence of entries.
pub open spec fn entries_view(entries: Seq<Entry>) -> Seq<EntryView> {
    entries.map_values(|e: Entry| e@)
}

/// The views of a sequence of digest entries.
pub open spec fn digest_view(digest: Seq<DigestEntry>) -> Seq<DigestView> {
    digest.map_values(|d: DigestEntry| d@)
}

fn find_digest_clock<'a>(digest: &'a [DigestEntry], key: &String) -> (r: Option<&'a Vec<u64>>)
    ensures
        match digest_clock(digest_view(digest@), key@) {
            Some(c) => r is Some && r->0@ == c,
            None => r is None,
        },
{
    let mut i: usize = 0;
    assert(digest_view(digest@).skip(0) =~= digest_view(digest@));
    while i < digest.len()
        invariant
            i <= digest.len(),
            digest_clock(digest_view(digest@), key@) == digest_clock(
                digest_view(digest@).skip(i as int),
                key@,
            ),
        decreases digest.len() - i,
    {
        assert(digest_view(digest@).skip(i as int)[0] == digest@[i as int]@);
        if digest[i].key == *key {
            return Some(&digest[i].clock);
        }
        assert(digest_view(digest@).skip(i as int).drop_first() =~= digest_view(digest@).skip(
            i + 1,
        ));
        i = i + 1;
    }
    None
}

/// The local entries where we are ahead of, or concurrent with, the sender of
/// `incoming_digest`; a key missing from the digest counts as an all-zero clock.
pub fn compute_delta(local_entries: &[Entry], incoming_digest: &[DigestEntry]) -> (delta: Vec<
    Entry,
>)
    ensures
        entries_view(delta@) == delta_of(entries_view(local_entries@), digest_view(incoming_digest@)),
{
    let mut delta: Vec<Entry> = Vec::new();
    let mut i: usize = 0;
    let ghost dv = digest_view(incoming_digest@);
    let ghost lv = entries_view(local_entries@);
    while i < local_entries.len()
        invariant
            i <= local_entries.len(),
            dv == digest_view(incoming_digest@),
            lv == entries_view(local_entries@),
            entries_view(delta@) == delta_of(lv.take(i as int), dv),
        decreases local_entries.len() - i,
    {
        let local = &local_entries[i];
        assert(lv.take(i + 1).drop_last() =~= lv.take(i as int));
        assert(lv.take(i + 1).last() == local@);
        let sender: Vec<u64> = match find_digest_clock(incoming_digest, &local.key) {
            Some(c) => copy_counters(c),
            None => new_clock(local.clock.len()),
        };
        let o = compare(&local.clock, &sender);
        match o {
            ClockOrdering::After | ClockOrdering::Concurrent => {
                let ghost before = delta@;
                delta.push(local.copy());
                assert(entries_view(delta@) =~= entries_view(before).push(local@));
            },
            _ => {},
        }
        i = i + 1;
    }
    assert(lv.take(local_entries.len() as int) =~= lv);
    delta
}

/// An entry stays out of the delta exactly when the sender already holds a
/// clock equal to or newer than ours: what the sender is sent is what it lacks.
pub proof fn lemma_delta_membership(locals: Seq<EntryView>, digest: Seq<DigestView>, e: EntryView)
    requires
        locals.contains(e),
    ensures
        delta_of(locals, digest).contains(e) <==> sender_needs(e, digest),
    decreases locals.len(),
{
    let p = locals.drop_last();
    if locals.last() == e {
        if sender_needs(e, digest) {
            assert(delta_of(locals, digest).last() == e);
        } else if p.contains(e) {
            lemma_delta_membership(p, digest, e);
        } else {
            lemma_delta_subset(p, digest, e);
        }
    } else {
        let k = choose|k: int| 0 <= k < locals.len() && locals[k] == e;
        assert(p[k] == e);
        lemma_delta_membership(p, digest, e);
        if sender_needs(locals.last(), digest) {
            let d = delta_of(p, digest);
            if d.push(locals.last()).contains(e) {
                let j = choose|j: int| 0 <= j < d.len() + 1 && d.push(locals.last())[j] == e;
                assert(d[j] == e);
            }
            if d.contains(e) {
                let j = choose|j: int| 0 <= j < d.len() && d[j] == e;
                assert(d.push(locals.last())[j] == e);
            }
        }
    }
}

/// Every entry of a delta is one of the local entries.
pub proof fn lemma_delta_subset(locals: Seq<EntryView>, digest: Seq<DigestView>, e: EntryView)
    ensures
        delta_of(locals, digest).contains(e) ==> locals.contains(e),
    decreases locals.len(),
{
    if locals.len() > 0 {
        let p = locals.drop_last();
        lemma_delta_subset(p, digest, e);
        let d = delta_of(p, digest);
        if delta_of(locals, digest).contains(e) {
            if sender_needs(locals.last(), digest) {
                let j = choose|j: int| 0 <= j < d.len() + 1 && d.push(locals.last())[j] == e;
                if j < d.len() {
                    assert(d[j] == e);
                    let k = choose|k: int| 0 <= k < p.len() && p[k] == e;
                    assert(locals[k] == e);
                } else {
                    assert(locals[locals.len() - 1] == e);
                }
            } else {
                let k = choose|k: int| 0 <= k < p.len() && p[k] == e;
                assert(locals[k] == e);
            }
        }
    }
}

} // verus!

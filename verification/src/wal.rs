//! The write-ahead log's record framing: each record is its length as four
//! big-endian bytes followed by its bytes.

use vstd::prelude::*;
use std::collections::HashMap;
use crate::types::{Entry, Key};

verus! {

/// One logged operation.
#[derive(Debug, Clone)]
pub enum WalOp {
    /// store an entry
    SetEntry(Entry),
    Delete(String),
}

/// A full copy of the store at a point in time.
#[derive(Debug, Clone)]
pub struct Snapshot {
    pub entries: HashMap<Key, Entry>,
}

/// The four big-endian bytes of `n`.
pub open spec fn be_bytes(n: u32) -> Seq<u8> {
    seq![
        (n / 0x100_0000) as u8,
        ((n / 0x1_0000) % 0x100) as u8,
        ((n / 0x100) % 0x100) as u8,
        (n % 0x100) as u8,
    ]
}

/// The number that four big-endian bytes denote.
pub open spec fn be_value(b: Seq<u8>) -> int {
    b[0] * 0x100_0000 + b[1] * 0x1_0000 + b[2] * 0x100 + b[3]
}

/// One framed record: the payload's length modulo 2^32 as a big-endian prefix,
/// then the payload.
pub open spec fn frame(p: Seq<u8>) -> Seq<u8> {
    be_bytes((p.len() % 0x1_0000_0000) as u32) + p
}

/// The records in a log image, and whether it ends in a record whose payload
/// was cut short. A trailing piece shorter than a length prefix is ignored.
pub open spec fn scan(data: Seq<u8>) -> (Seq<Seq<u8>>, bool)
    decreases data.len(),
{
    if data.len() < 4 {
        (Seq::empty(), false)
    } else {
        let n = be_value(data.take(4));
        if data.len() - 4 < n {
            (Seq::empty(), true)
        } else {
            let rest = scan(data.skip(4 + n));
            (seq![data.subrange(4, 4 + n)] + rest.0, rest.1)
        }
    }
}

/// The log image that appending the payloads in order produces.
pub open spec fn frames(ps: Seq<Seq<u8>>) -> Seq<u8>
    decreases ps.len(),
{
    if ps.len() == 0 {
        Seq::empty()
    } else {
        frame(ps[0]) + frames(ps.drop_first())
    }
}

/// What a scan of a log image found.
#[derive(Debug, Clone)]
pub struct RecordScan {
    /// the payloads of the complete records, in order
    pub records: Vec<Vec<u8>>,
    /// the image ends in a record whose payload was cut short
    pub truncated: bool,
}

/// Frame one payload for appending to the log.
pub fn frame_record(payload: &[u8]) -> (r: Vec<u8>)
    ensures
        r@ == frame(payload@),
{
    let len: u32 = (payload.len() as u64 % 0x1_0000_0000u64) as u32;
    let mut r: Vec<u8> = Vec::new();
    r.push((len / 0x100_0000) as u8);
    r.push(((len / 0x1_0000) % 0x100) as u8);
    r.push(((len / 0x100) % 0x100) as u8);
    r.push((len % 0x100) as u8);
    let mut i: usize = 0;
    while i < payload.len()
        invariant
            i <= payload.len(),
            r@ == be_bytes(len) + payload@.take(i as int),
        decreases payload.len() - i,
    {
        r.push(payload[i]);
        assert(be_bytes(len) + payload@.take(i + 1) =~= (be_bytes(len) + payload@.take(
            i as int,
        )).push(payload@[i as int]));
        i = i + 1;
    }
    assert(payload@.take(payload.len() as int) =~= payload@);
    r
}

/// The records of a log image, in order.
pub fn scan_records(data: &[u8]) -> (r: RecordScan)
    ensures
        r.records@.map_values(|v: Vec<u8>| v@) == scan(data@).0,
        r.truncated == scan(data@).1,
{
    let mut records: Vec<Vec<u8>> = Vec::new();
    let mut pos: usize = 0;
    let mut truncated = false;
    assert(data@.skip(0) =~= data@);
    loop
        invariant_except_break
            pos <= data.len(),
            !truncated,
            scan(data@).0 == records@.map_values(|v: Vec<u8>| v@) + scan(data@.skip(pos as int)).0,
            scan(data@).1 == scan(data@.skip(pos as int)).1,
        ensures
            records@.map_values(|v: Vec<u8>| v@) == scan(data@).0,
            truncated == scan(data@).1,
        decreases data.len() - pos,
    {
        let ghost rest = data@.skip(pos as int);
        if data.len() - pos < 4 {
            assert(rest.len() < 4);
            assert(scan(rest).0 =~= Seq::<Seq<u8>>::empty());
            assert(!scan(rest).1);
            assert(records@.map_values(|v: Vec<u8>| v@) + scan(rest).0 =~= records@.map_values(
                |v: Vec<u8>| v@,
            ));
            break;
        }
        let n: u64 = (data[pos] as u64) * 0x100_0000 + (data[pos + 1] as u64) * 0x1_0000
            + (data[pos + 2] as u64) * 0x100 + (data[pos + 3] as u64);
        assert(rest.take(4) =~= data@.subrange(pos as int, pos + 4));
        assert(n == be_value(rest.take(4)));
        if ((data.len() - pos - 4) as u64) < n {
            assert(records@.map_values(|v: Vec<u8>| v@) + scan(rest).0 =~= records@.map_values(
                |v: Vec<u8>| v@,
            ));
            truncated = true;
            break;
        }
        let start = pos + 4;
        let end = start + n as usize;
        let mut rec: Vec<u8> = Vec::new();
        let mut k: usize = start;
        while k < end
            invariant
                start <= k <= end <= data.len(),
                rec@ == data@.subrange(start as int, k as int),
            decreases end - k,
        {
            rec.push(data[k]);
            assert(data@.subrange(start as int, k + 1) =~= data@.subrange(start as int, k as int).push(
                data@[k as int],
            ));
            k = k + 1;
        }
        let ghost before = records@.map_values(|v: Vec<u8>| v@);
        assert(rest.subrange(4, 4 + n) =~= data@.subrange(start as int, end as int));
        assert(rest.skip(4 + n) =~= data@.skip(end as int));
        records.push(rec);
        assert(records@.map_values(|v: Vec<u8>| v@) =~= before.push(
            data@.subrange(start as int, end as int),
        ));
        assert(before + scan(rest).0 =~= records@.map_values(|v: Vec<u8>| v@) + scan(
            data@.skip(end as int),
        ).0);
        pos = end;
    }
    RecordScan { records, truncated }
}

/// The big-endian bytes of a number denote that number again.
pub proof fn lemma_be_round_trip(n: u32)
    ensures
        be_value(be_bytes(n)) == n,
{
    let b = be_bytes(n);
    assert(b[0] == n / 0x100_0000);
    assert(b[1] == (n / 0x1_0000) % 0x100);
    assert(b[2] == (n / 0x100) % 0x100);
    assert(b[3] == n % 0x100);
    assert((n / 0x100_0000) * 0x100_0000 + ((n / 0x1_0000) % 0x100) * 0x1_0000 + ((n / 0x100)
        % 0x100) * 0x100 + n % 0x100 == n) by (nonlinear_arith);
}

/// Reading back a log gives the records that were appended, in order, and no
/// cut-short record: what replay returns is what was written.
pub proof fn lemma_scan_frames(ps: Seq<Seq<u8>>)
    requires
        forall|i: int| 0 <= i < ps.len() ==> #[trigger] ps[i].len() < 0x1_0000_0000,
    ensures
        scan(frames(ps)) == (ps, false),
    decreases ps.len(),
{
    if ps.len() == 0 {
        assert(scan(frames(ps)).0 =~= ps);
    } else {
        let p = ps[0];
        let rest = ps.drop_first();
        assert forall|i: int| 0 <= i < rest.len() implies #[trigger] rest[i].len() < 0x1_0000_0000 by {
            assert(rest[i] == ps[i + 1]);
        }
        lemma_scan_frames(rest);
        let d = frames(ps);
        let len = (p.len() % 0x1_0000_0000) as u32;
        assert(len == p.len());
        lemma_be_round_trip(len);
        assert(d.take(4) =~= be_bytes(len));
        assert(d.subrange(4, 4 + p.len() as int) =~= p);
        assert(d.skip(4 + p.len() as int) =~= frames(rest));
        assert(scan(d).0 =~= ps);
    }
}

} // verus!

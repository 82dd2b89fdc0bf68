use crdt_store::store::KvStore;
use crdt_store::types::{CrdtType, Entry, EntryValue};
use crdt_store::vector_clock::{compare, ClockOrdering};

#[test]
fn first_write_starts_a_fresh_clock() {
    let s = KvStore::new("node-b".to_string(), 1, 3);
    let e = s.set(None, "rates:fiat:USD/EUR".to_string(), "0.92".to_string(), "manual".to_string());
    assert_eq!(e.clock, vec![0, 1, 0]);
    assert_eq!(e.key, "rates:fiat:USD/EUR");
    assert!(matches!(&e.value, EntryValue::Register(v) if v == "0.92"));
    assert_eq!(e.crdt_type, CrdtType::LwwRegister);
    assert_eq!(e.node_id, "node-b");
    assert_eq!(e.source, "manual");
}

#[test]
fn later_write_dominates_the_previous() {
    let s = KvStore::new("node-a".to_string(), 0, 3);
    let first = s.set(None, "k".to_string(), "1".to_string(), "manual".to_string());
    let second = s.set(Some(&first), "k".to_string(), "2".to_string(), "frankfurter".to_string());
    assert_eq!(second.clock, vec![2, 0, 0]);
    assert_eq!(compare(&second.clock, &first.clock), ClockOrdering::After);
}

#[test]
fn gossip_merges_with_stored_entry() {
    let s = KvStore::new("node-c".to_string(), 2, 3);
    let incoming = Entry {
        key: "k".to_string(),
        value: EntryValue::Register("x".to_string()),
        crdt_type: CrdtType::LwwRegister,
        clock: vec![1, 0, 0],
        node_id: "node-a".to_string(),
        source: "manual".to_string(),
    };
    let stored = s.apply_gossip(None, incoming.clone());
    assert_eq!(stored.clock, vec![1, 0, 0]);
    let local = s.set(Some(&stored), "k".to_string(), "y".to_string(), "manual".to_string());
    assert_eq!(local.clock, vec![1, 0, 1]);
    let again = s.apply_gossip(Some(&local), incoming);
    assert_eq!(again.clock, vec![1, 0, 1]);
    assert!(matches!(&again.value, EntryValue::Register(v) if v == "y"));
}

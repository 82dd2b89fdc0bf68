use crdt_store::gossip::delta::compute_delta;
use crdt_store::gossip::digest::{build_digest, DigestEntry};
use crdt_store::gossip::{
    crdt_type_name, digest_messages, entry_to_proto, parse_crdt_type, peer_at, pick_random_peer,
    proto_to_entry, GossipEntry,
};
use crdt_store::server::{get_response, gossip_response};
use crdt_store::types::{CrdtType, Entry, EntryValue, NodeAddr};

fn entry(key: &str, clock: Vec<u64>) -> Entry {
    Entry {
        key: key.to_string(),
        value: EntryValue::Register(format!("v-{}", key)),
        crdt_type: CrdtType::LwwRegister,
        clock,
        node_id: "node-a".to_string(),
        source: "manual".to_string(),
    }
}

fn digest(key: &str, clock: Vec<u64>) -> DigestEntry {
    DigestEntry { key: key.to_string(), clock }
}

#[test]
fn digest_keeps_keys_and_clocks() {
    let d = build_digest(&[entry("a", vec![1, 0]), entry("b", vec![0, 2])]);
    assert_eq!(d.len(), 2);
    assert_eq!(d[0].key, "a");
    assert_eq!(d[1].clock, vec![0, 2]);
}

#[test]
fn delta_holds_what_the_sender_lacks() {
    let locals = vec![
        entry("ahead", vec![2, 0]),
        entry("behind", vec![1, 0]),
        entry("equal", vec![1, 1]),
        entry("conflict", vec![1, 0]),
        entry("missing", vec![0, 1]),
        entry("zero", vec![0, 0]),
    ];
    let sender = vec![
        digest("ahead", vec![1, 0]),
        digest("behind", vec![2, 0]),
        digest("equal", vec![1, 1]),
        digest("conflict", vec![0, 1]),
    ];
    let delta = compute_delta(&locals, &sender);
    let keys: Vec<&str> = delta.iter().map(|e| e.key.as_str()).collect();
    assert_eq!(keys, vec!["ahead", "conflict", "missing"]);
}

#[test]
fn delta_uses_first_digest_entry_for_a_key() {
    let locals = vec![entry("k", vec![1, 0])];
    let sender = vec![digest("k", vec![2, 0]), digest("k", vec![0, 0])];
    assert!(compute_delta(&locals, &sender).is_empty());
}

#[test]
fn crdt_type_names_round_trip() {
    for t in [CrdtType::LwwRegister, CrdtType::GCounter, CrdtType::PnCounter, CrdtType::OrSet] {
        let name = crdt_type_name(t);
        assert_eq!(name, format!("{:?}", t));
        assert_eq!(parse_crdt_type(&name), Some(t));
    }
    assert_eq!(parse_crdt_type("Register"), None);
}

#[test]
fn entry_messages_carry_register_text_only() {
    let e = entry("k", vec![1, 2]);
    let m = entry_to_proto(&e);
    assert_eq!(m.key, "k");
    assert_eq!(m.value, "v-k");
    assert_eq!(m.vector_clock, vec![1, 2]);
    assert_eq!(m.crdt_type, "LwwRegister");
    let mut c = entry("c", vec![1]);
    c.value = EntryValue::GCounter(vec![4]);
    c.crdt_type = CrdtType::GCounter;
    let m = entry_to_proto(&c);
    assert_eq!(m.value, "");
    assert_eq!(m.crdt_type, "GCounter");
    let d = digest_messages(&[e, c]);
    assert_eq!(d.len(), 2);
    assert_eq!(d[0].value, "");
    assert_eq!(d[1].crdt_type, "GCounter");
}

#[test]
fn gossip_messages_become_entries() {
    let m = GossipEntry {
        key: "k".to_string(),
        value: "1.5".to_string(),
        vector_clock: vec![0, 3],
        crdt_type: "OrSet".to_string(),
    };
    let e = proto_to_entry(m.clone()).unwrap();
    assert_eq!(e.key, "k");
    assert!(matches!(&e.value, EntryValue::Register(s) if s == "1.5"));
    assert_eq!(e.crdt_type, CrdtType::OrSet);
    assert_eq!(e.clock, vec![0, 3]);
    assert_eq!(e.node_id, "");
    assert_eq!(e.source, "gossip");
    let mut bad = m;
    bad.crdt_type = "Nope".to_string();
    assert!(proto_to_entry(bad).is_none());
}

#[test]
fn peers_are_picked_from_the_list() {
    let peers = vec![
        NodeAddr { id: "node-b".to_string(), host: "localhost".to_string(), port: 7002 },
        NodeAddr { id: "node-c".to_string(), host: "localhost".to_string(), port: 7003 },
    ];
    assert_eq!(peer_at(&peers, 5).id, "node-c");
    assert_eq!(peer_at(&peers, 4).id, "node-b");
    let p = pick_random_peer(&peers);
    assert!(p.id == "node-b" || p.id == "node-c");
}

#[test]
fn read_answers_register_text() {
    let e = entry("k", vec![1]);
    let r = get_response(Some(&e));
    assert!(r.found);
    assert_eq!(r.value, "v-k");
    let r = get_response(None);
    assert!(!r.found);
    assert_eq!(r.value, "");
}

#[test]
fn gossip_answer_is_the_delta_as_messages() {
    let locals = vec![entry("a", vec![2, 0]), entry("b", vec![1, 0])];
    let incoming = vec![GossipEntry {
        key: "b".to_string(),
        value: String::new(),
        vector_clock: vec![1, 0],
        crdt_type: "LwwRegister".to_string(),
    }];
    let r = gossip_response(&locals, &incoming);
    assert_eq!(r.len(), 1);
    assert_eq!(r[0].key, "a");
    assert_eq!(r[0].value, "v-a");
    assert_eq!(r[0].vector_clock, vec![2, 0]);
}

#[test]
fn gossip_answers_become_entries_in_order() {
    let ms = vec![
        GossipEntry {
            key: "a".to_string(),
            value: "1".to_string(),
            vector_clock: vec![1],
            crdt_type: "LwwRegister".to_string(),
        },
        GossipEntry {
            key: "b".to_string(),
            value: "2".to_string(),
            vector_clock: vec![2],
            crdt_type: "Unknown".to_string(),
        },
        GossipEntry {
            key: "c".to_string(),
            value: "3".to_string(),
            vector_clock: vec![3],
            crdt_type: "GCounter".to_string(),
        },
    ];
    let es = crdt_store::gossip::entries_from_messages(&ms);
    let keys: Vec<&str> = es.iter().map(|e| e.key.as_str()).collect();
    assert_eq!(keys, vec!["a", "c"]);
    assert_eq!(es[1].crdt_type, CrdtType::GCounter);
    assert_eq!(es[1].source, "gossip");
}

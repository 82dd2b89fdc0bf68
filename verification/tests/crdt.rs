use crdt_store::crdt::{lww_register, merge_entries, or_set, pn_counter};
use crdt_store::types::{CrdtType, Entry, EntryValue, OrSetItem};

fn register(value: &str, clock: Vec<u64>, node: &str, source: &str) -> Entry {
    Entry {
        key: "rates:fiat:USD/EUR".to_string(),
        value: EntryValue::Register(value.to_string()),
        crdt_type: CrdtType::LwwRegister,
        clock,
        node_id: node.to_string(),
        source: source.to_string(),
    }
}

fn register_text(e: &Entry) -> String {
    match &e.value {
        EntryValue::Register(s) => s.clone(),
        _ => panic!("not a register"),
    }
}

fn item(value: &str, tag: &str, removed: bool) -> OrSetItem {
    OrSetItem { value: value.to_string(), tag: tag.to_string(), removed }
}

#[test]
fn concurrent_writes_resolve_by_source_priority() {
    let a = register("0.921", vec![1, 0, 0], "node-a", "frankfurter");
    let b = register("0.9215", vec![0, 1, 0], "node-b", "coincap");
    let on_a = merge_entries(&a, &b);
    let on_b = merge_entries(&b, &a);
    assert_eq!(register_text(&on_a), "0.921");
    assert_eq!(register_text(&on_b), "0.921");
    assert_eq!(on_a.clock, vec![1, 1, 0]);
    assert_eq!(on_b.clock, vec![1, 1, 0]);
    assert_eq!(on_a.source, "frankfurter");
    assert_eq!(on_b.source, "frankfurter");
    assert_eq!(on_a.node_id, "node-a");
    assert_eq!(on_b.node_id, "node-b");
}

#[test]
fn equal_priorities_fall_back_to_node_id() {
    let a = register("1.0", vec![1, 0, 0], "node-a", "manual");
    let b = register("2.0", vec![0, 1, 0], "node-b", "manual");
    assert_eq!(register_text(&merge_entries(&a, &b)), "2.0");
    assert_eq!(register_text(&merge_entries(&b, &a)), "2.0");
}

#[test]
fn newer_clock_wins_either_way() {
    let newer = register("new", vec![2, 1, 0], "node-a", "manual");
    let older = register("old", vec![1, 1, 0], "node-b", "frankfurter");
    assert_eq!(register_text(&merge_entries(&newer, &older)), "new");
    assert_eq!(register_text(&merge_entries(&older, &newer)), "new");
    assert_eq!(merge_entries(&older, &newer).clock, vec![2, 1, 0]);
}

#[test]
fn equal_clocks_take_incoming() {
    let a = register("a", vec![1, 1, 0], "node-a", "frankfurter");
    let b = register("b", vec![1, 1, 0], "node-b", "manual");
    assert_eq!(register_text(&merge_entries(&a, &b)), "b");
    assert_eq!(merge_entries(&a, &b).source, "manual");
}

#[test]
fn merging_with_self_changes_nothing() {
    let a = register("a", vec![1, 1, 0], "node-a", "frankfurter");
    let m = merge_entries(&a, &a);
    assert_eq!(register_text(&m), "a");
    assert_eq!(m.clock, a.clock);
    assert_eq!(m.node_id, a.node_id);
}

#[test]
fn concurrent_counters_take_slot_maxima() {
    let mut a = register("", vec![1, 0], "node-a", "manual");
    a.value = EntryValue::GCounter(vec![3, 0]);
    a.crdt_type = CrdtType::GCounter;
    let mut b = register("", vec![0, 1], "node-b", "manual");
    b.value = EntryValue::GCounter(vec![1, 2]);
    b.crdt_type = CrdtType::GCounter;
    match merge_entries(&a, &b).value {
        EntryValue::GCounter(c) => assert_eq!(c, vec![3, 2]),
        _ => panic!("expected a counter"),
    }
    a.value = EntryValue::PnCounter(vec![3, 0], vec![0, 1]);
    b.value = EntryValue::PnCounter(vec![1, 2], vec![2, 0, 4]);
    match merge_entries(&b, &a).value {
        EntryValue::PnCounter(inc, dec) => {
            assert_eq!(inc, vec![3, 2]);
            assert_eq!(dec, vec![2, 1, 4]);
        }
        _ => panic!("expected a counter"),
    }
}

#[test]
fn concurrent_sets_union_by_tag() {
    let mut a = register("", vec![1, 0], "node-a", "manual");
    a.value = EntryValue::OrSet(vec![item("x", "t1", false)]);
    let mut b = register("", vec![0, 1], "node-b", "manual");
    b.value = EntryValue::OrSet(vec![item("y", "t2", false), item("x", "t1", true)]);
    match merge_entries(&a, &b).value {
        EntryValue::OrSet(items) => {
            assert_eq!(items.len(), 2);
            assert_eq!(items[0].tag, "t1");
            assert_eq!(items[0].value, "x");
            assert!(items[0].removed);
            assert_eq!(items[1].tag, "t2");
            assert!(!items[1].removed);
        }
        _ => panic!("expected a set"),
    }
}

#[test]
fn mismatched_kinds_keep_local_value() {
    let a = register("a", vec![1, 0], "node-a", "manual");
    let mut b = register("", vec![0, 1], "node-b", "frankfurter");
    b.value = EntryValue::GCounter(vec![1, 1]);
    let m = merge_entries(&a, &b);
    assert_eq!(register_text(&m), "a");
    assert_eq!(m.source, "frankfurter");
    assert_eq!(m.clock, vec![1, 1]);
}

#[test]
fn lww_register_new_read_write() {
    let mut v = lww_register::new("0.5".to_string());
    assert_eq!(lww_register::read(&v), Some("0.5"));
    lww_register::write(&mut v, "0.7".to_string());
    assert_eq!(lww_register::read(&v), Some("0.7"));
    let counter = pn_counter::new(2);
    assert_eq!(lww_register::read(&counter), None);
}

#[test]
fn g_counter_increment_and_read() {
    let mut c = pn_counter::new(3);
    assert_eq!(pn_counter::read(&c), 0);
    pn_counter::increment(&mut c, 1);
    pn_counter::increment(&mut c, 1);
    pn_counter::increment(&mut c, 2);
    pn_counter::increment(&mut c, 7);
    assert_eq!(pn_counter::read(&c), 3);
    match &c {
        EntryValue::GCounter(slots) => assert_eq!(slots, &vec![0, 2, 1]),
        _ => panic!("expected a counter"),
    }
    let mut r = lww_register::new("x".to_string());
    pn_counter::increment(&mut r, 0);
    assert_eq!(pn_counter::read(&r), 0);
}

#[test]
fn or_set_add_remove_read() {
    let mut s = or_set::new();
    assert!(or_set::read(&s).is_empty());
    or_set::add(&mut s, "EUR".to_string());
    or_set::add(&mut s, "GBP".to_string());
    or_set::add(&mut s, "EUR".to_string());
    assert_eq!(or_set::read(&s), vec!["EUR", "GBP", "EUR"]);
    or_set::remove(&mut s, "EUR");
    assert_eq!(or_set::read(&s), vec!["GBP"]);
    match &s {
        EntryValue::OrSet(items) => {
            assert_eq!(items.len(), 3);
            assert!(items[0].removed && items[2].removed && !items[1].removed);
            for i in items {
                assert_eq!(i.tag.len(), 36);
            }
            assert_ne!(items[0].tag, items[2].tag);
        }
        _ => panic!("expected a set"),
    }
    or_set::add(&mut s, "EUR".to_string());
    assert_eq!(or_set::read(&s), vec!["GBP", "EUR"]);
}

#[test]
fn or_set_add_tagged_uses_given_tag() {
    let mut s = or_set::new();
    or_set::add_tagged(&mut s, "JPY".to_string(), "tag-1".to_string());
    match &s {
        EntryValue::OrSet(items) => {
            assert_eq!(items[0].tag, "tag-1");
            assert_eq!(items[0].value, "JPY");
        }
        _ => panic!("expected a set"),
    }
    let mut r = lww_register::new("x".to_string());
    or_set::add(&mut r, "y".to_string());
    or_set::remove(&mut r, "x");
    assert_eq!(lww_register::read(&r), Some("x"));
    assert!(or_set::read(&r).is_empty());
}

fn set_items(e: &Entry) -> Vec<(String, String, bool)> {
    match &e.value {
        EntryValue::OrSet(items) => {
            let mut v: Vec<(String, String, bool)> =
                items.iter().map(|i| (i.value.clone(), i.tag.clone(), i.removed)).collect();
            v.sort();
            v
        }
        _ => panic!("expected a set"),
    }
}

#[test]
fn concurrent_sets_converge_keeping_removals() {
    let mut a = register("", vec![1, 0], "node-a", "manual");
    a.crdt_type = CrdtType::OrSet;
    a.value = EntryValue::OrSet(vec![item("EUR", "t1", false), item("GBP", "t2", true)]);
    let mut b = register("", vec![0, 1], "node-b", "manual");
    b.crdt_type = CrdtType::OrSet;
    b.value = EntryValue::OrSet(vec![item("EUR", "t1", true), item("JPY", "t3", false)]);
    let on_a = merge_entries(&a, &b);
    let on_b = merge_entries(&b, &a);
    let expected = vec![
        ("EUR".to_string(), "t1".to_string(), true),
        ("GBP".to_string(), "t2".to_string(), true),
        ("JPY".to_string(), "t3".to_string(), false),
    ];
    assert_eq!(set_items(&on_a), expected);
    assert_eq!(set_items(&on_b), expected);
    assert_eq!(or_set::read(&on_a.value), vec!["JPY"]);
    assert_eq!(or_set::read(&on_b.value), vec!["JPY"]);
}

use crdt_store::config::Config;
use crdt_store::types::{source_priority, NodeAddr};
use std::path::PathBuf;

fn config(peers: &str) -> Config {
    Config {
        node_id: "node-a".to_string(),
        node_index: 0,
        num_nodes: 3,
        port: 7001,
        peers_raw: peers.to_string(),
        data_dir: "./data".to_string(),
        gossip_interval: 2,
        metrics_port: 9091,
    }
}

#[test]
fn peers_parse_id_host_port() {
    let p = config("node-b:localhost:7002,node-c:localhost:7003").peers();
    assert_eq!(p.len(), 2);
    assert_eq!(p[0].id, "node-b");
    assert_eq!(p[0].host, "localhost");
    assert_eq!(p[0].port, 7002);
    assert_eq!(p[1].id, "node-c");
    assert_eq!(p[1].port, 7003);
}

#[test]
fn peers_skip_malformed_pieces() {
    assert!(config("").peers().is_empty());
    let p = config(" a:b:1 ,bad,c:d:99999,e:f:+80,g:h:,i:j:k:1, x : y :2,m:n:-1").peers();
    let got: Vec<(String, String, u16)> = p.into_iter().map(|a| (a.id, a.host, a.port)).collect();
    assert_eq!(
        got,
        vec![
            ("a".to_string(), "b".to_string(), 1),
            ("e".to_string(), "f".to_string(), 80),
            ("x ".to_string(), " y ".to_string(), 2),
        ]
    );
    let p = config("\ta:b:65535\n").peers();
    assert_eq!(p[0].port, 65535);
}

#[test]
fn data_paths_join_node_id() {
    let c = config("");
    assert_eq!(c.wal_file_name(), "node-a.wal");
    assert_eq!(c.snapshot_file_name(), "node-a.snapshot");
    assert_eq!(c.wal_path(), PathBuf::from("./data").join("node-a.wal"));
    assert_eq!(c.snapshot_path(), PathBuf::from("./data").join("node-a.snapshot"));
}

#[test]
fn node_addr_formats_endpoint() {
    let a = NodeAddr { id: "node-b".to_string(), host: "localhost".to_string(), port: 7002 };
    assert_eq!(a.to_addr(), "http://localhost:7002");
    let z = NodeAddr { id: "z".to_string(), host: "10.0.0.1".to_string(), port: 0 };
    assert_eq!(z.to_addr(), "http://10.0.0.1:0");
    let m = NodeAddr { id: "m".to_string(), host: "h".to_string(), port: 65535 };
    assert_eq!(m.to_addr(), "http://h:65535");
}

#[test]
fn source_priorities() {
    assert_eq!(source_priority("frankfurter"), 3);
    assert_eq!(source_priority("coincap"), 2);
    assert_eq!(source_priority("manual"), 1);
    assert_eq!(source_priority("gossip"), 0);
    assert_eq!(source_priority("Frankfurter"), 0);
}

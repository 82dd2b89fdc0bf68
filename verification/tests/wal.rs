use crdt_store::wal::{frame_record, scan_records};

#[test]
fn frame_prefixes_big_endian_length() {
    assert_eq!(frame_record(&[1, 2, 3]), vec![0, 0, 0, 3, 1, 2, 3]);
    assert_eq!(frame_record(&[]), vec![0, 0, 0, 0]);
    let big = vec![7u8; 0x1_0203];
    let f = frame_record(&big);
    assert_eq!(&f[..4], &[0, 1, 2, 3]);
    assert_eq!(f.len(), 4 + big.len());
}

#[test]
fn replay_returns_what_was_appended() {
    let records: Vec<Vec<u8>> = vec![vec![9, 8], vec![], vec![1; 300]];
    let mut log = Vec::new();
    for r in &records {
        log.extend(frame_record(r));
    }
    let scan = scan_records(&log);
    assert_eq!(scan.records, records);
    assert!(!scan.truncated);
}

#[test]
fn cut_short_record_is_reported() {
    let mut log = frame_record(&[1, 2]);
    log.extend([0, 0, 0, 5, 1, 2]);
    let scan = scan_records(&log);
    assert_eq!(scan.records, vec![vec![1, 2]]);
    assert!(scan.truncated);
}

#[test]
fn partial_length_prefix_is_ignored() {
    let mut log = frame_record(&[4]);
    log.extend([0, 0]);
    let scan = scan_records(&log);
    assert_eq!(scan.records, vec![vec![4]]);
    assert!(!scan.truncated);
    let empty = scan_records(&[]);
    assert!(empty.records.is_empty() && !empty.truncated);
}

use valpago::log::{EventLog, LogError};

#[test]
fn append_assigns_increasing_ids() {
    let mut log = EventLog::new(10);
    assert_eq!(log.append(b"a".to_vec()), Ok(1));
    assert_eq!(log.append(b"b".to_vec()), Ok(2));
    assert_eq!(log.len(), 2);
}

#[test]
fn append_trims_to_cap() {
    let mut log = EventLog::new(2);
    log.ensure_group();
    for p in [b"a", b"b", b"c"] {
        log.append(p.to_vec()).unwrap();
    }
    assert_eq!(log.len(), 2);
    let got = log.read_group(10).unwrap();
    assert_eq!(got.iter().map(|d| d.id).collect::<Vec<u64>>(), vec![2, 3]);
    assert_eq!(got[0].payload, b"b".to_vec());
}

#[test]
fn ensure_group_is_idempotent() {
    let mut log = EventLog::new(5);
    assert!(!log.group_exists());
    log.ensure_group();
    log.append(b"a".to_vec()).unwrap();
    log.ensure_group();
    assert!(log.group_exists());
    assert_eq!(log.read_group(10).unwrap().len(), 1);
}

#[test]
fn ack_reports_first_acknowledgement_only() {
    let mut log = EventLog::new(5);
    log.ensure_group();
    let id = log.append(b"a".to_vec()).unwrap();
    assert!(log.ack(id));
    assert!(!log.ack(id));
    assert!(!log.ack(99));
    assert_eq!(log.read_group(10).unwrap().len(), 0);
}

#[test]
fn read_group_skips_acked_in_the_middle() {
    let mut log = EventLog::new(5);
    log.ensure_group();
    for p in [b"a", b"b", b"c"] {
        log.append(p.to_vec()).unwrap();
    }
    assert!(log.ack(2));
    let got = log.read_group(10).unwrap();
    assert_eq!(got.iter().map(|d| d.id).collect::<Vec<u64>>(), vec![1, 3]);
    assert!(matches!(EventLog::new(1).read_group(1), Err(LogError::NoGroup)));
}

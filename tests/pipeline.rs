use valpago::log::{EventLog, LogError};
use valpago::notifier::{create_notifier, Notifier};
use valpago::worker::{drain_batch, forward, run};

fn drain_all(n: &mut Notifier, id: u64) -> Vec<String> {
    let mut out = Vec::new();
    while let Some(t) = n.recv(id) {
        out.push(t);
    }
    out
}

fn log_with(payloads: &[&[u8]]) -> EventLog {
    let mut log = EventLog::new(10000);
    log.ensure_group();
    for p in payloads {
        log.append(p.to_vec()).unwrap();
    }
    log
}

#[test]
fn run_forwards_and_acks_in_log_order() {
    let mut log = log_with(&[b"a", b"b", b"c", b"d"]);
    let mut n = create_notifier();
    let s = n.subscribe().unwrap();
    run(&mut log, &mut n, 3);
    assert_eq!(drain_all(&mut n, s), vec!["a", "b", "c", "d"]);
    assert_eq!(log.read_group(100).unwrap().len(), 0);
}

#[test]
fn drain_batch_reads_at_most_max_count() {
    let mut log = log_with(&[b"1", b"2", b"3"]);
    let mut n = create_notifier();
    let s = n.subscribe().unwrap();
    assert_eq!(drain_batch(&mut log, &mut n, 2), Ok(2));
    assert_eq!(drain_all(&mut n, s), vec!["1", "2"]);
    let rest = log.read_group(100).unwrap();
    assert_eq!(rest.len(), 1);
    assert_eq!(rest[0].payload, b"3".to_vec());
    assert_eq!(drain_batch(&mut log, &mut n, 2), Ok(1));
    assert_eq!(drain_batch(&mut log, &mut n, 2), Ok(0));
}

#[test]
fn restart_after_crash_redelivers_only_unacked() {
    let mut log = log_with(&[b"e1", b"e2", b"e3", b"e4", b"e5"]);
    let mut n = create_notifier();
    let s = n.subscribe().unwrap();
    let batch = log.read_group(100).unwrap();
    assert_eq!(batch.len(), 5);
    for d in batch.iter().take(2) {
        forward(&mut n, &d.payload);
        assert!(log.ack(d.id));
    }
    // the worker stops here; a new run picks up the rest
    let again = log.read_group(100).unwrap();
    let ids: Vec<u64> = again.iter().map(|d| d.id).collect();
    assert_eq!(ids, vec![batch[2].id, batch[3].id, batch[4].id]);
    run(&mut log, &mut n, 100);
    assert_eq!(drain_all(&mut n, s), vec!["e1", "e2", "e3", "e4", "e5"]);
}

#[test]
fn malformed_payload_is_acked_and_skipped() {
    let mut log = log_with(&[b"ok1", &[0xff, 0xfe], b"ok2"]);
    let mut n = create_notifier();
    let s = n.subscribe().unwrap();
    run(&mut log, &mut n, 10);
    assert_eq!(drain_all(&mut n, s), vec!["ok1", "ok2"]);
    assert_eq!(log.read_group(10).unwrap().len(), 0);
}

#[test]
fn forward_reports_decoding() {
    let mut n = create_notifier();
    let s = n.subscribe().unwrap();
    assert!(forward(&mut n, &b"hello".to_vec()));
    assert!(!forward(&mut n, &vec![0xc3]));
    assert_eq!(drain_all(&mut n, s), vec!["hello"]);
}

#[test]
fn drain_without_group_fails() {
    let mut log = EventLog::new(10);
    log.append(b"x".to_vec()).unwrap();
    let mut n = create_notifier();
    assert_eq!(drain_batch(&mut log, &mut n, 10), Err(LogError::NoGroup));
    assert!(matches!(log.read_group(10), Err(LogError::NoGroup)));
}

#[test]
fn run_creates_the_group() {
    let mut log = EventLog::new(10);
    log.append(b"x".to_vec()).unwrap();
    let mut n = create_notifier();
    let s = n.subscribe().unwrap();
    run(&mut log, &mut n, 10);
    assert!(log.group_exists());
    assert_eq!(drain_all(&mut n, s), vec!["x"]);
    assert_eq!(log.read_group(10).unwrap().len(), 0);
}

#[test]
fn run_with_zero_count_changes_nothing() {
    let mut log = log_with(&[b"x"]);
    let mut n = create_notifier();
    let s = n.subscribe().unwrap();
    run(&mut log, &mut n, 0);
    assert_eq!(n.pending(s), 0);
    assert_eq!(log.read_group(10).unwrap().len(), 1);
}

#[test]
fn end_to_end_late_subscriber() {
    let mut log = EventLog::new(10000);
    log.ensure_group();
    let mut n = create_notifier();
    let early = n.subscribe().unwrap();
    log.append(br#"{"id":"abc","estado":"approved"}"#.to_vec()).unwrap();
    run(&mut log, &mut n, 100);
    let late = n.subscribe().unwrap();
    assert_eq!(drain_all(&mut n, early), vec![r#"{"id":"abc","estado":"approved"}"#]);
    assert_eq!(n.pending(late), 0);
    log.append(br#"{"id":"def","estado":"pending"}"#.to_vec()).unwrap();
    run(&mut log, &mut n, 100);
    assert_eq!(drain_all(&mut n, late), vec![r#"{"id":"def","estado":"pending"}"#]);
    assert_eq!(drain_all(&mut n, early), vec![r#"{"id":"def","estado":"pending"}"#]);
}

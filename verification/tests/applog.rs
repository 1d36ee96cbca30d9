use llama_admin_monitor::applog::{error, info, warn, AppLog};

#[test]
fn entries_are_sequential_and_filterable() {
    let mut log = AppLog::new();
    let before = log.latest_seq();
    info(&mut log, "first".to_string(), 10);
    error(&mut log, "second".to_string(), 11);
    let all = log.entries_after(before, 10);
    assert_eq!(all.len(), 2);
    assert_eq!(all[0].message, "first");
    assert_eq!(all[0].level, "info");
    assert_eq!(all[1].level, "error");
    assert_eq!(all[1].seq, all[0].seq + 1);
    assert_eq!(log.latest_seq(), all[1].seq);
    assert!(log.entries_after(all[1].seq, 10).is_empty());
}

#[test]
fn new_log_is_empty_and_numbering_starts_at_one() {
    let mut log = AppLog::new();
    assert_eq!(log.latest_seq(), 0);
    assert!(log.entries_after(0, 10).is_empty());
    warn(&mut log, "w".to_string(), 5);
    let all = log.entries_after(0, 10);
    assert_eq!(all.len(), 1);
    assert_eq!(all[0].seq, 1);
    assert_eq!(all[0].ts_ms, 5);
    assert_eq!(all[0].level, "warn");
}

#[test]
fn limit_caps_the_answer() {
    let mut log = AppLog::new();
    for i in 0..5 {
        info(&mut log, format!("m{i}"), i);
    }
    let some = log.entries_after(1, 2);
    assert_eq!(some.len(), 2);
    assert_eq!(some[0].seq, 2);
    assert_eq!(some[1].seq, 3);
}

#[test]
fn ring_drops_the_oldest_beyond_capacity() {
    let mut log = AppLog::new();
    for i in 0..2001u64 {
        info(&mut log, format!("m{i}"), i);
    }
    let all = log.entries_after(0, 5000);
    assert_eq!(all.len(), 2000);
    assert_eq!(all[0].seq, 2);
    assert_eq!(all[1999].seq, 2001);
    assert_eq!(log.latest_seq(), 2001);
}

use event_ingest::backoff::{BackoffWindow, BadEventRegistry};

#[test]
fn fresh_ids_are_not_skipped() {
    let reg = BadEventRegistry::new();
    assert!(!reg.should_skip("$a", 0, &BackoffWindow::chain_resolution()));
    assert!(reg.get("$a").is_none());
}

#[test]
fn windows_double_and_cap() {
    let w = BackoffWindow::chain_resolution();
    assert_eq!(w.wait_secs(0), 120);
    assert_eq!(w.wait_secs(1), 240);
    assert_eq!(w.wait_secs(2), 480);
    assert_eq!(w.wait_secs(7), 15360);
    assert_eq!(w.wait_secs(8), 28800);
    assert_eq!(w.wait_secs(u32::MAX), 28800);
    let a = BackoffWindow::admission();
    assert_eq!(a.wait_secs(1), 600);
    assert_eq!(a.wait_secs(9), 86400);
}

#[test]
fn skip_iff_within_window_after_n_failures() {
    let mut reg = BadEventRegistry::new();
    let w = BackoffWindow::chain_resolution();
    reg.record_failure("$a", 10);
    reg.record_failure("$a", 20);
    reg.record_failure("$a", 30);
    let e = reg.get("$a").unwrap();
    assert_eq!(e.failures, 3);
    assert_eq!(e.last_failure, 30);
    // min(28800, 120 * 2^3) = 960
    assert!(reg.should_skip("$a", 30 + 959, &w));
    assert!(!reg.should_skip("$a", 30 + 960, &w));
    assert!(!reg.should_skip("$b", 30, &w));
}

#[test]
fn failures_are_per_id_and_sticky() {
    let mut reg = BadEventRegistry::new();
    reg.record_failure("$a", 5);
    reg.record_failure("$b", 6);
    assert_eq!(reg.get("$a").unwrap().failures, 1);
    assert_eq!(reg.get("$b").unwrap().last_failure, 6);
    reg.record_failure("$a", 7);
    assert_eq!(reg.get("$a").unwrap().failures, 2);
    assert_eq!(reg.get("$b").unwrap().failures, 1);
}

#[test]
fn clock_going_back_counts_as_no_time() {
    let mut reg = BadEventRegistry::new();
    reg.record_failure("$a", 1000);
    assert!(reg.should_skip("$a", 10, &BackoffWindow::chain_resolution()));
}

use comsrv_protocols::shm_sync::{sort_dedup, PassOutcome, SyncState, FULL_SCAN_INTERVAL};

#[test]
fn sync_state_starts_empty() {
    let s = SyncState::new(1024);
    assert_eq!(s.last_seq.len(), 1024);
    assert!(s.last_seq.iter().all(|&x| x == 0));
    assert!(s.retry_slots.is_empty());
    assert_eq!(s.tick_count, 0);
}

#[test]
fn refused_write_is_retried_without_advancing_seq() {
    let mut s = SyncState::new(1);
    // First pass: full scan.
    assert!(s.begin_pass(1, 7));
    let cands = s.candidate_slots(true, 1, vec![]);
    assert_eq!(cands, vec![0]);
    assert!(s.needs_sync(0, 2));
    assert!(!s.finish_pass(&[(0, 2)], PassOutcome::Failed));
    assert_eq!(s.last_seq[0], 0);
    assert_eq!(s.retry_slots, vec![0]);

    // Second pass: not a full scan; the retried slot comes back.
    assert!(!s.begin_pass(1, 7));
    let cands = s.candidate_slots(false, 1, vec![]);
    assert_eq!(cands, vec![0]);
    assert!(s.retry_slots.is_empty());
    assert!(s.needs_sync(0, 2));
    assert!(!s.finish_pass(&[(0, 2)], PassOutcome::Written));
    assert_eq!(s.last_seq[0], 2);
    assert!(!s.needs_sync(0, 2));
    assert!(!s.needs_sync(0, 0));
    assert_eq!(s.tick_count, 2);
}

#[test]
fn layout_change_forgets_copied_slots() {
    let mut s = SyncState::new(2);
    s.begin_pass(2, 1);
    s.finish_pass(&[(1, 5)], PassOutcome::Written);
    assert_eq!(s.last_seq, vec![0, 5]);
    s.finish_pass(&[(0, 3)], PassOutcome::Failed);
    // Same layout, more slots: kept and grown.
    assert!(!s.begin_pass(3, 1));
    assert_eq!(s.last_seq, vec![0, 5, 0]);
    assert_eq!(s.retry_slots, vec![0]);
    // Another layout: everything forgotten, and a full scan.
    assert!(s.begin_pass(3, 2));
    assert_eq!(s.last_seq, vec![0, 0, 0]);
    assert!(s.retry_slots.is_empty());
}

#[test]
fn full_scan_and_ttl_cadence() {
    let mut s = SyncState::new(1);
    s.tick_count = FULL_SCAN_INTERVAL - 1;
    s.last_layout_id = 4;
    assert!(!s.begin_pass(1, 4));
    assert!(s.finish_pass(&[], PassOutcome::Written));
    assert!(s.begin_pass(1, 4));
    assert!(!s.finish_pass(&[], PassOutcome::Idle));
}

#[test]
fn candidates_sorted_and_unique() {
    let mut s = SyncState::new(8);
    s.retry_slots = vec![5, 1];
    let c = s.candidate_slots(false, 8, vec![3, 1, 3, 7]);
    assert_eq!(c, vec![1, 3, 5, 7]);
    assert_eq!(sort_dedup(&vec![4, 4, 2, 9, 0]), vec![0, 2, 4, 9]);
    assert!(sort_dedup(&vec![]).is_empty());
}

//! Sequence-number mapping.

use dap_mux::seq::{PendingRequest, SeqMap};

#[test]
fn allocate_then_resolve() {
    let mut m = SeqMap::new();
    let proxy: i64 = m.allocate("helix", 1);
    assert_eq!(proxy, 1);
    assert_eq!(
        m.resolve(proxy),
        Some(PendingRequest {
            client_id: "helix".into(),
            client_seq: 1
        })
    );
    // Resolving again yields nothing.
    assert_eq!(m.resolve(proxy), None);
}

#[test]
fn monotonic_allocation() {
    let mut m = SeqMap::new();
    assert_eq!(m.allocate("a", 10), 1);
    assert_eq!(m.allocate("b", 20), 2);
    assert_eq!(m.next_seq(), 3);
}

#[test]
fn cleanup_removes_only_that_client() {
    let mut m = SeqMap::new();
    m.allocate("a", 1);
    m.allocate("a", 2);
    m.allocate("b", 1);
    assert_eq!(m.cleanup("a"), 2);
    assert_eq!(m.pending_count(), 1);
}

#[test]
fn cleanup_of_a_stranger_removes_nothing() {
    let mut m = SeqMap::default();
    m.allocate("a", 1);
    assert_eq!(m.cleanup("b"), 0);
    assert_eq!(m.pending_for("a"), 1);
    assert_eq!(m.pending_for("b"), 0);
    assert_eq!(
        m.resolve(1).unwrap().clone(),
        PendingRequest {
            client_id: "a".into(),
            client_seq: 1
        }
    );
}

#[test]
fn numbers_are_not_reused_after_resolving() {
    let mut m = SeqMap::new();
    let first: i64 = m.allocate("a", 7);
    assert_eq!(m.resolve(first).unwrap().client_seq, 7);
    let second: i64 = m.allocate("a", 7);
    assert!(second > first);
    assert_eq!(m.pending_count(), 1);
    assert_eq!(m.resolve(first), None);
}

#[test]
fn responses_may_come_back_in_any_order() {
    let mut m = SeqMap::new();
    let a: i64 = m.allocate("a", 5);
    let b: i64 = m.allocate("b", 5);
    assert_eq!(m.resolve(b).unwrap().client_id, "b");
    assert_eq!(m.resolve(a).unwrap().client_id, "a");
    assert_eq!(m.resolve(99), None);
}

#[test]
fn a_number_outlasts_other_operations() {
    let mut m = SeqMap::new();
    m.allocate("b", 1);
    let kept: i64 = m.allocate("a", 7);
    m.allocate("c", 2);
    assert!(m.resolve(1).is_some());
    assert_eq!(m.cleanup("c"), 1);
    assert_eq!(m.resolve(99), None);
    m.allocate("a", 8);
    assert_eq!(
        m.resolve(kept),
        Some(PendingRequest {
            client_id: "a".into(),
            client_seq: 7
        })
    );
}

#[test]
fn a_cleaned_up_number_is_gone_for_good() {
    let mut m = SeqMap::new();
    let gone: i64 = m.allocate("a", 1);
    assert_eq!(m.cleanup("a"), 1);
    m.allocate("a", 1);
    m.allocate("b", 1);
    assert_eq!(m.resolve(gone), None);
}

#[test]
fn the_books_balance() {
    let mut m = SeqMap::new();
    for seq in 0..6 {
        m.allocate(if seq % 2 == 0 { "a" } else { "b" }, seq);
    }
    assert!(m.resolve(1).is_some());
    assert!(m.resolve(1).is_none());
    assert!(m.resolve(2).is_some());
    assert_eq!(m.pending_count(), 6 - 2);
    assert_eq!(m.pending_count(), m.pending_for("a") + m.pending_for("b"));
    let cleaned: usize = m.cleanup("a");
    assert_eq!(cleaned, 2);
    assert_eq!(m.pending_count(), 6 - 2 - cleaned);
}

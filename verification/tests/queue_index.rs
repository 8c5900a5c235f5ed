//! Tests of the persistent queue index: insert/grant/remove semantics, the
//! append log they write, and the admission rules.

use faucet_core::index::{FaucetQueueIndex, GrantOutcome, InsertOutcome};
use faucet_core::types::{FaucetError, Recipient};

fn key(id: u64) -> Recipient {
    Recipient { id }
}

#[test]
fn insert_new_key_writes_one_entry() {
    let mut idx = FaucetQueueIndex::new();
    assert_eq!(idx.insert(key(1)), InsertOutcome::Inserted);
    assert_eq!(idx.len(), 1);
    assert!(idx.contains(key(1)));
    assert_eq!(idx.grants(key(1)), 0);
    assert_eq!(idx.log_len(), 1);
    let e = idx.log_entry(0);
    assert_eq!(e.key, key(1));
    assert_eq!(e.grants, Some(0));
}

#[test]
fn insert_twice_is_already_present_with_no_log_entry() {
    let mut idx = FaucetQueueIndex::new();
    assert_eq!(idx.insert(key(7)), InsertOutcome::Inserted);
    let log_before = idx.log_len();
    assert_eq!(idx.insert(key(7)), InsertOutcome::AlreadyPresent);
    assert_eq!(idx.log_len(), log_before);
    assert_eq!(idx.len(), 1);
}

#[test]
fn grant_below_max_updates_counter() {
    let mut idx = FaucetQueueIndex::new();
    idx.insert(key(3));
    assert_eq!(idx.grant(key(3), 2, 5), GrantOutcome::NeedsMore);
    assert_eq!(idx.grants(key(3)), 2);
    let e = idx.log_entry(1);
    assert_eq!(e.key, key(3));
    assert_eq!(e.grants, Some(2));
}

#[test]
fn grant_reaching_max_removes_key_and_logs_delete() {
    let mut idx = FaucetQueueIndex::new();
    idx.insert(key(3));
    assert_eq!(idx.grant(key(3), 2, 5), GrantOutcome::NeedsMore);
    assert_eq!(idx.grant(key(3), 2, 5), GrantOutcome::NeedsMore);
    assert_eq!(idx.grant(key(3), 1, 5), GrantOutcome::Done);
    assert!(!idx.contains(key(3)));
    assert_eq!(idx.len(), 0);
    let e = idx.log_entry(idx.log_len() - 1);
    assert_eq!(e.key, key(3));
    assert_eq!(e.grants, None);
}

#[test]
fn remove_logs_delete_and_clears_memory() {
    let mut idx = FaucetQueueIndex::new();
    idx.insert(key(9));
    idx.remove(key(9));
    assert!(!idx.contains(key(9)));
    assert_eq!(idx.log_len(), 2);
    assert_eq!(idx.log_entry(1).grants, None);
}

#[test]
fn accept_refuses_at_bound_and_admits_after_removal() {
    let mut idx = FaucetQueueIndex::new();
    assert_eq!(idx.accept(key(1), Some(3)), Ok(()));
    assert_eq!(idx.accept(key(2), Some(3)), Ok(()));
    assert_eq!(idx.accept(key(3), Some(3)), Ok(()));
    assert_eq!(
        idx.accept(key(4), Some(3)),
        Err(FaucetError::QueueFull { max_len: 3 })
    );
    // One key fully served frees a slot.
    assert_eq!(idx.grant(key(1), 5, 5), GrantOutcome::Done);
    assert_eq!(idx.accept(key(4), Some(3)), Ok(()));
}

#[test]
fn accept_refuses_duplicate_key() {
    let mut idx = FaucetQueueIndex::new();
    assert_eq!(idx.accept(key(5), None), Ok(()));
    assert_eq!(
        idx.accept(key(5), None),
        Err(FaucetError::AlreadyInQueue { key: key(5) })
    );
    // The refusal wrote nothing.
    assert_eq!(idx.log_len(), 1);
}

#[test]
fn unbounded_accept_never_reports_full() {
    let mut idx = FaucetQueueIndex::new();
    for id in 0..100u64 {
        assert_eq!(idx.accept(key(id), None), Ok(()));
    }
    assert_eq!(idx.len(), 100);
}

#[test]
fn counters_stay_below_num_grants() {
    // The index invariant: every recorded counter lies in [0, num_grants).
    let num_grants = 5;
    let mut idx = FaucetQueueIndex::new();
    for id in 0..4u64 {
        idx.insert(key(id));
    }
    idx.grant(key(0), 2, num_grants);
    idx.grant(key(0), 2, num_grants);
    idx.grant(key(1), 4, num_grants);
    idx.grant(key(2), 5, num_grants);
    for id in 0..4u64 {
        if idx.contains(key(id)) {
            assert!(idx.grants(key(id)) < num_grants);
        }
    }
}

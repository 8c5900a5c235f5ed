//! Tests of the service surface: health reporting, availability gating, and
//! request admission end to end against the queue.

use faucet_core::health::{check_service_available, healthcheck, request_fee_assets, HealthCheck};
use faucet_core::index::GrantOutcome;
use faucet_core::queue::FaucetQueue;
use faucet_core::types::{FaucetError, FaucetStatus, Recipient};

fn key(id: u64) -> Recipient {
    Recipient { id }
}

#[test]
fn healthcheck_reports_current_status_with_http_200() {
    let h = healthcheck(FaucetStatus::Initializing);
    assert_eq!(h, HealthCheck { status: FaucetStatus::Initializing });
    assert_eq!(h.status(), 200);
    let h = healthcheck(FaucetStatus::Available);
    assert_eq!(h, HealthCheck { status: FaucetStatus::Available });
    assert_eq!(h.status(), 200);
}

#[test]
fn requests_refused_while_initializing() {
    assert_eq!(
        check_service_available(FaucetStatus::Initializing),
        Err(FaucetError::Unavailable)
    );
    assert_eq!(check_service_available(FaucetStatus::Available), Ok(()));
    let mut q = FaucetQueue::load(Vec::new(), None, 5);
    assert_eq!(
        request_fee_assets(FaucetStatus::Initializing, &mut q, key(1)),
        Err(FaucetError::Unavailable)
    );
    assert_eq!(q.len(), 0);
    assert_eq!(q.log_len(), 0);
}

#[test]
fn admitted_request_is_queued_once() {
    let mut q = FaucetQueue::load(Vec::new(), None, 5);
    assert_eq!(request_fee_assets(FaucetStatus::Available, &mut q, key(1)), Ok(()));
    assert_eq!(
        request_fee_assets(FaucetStatus::Available, &mut q, key(1)),
        Err(FaucetError::AlreadyInQueue { key: key(1) })
    );
    assert_eq!(q.channel_len(), 1);
    assert_eq!(q.pop(), Some((key(1), 0)));
}

#[test]
fn admission_bound_refuses_then_admits_after_completion() {
    // A bound of 3: the fourth distinct key is refused; after one request
    // completes, re-posting it succeeds.
    let mut q = FaucetQueue::load(Vec::new(), Some(3), 5);
    for id in 1..4u64 {
        assert_eq!(request_fee_assets(FaucetStatus::Available, &mut q, key(id)), Ok(()));
    }
    assert_eq!(
        request_fee_assets(FaucetStatus::Available, &mut q, key(4)),
        Err(FaucetError::QueueFull { max_len: 3 })
    );
    let (k, _) = q.pop().unwrap();
    assert_eq!(q.grant(k, 5), GrantOutcome::Done);
    assert_eq!(request_fee_assets(FaucetStatus::Available, &mut q, key(4)), Ok(()));
}

#[test]
fn failed_request_requeues_with_recorded_progress() {
    let mut q = FaucetQueue::load(Vec::new(), None, 5);
    q.push(key(1)).unwrap();
    let (k, g) = q.pop().unwrap();
    assert_eq!((k, g), (key(1), 0));
    // Two grants succeed, then a transfer fails: the key goes back on the
    // channel with the recorded counter, and nothing is logged for the
    // failure itself.
    assert_eq!(q.grant(k, 2), GrantOutcome::NeedsMore);
    let log_before = q.log_len();
    q.fail(k);
    assert_eq!(q.log_len(), log_before);
    assert_eq!(q.pop(), Some((key(1), 2)));
}

#[test]
fn two_workers_never_hold_the_same_key() {
    // Two pops hand out distinct keys: a key sits on the channel at most
    // once, so no two workers are ever given the same key.
    let mut q = FaucetQueue::load(Vec::new(), None, 5);
    q.push(key(1)).unwrap();
    q.push(key(2)).unwrap();
    // A duplicate admission attempt adds no second channel entry.
    assert!(q.push(key(1)).is_err());
    let first = q.pop().unwrap();
    let second = q.pop().unwrap();
    assert_ne!(first.0, second.0);
    assert_eq!(q.pop(), None);
}

//! Tests of the worker decision logic: the balance/output decision and the
//! worker's step function.

use faucet_core::index::GrantOutcome;
use faucet_core::types::{FaucetConfig, Recipient};
use faucet_core::worker::{
    decide_transfer, worker_step, TransferPlan, WorkerAction, WorkerEvent, WorkerPhase,
};

fn key(id: u64) -> Recipient {
    Recipient { id }
}

fn cfg() -> FaucetConfig {
    FaucetConfig { grant_size: 1000, num_grants: 5, fee_size: 100, num_records: 25 }
}

#[test]
fn low_balance_waits() {
    assert_eq!(decide_transfer(0, 999, &cfg()), TransferPlan::Wait);
    assert_eq!(decide_transfer(0, 0, &cfg()), TransferPlan::Wait);
}

#[test]
fn ample_balance_and_grants_owed_takes_two_outputs() {
    assert_eq!(
        decide_transfer(0, 2000, &cfg()),
        TransferPlan::Transfer { outputs: 2 }
    );
    assert_eq!(
        decide_transfer(3, 1_000_000, &cfg()),
        TransferPlan::Transfer { outputs: 2 }
    );
}

#[test]
fn single_grant_config_never_takes_fast_path() {
    let one = FaucetConfig { grant_size: 1000, num_grants: 1, fee_size: 100, num_records: 25 };
    assert_eq!(
        decide_transfer(0, 1_000_000_000, &one),
        TransferPlan::Transfer { outputs: 1 }
    );
}

#[test]
fn last_owed_grant_takes_single_output() {
    assert_eq!(
        decide_transfer(4, 1_000_000, &cfg()),
        TransferPlan::Transfer { outputs: 1 }
    );
}

#[test]
fn balance_of_exactly_one_grant_takes_single_output() {
    assert_eq!(
        decide_transfer(0, 1000, &cfg()),
        TransferPlan::Transfer { outputs: 1 }
    );
}

#[test]
fn fast_path_needs_strictly_double_balance() {
    // One unit short of two grants: single output, though 4 grants are owed.
    assert_eq!(
        decide_transfer(0, 1999, &cfg()),
        TransferPlan::Transfer { outputs: 1 }
    );
    // Exactly double: fast path.
    assert_eq!(
        decide_transfer(0, 2000, &cfg()),
        TransferPlan::Transfer { outputs: 2 }
    );
}

#[test]
fn popped_request_moves_to_balance_check() {
    let c = cfg();
    let (phase, action) = worker_step(
        WorkerPhase::AwaitRequest,
        WorkerEvent::Popped { request: Some((key(1), 0)) },
        &c,
    );
    assert_eq!(phase, WorkerPhase::CheckBalance { key: key(1), grants_given: 0 });
    assert_eq!(action, WorkerAction::ReadBalance);
}

#[test]
fn closed_channel_stops_worker() {
    let c = cfg();
    let (phase, action) = worker_step(
        WorkerPhase::AwaitRequest,
        WorkerEvent::Popped { request: None },
        &c,
    );
    assert_eq!(phase, WorkerPhase::Stopped);
    assert_eq!(action, WorkerAction::Exit);
}

#[test]
fn insufficient_balance_sleeps_and_retries_same_key() {
    let c = cfg();
    let held = WorkerPhase::CheckBalance { key: key(1), grants_given: 2 };
    let (phase, action) = worker_step(held, WorkerEvent::Balance { balance: 500 }, &c);
    assert_eq!(phase, held);
    assert_eq!(action, WorkerAction::Sleep);
}

#[test]
fn transfer_failure_requeues_and_moves_on() {
    let c = cfg();
    let (phase, action) = worker_step(
        WorkerPhase::Transferring { key: key(1), grants_given: 0, outputs: 2 },
        WorkerEvent::TransferFailed,
        &c,
    );
    assert_eq!(phase, WorkerPhase::AwaitRequest);
    assert_eq!(action, WorkerAction::FailRequest);
}

#[test]
fn full_service_of_one_request_totals_num_grants() {
    // One request under the default-like tunables: the worker fuses grants
    // in pairs while more than one is owed, so a key owed 5 grants of 1000
    // receives them as 2 + 2 + 1 — exactly 5000 units in all.
    let c = cfg();
    let mut phase = WorkerPhase::AwaitRequest;
    let mut total: u64 = 0;
    let (p, a) = worker_step(
        phase,
        WorkerEvent::Popped { request: Some((key(1), 0)) },
        &c,
    );
    phase = p;
    assert_eq!(a, WorkerAction::ReadBalance);
    let mut transfers = Vec::new();
    loop {
        let (p, a) = worker_step(phase, WorkerEvent::Balance { balance: 1_000_000 }, &c);
        phase = p;
        let outputs = match a {
            WorkerAction::SubmitTransfer { outputs } => outputs,
            other => panic!("expected a transfer, got {:?}", other),
        };
        transfers.push(outputs);
        total += outputs * c.grant_size;
        let (p, a) = worker_step(phase, WorkerEvent::TransferOk, &c);
        phase = p;
        assert_eq!(a, WorkerAction::RecordGrant { granted: outputs });
        let granted_so_far: u64 = transfers.iter().sum();
        let outcome = if granted_so_far < c.num_grants {
            GrantOutcome::NeedsMore
        } else {
            GrantOutcome::Done
        };
        let (p, a) = worker_step(phase, WorkerEvent::Recorded { outcome }, &c);
        phase = p;
        match outcome {
            GrantOutcome::NeedsMore => assert_eq!(a, WorkerAction::SignalThenContinue),
            GrantOutcome::Done => {
                assert_eq!(a, WorkerAction::SignalThenPop);
                break;
            }
        }
    }
    assert_eq!(transfers, vec![2, 2, 1]);
    assert_eq!(total, 5000);
    assert_eq!(phase, WorkerPhase::AwaitRequest);
}

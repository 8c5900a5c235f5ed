//! Tests of the record breaker's decisions: spendable counting, the wait
//! rule, breakup planning, and the task's phase transitions.

use faucet_core::breaker::{
    breaker_step, breaker_should_wait, count_spendable, largest_spendable, plan_breakup_step,
    BreakerEvent, BreakerPhase, BreakupStep, RecordInfo,
};
use faucet_core::types::FaucetConfig;

fn cfg(num_records: usize) -> FaucetConfig {
    FaucetConfig { grant_size: 1000, num_grants: 5, fee_size: 100, num_records }
}

fn native(amount: u128) -> RecordInfo {
    RecordInfo { amount, is_native: true, frozen: false, on_hold: false }
}

#[test]
fn counting_skips_ineligible_records() {
    let records = vec![
        native(5000),
        RecordInfo { amount: 5000, is_native: false, frozen: false, on_hold: false },
        RecordInfo { amount: 5000, is_native: true, frozen: true, on_hold: false },
        RecordInfo { amount: 5000, is_native: true, frozen: false, on_hold: true },
        native(999),
        native(1000),
    ];
    assert_eq!(count_spendable(&records, 1000), 2);
}

#[test]
fn largest_ignores_ineligible_records() {
    let records = vec![
        native(1500),
        RecordInfo { amount: 100_000, is_native: true, frozen: true, on_hold: false },
        native(4000),
    ];
    assert_eq!(largest_spendable(&records, 1000), Some(4000));
    assert_eq!(largest_spendable(&Vec::new(), 1000), None);
}

#[test]
fn breaker_waits_with_half_the_target_spendable() {
    // 5 spendable records with a target of 10: at the half mark the breaker
    // waits even though large records are there to split.
    let records = vec![
        native(100_000),
        native(100_000),
        native(100_000),
        native(100_000),
        native(100_000),
    ];
    assert!(breaker_should_wait(&records, &cfg(10)));
}

#[test]
fn breaker_waits_when_nothing_large_enough() {
    // Below half the target, but no spendable record above 2 * grant_size.
    let records = vec![native(2000), native(1500)];
    assert!(breaker_should_wait(&records, &cfg(10)));
}

#[test]
fn breaker_acts_when_short_and_a_large_record_exists() {
    let records = vec![native(2001), native(1000)];
    assert!(!breaker_should_wait(&records, &cfg(10)));
}

#[test]
fn plan_splits_largest_record_in_half() {
    let records = vec![native(10_000), native(25_001), native(1000)];
    match plan_breakup_step(&records, 0, &cfg(25)) {
        BreakupStep::Split { amount, split, change } => {
            assert_eq!(amount, 25_001);
            assert_eq!(split, 12_500);
            assert_eq!(change, 12_501);
        }
        other => panic!("expected a split, got {:?}", other),
    }
}

#[test]
fn plan_counts_pending_transfers_toward_target() {
    // 4 spendable records and 3 transfers in flight: 4 + 2 * 3 >= 10.
    let records = vec![native(5000), native(5000), native(5000), native(5000)];
    assert_eq!(plan_breakup_step(&records, 3, &cfg(10)), BreakupStep::Enough);
    // With only 2 in flight the target is missed and the largest splits.
    match plan_breakup_step(&records, 2, &cfg(10)) {
        BreakupStep::Split { amount, split, change } => {
            assert_eq!(amount, 5000);
            assert_eq!(split, 2500);
            assert_eq!(change, 2500);
        }
        other => panic!("expected a split, got {:?}", other),
    }
}

#[test]
fn plan_gives_up_without_a_large_record() {
    let records = vec![native(1999), native(1000)];
    assert_eq!(plan_breakup_step(&records, 0, &cfg(10)), BreakupStep::NoLargeRecord);
}

#[test]
fn record_exhaustion_replenishes_to_target() {
    // One large starting record and a target of 10: planning step by step,
    // applying each split to the simulated holdings, reaches the target
    // without the balance ever leaving the wallet.
    let c = cfg(10);
    let mut records = vec![native(1_000_000)];
    let mut guard = 0;
    loop {
        let pending = 0;
        match plan_breakup_step(&records, pending, &c) {
            BreakupStep::Enough => break,
            BreakupStep::NoLargeRecord => panic!("ran out of large records"),
            BreakupStep::Split { amount, split, change } => {
                assert_eq!(split + change, amount);
                let i = records
                    .iter()
                    .position(|r| r.amount == amount)
                    .expect("planned amount must be a held record");
                records.remove(i);
                records.push(native(split));
                records.push(native(change));
            }
        }
        guard += 1;
        assert!(guard < 100, "breaker failed to converge");
    }
    assert!(count_spendable(&records, c.grant_size) >= c.num_records);
}

#[test]
fn breaker_phase_transitions_follow_the_table() {
    let p = breaker_step(BreakerPhase::Idle, BreakerEvent::Wake);
    assert_eq!(p, BreakerPhase::Assessing);
    assert_eq!(
        breaker_step(BreakerPhase::Assessing, BreakerEvent::SufficientRecords),
        BreakerPhase::Idle
    );
    assert_eq!(
        breaker_step(BreakerPhase::Assessing, BreakerEvent::InsufficientWithLarge),
        BreakerPhase::Splitting
    );
    assert_eq!(
        breaker_step(BreakerPhase::Splitting, BreakerEvent::BatchSubmitted),
        BreakerPhase::WaitingForFinalization
    );
    assert_eq!(
        breaker_step(BreakerPhase::WaitingForFinalization, BreakerEvent::ReceiptsDrained),
        BreakerPhase::Assessing
    );
}

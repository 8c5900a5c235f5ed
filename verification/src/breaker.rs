//! Decision logic of the record breaker.
//!
//! The breaker is a single background task that keeps the faucet's own
//! holdings split into enough spendable records to sustain concurrent
//! grants. Woken by a bounded signal channel, it counts the spendable
//! records under the wallet lock and, when fewer than half the target
//! remain, splits the largest record in two with a fee-less self-transfer,
//! batch after batch, until the records in hand plus those in flight meet
//! the target. All the judgement is here; the surrounding process reads the
//! wallet, submits the transfers and awaits the receipts.

use vstd::prelude::*;

use crate::types::FaucetConfig;

verus! {

/// What the engine reads of one wallet-owned record.
#[derive(Clone, Copy, Debug, PartialEq, Eq, Structural)]
pub struct RecordInfo {
    /// Amount in native-asset units.
    pub amount: u128,
    /// Whether the record is of the native asset.
    pub is_native: bool,
    /// Whether the record is frozen.
    pub frozen: bool,
    /// Whether the record is on hold at the current validator block height.
    pub on_hold: bool,
}

/// A record that can fund one grant right now: native, at least
/// `grant_size`, unfrozen, not on hold.
pub open spec fn spec_spendable(r: RecordInfo, grant_size: u64) -> bool {
    &&& r.is_native
    &&& r.amount >= grant_size
    &&& !r.frozen
    &&& !r.on_hold
}

/// How many of the records are spendable.
pub open spec fn spendable_count(s: Seq<RecordInfo>, grant_size: u64) -> int
    decreases s.len(),
{
    if s.len() == 0 {
        0
    } else {
        spendable_count(s.drop_last(), grant_size) + if spec_spendable(s.last(), grant_size) {
            1int
        } else {
            0int
        }
    }
}

/// The count never exceeds the number of records and is never negative.
pub proof fn lemma_spendable_count_bounds(s: Seq<RecordInfo>, grant_size: u64)
    ensures
        0 <= spendable_count(s, grant_size) <= s.len(),
    decreases s.len(),
{
    if s.len() > 0 {
        lemma_spendable_count_bounds(s.drop_last(), grant_size);
    }
}

/// Is a record spendable, as one executable check.
pub fn is_spendable(r: &RecordInfo, grant_size: u64) -> (b: bool)
    ensures
        b == spec_spendable(*r, grant_size),
{
    r.is_native && r.amount >= grant_size as u128 && !r.frozen && !r.on_hold
}

/// Count the spendable records.
pub fn count_spendable(records: &Vec<RecordInfo>, grant_size: u64) -> (r: usize)
    ensures
        r == spendable_count(records@, grant_size),
{
    let mut count: usize = 0;
    let mut i: usize = 0;
    while i < records.len()
        invariant
            i <= records@.len(),
            count == spendable_count(records@.subrange(0, i as int), grant_size),
            count <= i,
        decreases records@.len() - i,
    {
        proof {
            assert(records@.subrange(0, i + 1).drop_last() =~= records@.subrange(0, i as int));
            assert(records@.subrange(0, i + 1).last() == records@[i as int]);
        }
        if is_spendable(&records[i], grant_size) {
            count = count + 1;
        }
        i = i + 1;
    }
    proof {
        assert(records@.subrange(0, records@.len() as int) =~= records@);
    }
    count
}

/// Is some spendable record strictly larger than `2 * grant_size` — large
/// enough that the breaker considers it worth breaking?
pub open spec fn has_breakable(s: Seq<RecordInfo>, grant_size: u64) -> bool {
    exists|i: int|
        0 <= i < s.len() && #[trigger] spec_spendable(s[i], grant_size) && s[i].amount > 2 * (
        grant_size as u128)
}

/// Is some spendable record at least `2 * grant_size`, so that halving it
/// gives two records of at least `grant_size` each?
pub open spec fn has_splittable(s: Seq<RecordInfo>, grant_size: u64) -> bool {
    exists|i: int|
        0 <= i < s.len() && #[trigger] spec_spendable(s[i], grant_size) && s[i].amount >= 2 * (
        grant_size as u128)
}

/// `a` is the amount of a largest spendable record of `s`.
pub open spec fn is_largest_spendable(s: Seq<RecordInfo>, grant_size: u64, a: u128) -> bool {
    &&& exists|i: int|
        0 <= i < s.len() && #[trigger] spec_spendable(s[i], grant_size) && s[i].amount == a
    &&& forall|j: int|
        0 <= j < s.len() && #[trigger] spec_spendable(s[j], grant_size) ==> s[j].amount <= a
}

/// The amount of the largest spendable record, or `None` when no record is
/// spendable.
pub fn largest_spendable(records: &Vec<RecordInfo>, grant_size: u64) -> (r: Option<u128>)
    ensures
        match r {
            Some(a) => is_largest_spendable(records@, grant_size, a),
            None => spendable_count(records@, grant_size) == 0,
        },
{
    let mut best: Option<u128> = None;
    let ghost mut best_idx: int = 0;
    let mut i: usize = 0;
    while i < records.len()
        invariant
            i <= records@.len(),
            match best {
                Some(a) => {
                    &&& 0 <= best_idx < i
                    &&& spec_spendable(records@[best_idx], grant_size)
                    &&& records@[best_idx].amount == a
                    &&& forall|j: int|
                        0 <= j < i && #[trigger] spec_spendable(records@[j], grant_size)
                            ==> records@[j].amount <= a
                },
                None => spendable_count(records@.subrange(0, i as int), grant_size) == 0,
            },
        decreases records@.len() - i,
    {
        proof {
            assert(records@.subrange(0, i + 1).drop_last() =~= records@.subrange(0, i as int));
            assert(records@.subrange(0, i + 1).last() == records@[i as int]);
        }
        if is_spendable(&records[i], grant_size) {
            let a = records[i].amount;
            match best {
                Some(b) => {
                    if a > b {
                        best = Some(a);
                        proof {
                            best_idx = i as int;
                        }
                    }
                },
                None => {
                    best = Some(a);
                    proof {
                        best_idx = i as int;
                        assert forall|j: int|
                            0 <= j < i + 1 && #[trigger] spec_spendable(
                                records@[j],
                                grant_size,
                            ) implies records@[j].amount <= a by {
                            if j < i {
                                assert(records@.subrange(0, i as int)[j] == records@[j]);
                                lemma_spendable_at_index(
                                    records@.subrange(0, i as int),
                                    grant_size,
                                    j,
                                );
                            }
                        }
                    }
                },
            }
        }
        i = i + 1;
    }
    proof {
        match best {
            Some(a) => {
                assert(spec_spendable(records@[best_idx], grant_size));
            },
            None => {
                assert(records@.subrange(0, records@.len() as int) =~= records@);
            },
        }
    }
    best
}

/// Does the breaker wait rather than act? It waits when at least half the
/// target number of records is already spendable, or when no spendable
/// record is large enough to be worth breaking.
pub open spec fn breaker_waits(records: Seq<RecordInfo>, cfg: FaucetConfig) -> bool {
    ||| spendable_count(records, cfg.grant_size) >= cfg.num_records / 2
    ||| !has_breakable(records, cfg.grant_size)
}

/// The wait decision of the breaker's outer loop, taken under the wallet
/// lock each time it is woken.
pub fn breaker_should_wait(records: &Vec<RecordInfo>, cfg: &FaucetConfig) -> (r: bool)
    ensures
        r == breaker_waits(records@, *cfg),
{
    let count = count_spendable(records, cfg.grant_size);
    if count >= cfg.num_records / 2 {
        return true;
    }
    match largest_spendable(records, cfg.grant_size) {
        Some(a) => {
            proof {
                if has_breakable(records@, cfg.grant_size) {
                    let i = choose|i: int|
                        0 <= i < records@.len() && #[trigger] spec_spendable(
                            records@[i],
                            cfg.grant_size,
                        ) && records@[i].amount > 2 * (cfg.grant_size as u128);
                    assert(records@[i].amount <= a);
                }
            }
            !(a > 2 * (cfg.grant_size as u128))
        },
        None => {
            proof {
                if has_breakable(records@, cfg.grant_size) {
                    let i = choose|i: int|
                        0 <= i < records@.len() && #[trigger] spec_spendable(
                            records@[i],
                            cfg.grant_size,
                        ) && records@[i].amount > 2 * (cfg.grant_size as u128);
                    lemma_spendable_at_index(records@, cfg.grant_size, i);
                }
            }
            true
        },
    }
}

/// A spendable record makes the count positive.
proof fn lemma_spendable_at_index(s: Seq<RecordInfo>, grant_size: u64, i: int)
    requires
        0 <= i < s.len(),
        spec_spendable(s[i], grant_size),
    ensures
        spendable_count(s, grant_size) >= 1,
    decreases s.len(),
{
    lemma_spendable_count_bounds(s.drop_last(), grant_size);
    if i < s.len() - 1 {
        lemma_spendable_at_index(s.drop_last(), grant_size, i);
    }
}

/// Law (idempotence under spurious wakes): whenever at least half the
/// target number of records is spendable, the breaker waits and submits no
/// transfer.
pub proof fn lemma_breaker_idempotent(records: Seq<RecordInfo>, cfg: FaucetConfig)
    requires
        spendable_count(records, cfg.grant_size) >= cfg.num_records / 2,
    ensures
        breaker_waits(records, cfg),
{
}

/// One decision of the batch loop inside a breakup round.
#[derive(Clone, Copy, Debug, PartialEq, Eq, Structural)]
pub enum BreakupStep {
    /// Spendable records in hand plus two outputs per transfer in flight
    /// meet the target: stop and return the batch.
    Enough,
    /// No spendable record is large enough to split; end the batch early.
    NoLargeRecord,
    /// Split the largest spendable record, of `amount`, with a two-output
    /// self-transfer of `change` and `split` and no fee.
    Split { amount: u128, split: u128, change: u128 },
}

/// Decide the next move of a breakup round, with `pending` split transfers
/// already in flight.
pub fn plan_breakup_step(records: &Vec<RecordInfo>, pending: usize, cfg: &FaucetConfig) -> (r:
    BreakupStep)
    requires
        pending <= usize::MAX / 2,
    ensures
        ({
            let c = spendable_count(records@, cfg.grant_size);
            if c + 2 * pending >= cfg.num_records {
                r == BreakupStep::Enough
            } else if !has_splittable(records@, cfg.grant_size) {
                r == BreakupStep::NoLargeRecord
            } else {
                match r {
                    BreakupStep::Split { amount, split, change } => {
                        &&& is_largest_spendable(records@, cfg.grant_size, amount)
                        &&& amount >= 2 * (cfg.grant_size as u128)
                        &&& split == amount / 2
                        &&& change == amount - split
                        &&& split + change == amount
                        &&& split >= cfg.grant_size
                        &&& change >= split
                    },
                    _ => false,
                }
            }
        }),
{
    let count = count_spendable(records, cfg.grant_size);
    proof {
        lemma_spendable_count_bounds(records@, cfg.grant_size);
    }
    if count >= cfg.num_records || 2 * pending >= cfg.num_records - count {
        return BreakupStep::Enough;
    }
    match largest_spendable(records, cfg.grant_size) {
        Some(amount) => {
            if amount < 2 * (cfg.grant_size as u128) {
                proof {
                    if has_splittable(records@, cfg.grant_size) {
                        let i = choose|i: int|
                            0 <= i < records@.len() && #[trigger] spec_spendable(
                                records@[i],
                                cfg.grant_size,
                            ) && records@[i].amount >= 2 * (cfg.grant_size as u128);
                        assert(records@[i].amount <= amount);
                    }
                }
                BreakupStep::NoLargeRecord
            } else {
                let split = amount / 2;
                let change = amount - split;
                BreakupStep::Split { amount, split, change }
            }
        },
        None => {
            proof {
                if has_splittable(records@, cfg.grant_size) {
                    let i = choose|i: int|
                        0 <= i < records@.len() && #[trigger] spec_spendable(
                            records@[i],
                            cfg.grant_size,
                        ) && records@[i].amount >= 2 * (cfg.grant_size as u128);
                    lemma_spendable_at_index(records@, cfg.grant_size, i);
                }
            }
            BreakupStep::NoLargeRecord
        },
    }
}

/// The phase the breaker task is in.
#[derive(Clone, Copy, Debug, PartialEq, Eq, Structural)]
pub enum BreakerPhase {
    /// Waiting for a wake signal.
    Idle,
    /// Woken; counting spendable records under the wallet lock.
    Assessing,
    /// Submitting a batch of split transfers.
    Splitting,
    /// Awaiting the receipts of a submitted batch.
    WaitingForFinalization,
}

/// What the surrounding task observed, driving the breaker's phase.
#[derive(Clone, Copy, Debug, PartialEq, Eq, Structural)]
pub enum BreakerEvent {
    /// A wake signal arrived (possibly a spurious one).
    Wake,
    /// Assessment found enough spendable records, or nothing worth breaking.
    SufficientRecords,
    /// Assessment found too few records and a large one to break.
    InsufficientWithLarge,
    /// A batch of split transfers was submitted.
    BatchSubmitted,
    /// Every receipt of the batch was awaited.
    ReceiptsDrained,
}

/// Which events can drive which phase.
pub open spec fn breaker_event_fits(phase: BreakerPhase, event: BreakerEvent) -> bool {
    match (phase, event) {
        (BreakerPhase::Idle, BreakerEvent::Wake) => true,
        (BreakerPhase::Assessing, BreakerEvent::SufficientRecords) => true,
        (BreakerPhase::Assessing, BreakerEvent::InsufficientWithLarge) => true,
        (BreakerPhase::Splitting, BreakerEvent::BatchSubmitted) => true,
        (BreakerPhase::WaitingForFinalization, BreakerEvent::ReceiptsDrained) => true,
        _ => false,
    }
}

/// The breaker's transition table: Idle wakes to Assessing; Assessing goes
/// back to Idle when records suffice and on to Splitting otherwise; a
/// submitted batch waits for finalization; drained receipts trigger a fresh
/// assessment.
pub open spec fn breaker_step_spec(phase: BreakerPhase, event: BreakerEvent) -> BreakerPhase {
    match (phase, event) {
        (BreakerPhase::Idle, BreakerEvent::Wake) => BreakerPhase::Assessing,
        (BreakerPhase::Assessing, BreakerEvent::SufficientRecords) => BreakerPhase::Idle,
        (BreakerPhase::Assessing, BreakerEvent::InsufficientWithLarge) => BreakerPhase::Splitting,
        (BreakerPhase::Splitting, BreakerEvent::BatchSubmitted) => (
        BreakerPhase::WaitingForFinalization),
        (BreakerPhase::WaitingForFinalization, BreakerEvent::ReceiptsDrained) => (
        BreakerPhase::Assessing),
        _ => phase,
    }
}

/// One transition of the breaker task.
pub fn breaker_step(phase: BreakerPhase, event: BreakerEvent) -> (r: BreakerPhase)
    requires
        breaker_event_fits(phase, event),
    ensures
        r == breaker_step_spec(phase, event),
{
    match (phase, event) {
        (BreakerPhase::Idle, BreakerEvent::Wake) => BreakerPhase::Assessing,
        (BreakerPhase::Assessing, BreakerEvent::SufficientRecords) => BreakerPhase::Idle,
        (BreakerPhase::Assessing, BreakerEvent::InsufficientWithLarge) => BreakerPhase::Splitting,
        (BreakerPhase::Splitting, BreakerEvent::BatchSubmitted) => (
        BreakerPhase::WaitingForFinalization),
        (BreakerPhase::WaitingForFinalization, BreakerEvent::ReceiptsDrained) => (
        BreakerPhase::Assessing),
        (p, _) => p,
    }
}

} // verus!

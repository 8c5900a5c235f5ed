//! Decision logic of the transfer workers.
//!
//! A worker loops: pop a request, wait until the wallet balance covers one
//! grant, transfer one or two grants to the key, record them in the queue
//! index, and either continue with the same key or move on. Everything the
//! loop decides is here, as a step function from phase and observed event to
//! next phase and action; the surrounding process performs the actions
//! (popping, locking the wallet, transferring, sleeping) and feeds back what
//! happened.

use vstd::prelude::*;

use crate::index::GrantOutcome;
use crate::types::{FaucetConfig, Recipient};

verus! {

/// What to do about a request once the wallet balance is known.
#[derive(Clone, Copy, Debug, PartialEq, Eq, Structural)]
pub enum TransferPlan {
    /// Balance below `grant_size`: wait for funds and look again.
    Wait,
    /// Submit one transfer with this many outputs of `grant_size` each.
    Transfer { outputs: u64 },
}

/// How many outputs one transfer carries: two when the key is still owed
/// more than one grant and the balance covers both, else one.
pub open spec fn transfer_outputs(grants_given: u64, balance: u128, cfg: FaucetConfig) -> u64 {
    if cfg.num_grants - grants_given > 1 && balance >= 2 * (cfg.grant_size as u128) {
        2
    } else {
        1
    }
}

/// The full balance decision: wait below `grant_size`, else transfer.
pub open spec fn spec_decide(grants_given: u64, balance: u128, cfg: FaucetConfig) -> TransferPlan {
    if balance < cfg.grant_size as u128 {
        TransferPlan::Wait
    } else {
        TransferPlan::Transfer { outputs: transfer_outputs(grants_given, balance, cfg) }
    }
}

/// Decide what one worker loop iteration does for a key that was already
/// given `grants_given` of `cfg.num_grants` grants, with the wallet holding
/// `balance`.
pub fn decide_transfer(grants_given: u64, balance: u128, cfg: &FaucetConfig) -> (r: TransferPlan)
    requires
        grants_given < cfg.num_grants,
    ensures
        r == spec_decide(grants_given, balance, *cfg),
{
    if balance < cfg.grant_size as u128 {
        TransferPlan::Wait
    } else if cfg.num_grants - grants_given > 1 && balance >= 2 * (cfg.grant_size as u128) {
        TransferPlan::Transfer { outputs: 2 }
    } else {
        TransferPlan::Transfer { outputs: 1 }
    }
}

/// Law: a transfer never carries more grants than the key is still owed,
/// and always one or two.
pub proof fn lemma_outputs_within_owed(grants_given: u64, balance: u128, cfg: FaucetConfig)
    requires
        grants_given < cfg.num_grants,
    ensures
        1 <= transfer_outputs(grants_given, balance, cfg) <= 2,
        grants_given + transfer_outputs(grants_given, balance, cfg) <= cfg.num_grants,
{
}

/// Law: a key owed exactly one more grant never takes the two-output path.
/// In particular, with `num_grants == 1` it is never taken at all.
pub proof fn lemma_last_grant_single_output(grants_given: u64, balance: u128, cfg: FaucetConfig)
    requires
        grants_given < cfg.num_grants,
        cfg.num_grants - grants_given == 1,
    ensures
        transfer_outputs(grants_given, balance, cfg) == 1,
{
}

/// Law: the two-output path needs a balance of at least `2 * grant_size`;
/// any balance from `grant_size` up to one unit short of that yields exactly
/// one single-output transfer, however many grants are still owed.
pub proof fn lemma_fast_path_needs_double_balance(
    grants_given: u64,
    balance: u128,
    cfg: FaucetConfig,
)
    requires
        grants_given < cfg.num_grants,
        cfg.grant_size <= balance < 2 * (cfg.grant_size as u128),
    ensures
        spec_decide(grants_given, balance, cfg) == (TransferPlan::Transfer { outputs: 1u64 }),
{
}

/// The sum of a sequence of per-transfer output counts.
pub open spec fn sum_outputs(outs: Seq<u64>) -> int
    decreases outs.len(),
{
    if outs.len() == 0 {
        0
    } else {
        sum_outputs(outs.drop_last()) + outs.last()
    }
}

/// The sum of output counts is never negative.
pub proof fn lemma_sum_outputs_nonneg(outs: Seq<u64>)
    ensures
        sum_outputs(outs) >= 0,
    decreases outs.len(),
{
    if outs.len() > 0 {
        lemma_sum_outputs_nonneg(outs.drop_last());
    }
}

/// The `i`th transfer of a run is in order: the key was still owed grants
/// beforehand, and a two-output transfer happens only when at least two are
/// owed.
pub open spec fn run_step_ok(outs: Seq<u64>, i: int, cfg: FaucetConfig) -> bool {
    let before = sum_outputs(outs.subrange(0, i));
    &&& before < cfg.num_grants
    &&& (outs[i] == 1 || (outs[i] == 2 && before + 2 <= cfg.num_grants))
}

/// A crash-free run of transfers for one request: every transfer is in
/// order.
pub open spec fn valid_run(outs: Seq<u64>, cfg: FaucetConfig) -> bool {
    forall|i: int| 0 <= i < outs.len() ==> #[trigger] run_step_ok(outs, i, cfg)
}

/// Extending a run with what the decision rule chose keeps it valid.
pub proof fn lemma_run_extend(outs: Seq<u64>, n: u64, balance: u128, cfg: FaucetConfig)
    requires
        cfg.wf(),
        valid_run(outs, cfg),
        sum_outputs(outs) < cfg.num_grants,
        spec_decide(sum_outputs(outs) as u64, balance, cfg) == (TransferPlan::Transfer {
            outputs: n,
        }),
    ensures
        valid_run(outs.push(n), cfg),
{
    let t = outs.push(n);
    assert forall|i: int| 0 <= i < t.len() implies #[trigger] run_step_ok(t, i, cfg) by {
        if i < outs.len() {
            assert(run_step_ok(outs, i, cfg));
            assert(t.subrange(0, i) =~= outs.subrange(0, i));
            assert(t[i] == outs[i]);
        } else {
            assert(t.subrange(0, i) =~= outs);
            assert(t[i] == n);
            lemma_sum_outputs_nonneg(outs);
            assert(sum_outputs(outs) as u64 == sum_outputs(outs));
        }
    }
}

/// Law: over any crash-free run — finished or not — the grants given stay
/// between 0 and `num_grants`, so the amount received is a multiple of
/// `grant_size` no greater than `num_grants * grant_size`.
pub proof fn lemma_run_bounded(outs: Seq<u64>, cfg: FaucetConfig)
    requires
        cfg.wf(),
        valid_run(outs, cfg),
    ensures
        0 <= sum_outputs(outs) <= cfg.num_grants,
{
    lemma_sum_outputs_nonneg(outs);
    if outs.len() > 0 {
        let i = outs.len() - 1;
        assert(run_step_ok(outs, i as int, cfg));
        assert(outs.subrange(0, i as int) =~= outs.drop_last());
    }
}

/// Law (crash-free totals): once a run's transfers reach `num_grants`
/// grants, they reach it exactly — the key receives `num_grants` grants of
/// `grant_size` each and not one more, `num_grants * grant_size` units in
/// all.
pub proof fn lemma_run_total(outs: Seq<u64>, cfg: FaucetConfig)
    requires
        cfg.wf(),
        valid_run(outs, cfg),
        sum_outputs(outs) >= cfg.num_grants,
    ensures
        sum_outputs(outs) == cfg.num_grants,
{
    assert(outs.len() > 0);
    let i = outs.len() - 1;
    assert(run_step_ok(outs, i as int, cfg));
    assert(outs.subrange(0, i as int) =~= outs.drop_last());
}

/// The phase a worker is in.
#[derive(Clone, Copy, Debug, PartialEq, Eq, Structural)]
pub enum WorkerPhase {
    /// Waiting for the next request from the channel.
    AwaitRequest,
    /// Holding a request; about to read the wallet balance.
    CheckBalance { key: Recipient, grants_given: u64 },
    /// Submitted a transfer of `outputs` grants; awaiting its outcome.
    Transferring { key: Recipient, grants_given: u64, outputs: u64 },
    /// Transfer succeeded; recording it in the queue index.
    Recording { key: Recipient, grants_given: u64, outputs: u64 },
    /// The channel closed; the worker has exited.
    Stopped,
}

/// What the surrounding loop observed since the last step.
#[derive(Clone, Copy, Debug, PartialEq, Eq)]
pub enum WorkerEvent {
    /// Result of popping the channel: a request, or `None` when closed.
    Popped { request: Option<(Recipient, u64)> },
    /// The wallet's native-asset balance, read under the wallet lock.
    Balance { balance: u128 },
    /// The submitted transfer succeeded.
    TransferOk,
    /// The submitted transfer failed.
    TransferFailed,
    /// The queue index recorded the grants and reported this outcome.
    Recorded { outcome: GrantOutcome },
}

/// What the surrounding loop must do next.
#[derive(Clone, Copy, Debug, PartialEq, Eq, Structural)]
pub enum WorkerAction {
    /// Pop the next request from the channel.
    Pop,
    /// Read the wallet balance under the wallet lock.
    ReadBalance,
    /// Release the wallet lock, sleep, then read the balance again.
    Sleep,
    /// Holding the wallet lock, submit a transfer to the held key with this
    /// many outputs of `grant_size` each and fee `fee_size`.
    SubmitTransfer { outputs: u64 },
    /// Record `granted` grants for the held key in the queue index.
    RecordGrant { granted: u64 },
    /// Re-queue the held key as failed, then pop the next request.
    FailRequest,
    /// Signal the record breaker, then read the balance again for the same
    /// key.
    SignalThenContinue,
    /// Signal the record breaker, then pop the next request.
    SignalThenPop,
    /// Exit the worker loop.
    Exit,
}

/// A phase whose counters make sense: the held key is still owed grants and
/// a planned transfer fits what is owed.
pub open spec fn phase_wf(phase: WorkerPhase, cfg: FaucetConfig) -> bool {
    match phase {
        WorkerPhase::AwaitRequest => true,
        WorkerPhase::CheckBalance { key, grants_given } => grants_given < cfg.num_grants,
        WorkerPhase::Transferring { key, grants_given, outputs } => grants_given < cfg.num_grants
            && 1 <= outputs <= 2 && grants_given + outputs <= cfg.num_grants,
        WorkerPhase::Recording { key, grants_given, outputs } => grants_given < cfg.num_grants && 1
            <= outputs <= 2 && grants_given + outputs <= cfg.num_grants,
        WorkerPhase::Stopped => true,
    }
}

/// Which events can answer which phase, and what the answering component
/// guarantees about them: a popped request carries a counter below
/// `num_grants` (the queue's invariant), and the index reports `NeedsMore`
/// exactly when the new counter is still below `num_grants` (its contract).
pub open spec fn event_fits(phase: WorkerPhase, event: WorkerEvent, cfg: FaucetConfig) -> bool {
    match (phase, event) {
        (WorkerPhase::AwaitRequest, WorkerEvent::Popped { request }) => match request {
            Some(req) => req.1 < cfg.num_grants,
            None => true,
        },
        (WorkerPhase::CheckBalance { .. }, WorkerEvent::Balance { .. }) => true,
        (WorkerPhase::Transferring { .. }, WorkerEvent::TransferOk) => true,
        (WorkerPhase::Transferring { .. }, WorkerEvent::TransferFailed) => true,
        (
            WorkerPhase::Recording { key, grants_given, outputs },
            WorkerEvent::Recorded { outcome },
        ) => (outcome == GrantOutcome::NeedsMore <==> grants_given + outputs < cfg.num_grants),
        _ => false,
    }
}

/// The worker's transition table.
pub open spec fn worker_step_spec(phase: WorkerPhase, event: WorkerEvent, cfg: FaucetConfig) -> (
    WorkerPhase,
    WorkerAction,
) {
    match (phase, event) {
        (WorkerPhase::AwaitRequest, WorkerEvent::Popped { request }) => match request {
            Some(req) => (
                WorkerPhase::CheckBalance { key: req.0, grants_given: req.1 },
                WorkerAction::ReadBalance,
            ),
            None => (WorkerPhase::Stopped, WorkerAction::Exit),
        },
        (WorkerPhase::CheckBalance { key, grants_given }, WorkerEvent::Balance { balance }) => {
            if balance < cfg.grant_size as u128 {
                (WorkerPhase::CheckBalance { key, grants_given }, WorkerAction::Sleep)
            } else {
                let outputs = transfer_outputs(grants_given, balance, cfg);
                (
                    WorkerPhase::Transferring { key, grants_given, outputs },
                    WorkerAction::SubmitTransfer { outputs },
                )
            }
        },
        (WorkerPhase::Transferring { key, grants_given, outputs }, WorkerEvent::TransferOk) => (
            WorkerPhase::Recording { key, grants_given, outputs },
            WorkerAction::RecordGrant { granted: outputs },
        ),
        (WorkerPhase::Transferring { .. }, WorkerEvent::TransferFailed) => (
            WorkerPhase::AwaitRequest,
            WorkerAction::FailRequest,
        ),
        (
            WorkerPhase::Recording { key, grants_given, outputs },
            WorkerEvent::Recorded { outcome },
        ) => {
            if outcome == GrantOutcome::NeedsMore {
                (
                    WorkerPhase::CheckBalance {
                        key,
                        grants_given: (grants_given + outputs) as u64,
                    },
                    WorkerAction::SignalThenContinue,
                )
            } else {
                (WorkerPhase::AwaitRequest, WorkerAction::SignalThenPop)
            }
        },
        _ => (phase, WorkerAction::Exit),
    }
}

/// One step of the worker loop: from the current phase and what just
/// happened, the next phase and the action to perform.
pub fn worker_step(phase: WorkerPhase, event: WorkerEvent, cfg: &FaucetConfig) -> (r: (
    WorkerPhase,
    WorkerAction,
))
    requires
        cfg.wf(),
        phase_wf(phase, *cfg),
        event_fits(phase, event, *cfg),
    ensures
        r == worker_step_spec(phase, event, *cfg),
        phase_wf(r.0, *cfg),
{
    match (phase, event) {
        (WorkerPhase::AwaitRequest, WorkerEvent::Popped { request }) => match request {
            Some(req) => (
                WorkerPhase::CheckBalance { key: req.0, grants_given: req.1 },
                WorkerAction::ReadBalance,
            ),
            None => (WorkerPhase::Stopped, WorkerAction::Exit),
        },
        (WorkerPhase::CheckBalance { key, grants_given }, WorkerEvent::Balance { balance }) => {
            match decide_transfer(grants_given, balance, cfg) {
                TransferPlan::Wait => (
                    WorkerPhase::CheckBalance { key, grants_given },
                    WorkerAction::Sleep,
                ),
                TransferPlan::Transfer { outputs } => (
                    WorkerPhase::Transferring { key, grants_given, outputs },
                    WorkerAction::SubmitTransfer { outputs },
                ),
            }
        },
        (WorkerPhase::Transferring { key, grants_given, outputs }, WorkerEvent::TransferOk) => (
            WorkerPhase::Recording { key, grants_given, outputs },
            WorkerAction::RecordGrant { granted: outputs },
        ),
        (WorkerPhase::Transferring { .. }, WorkerEvent::TransferFailed) => (
            WorkerPhase::AwaitRequest,
            WorkerAction::FailRequest,
        ),
        (
            WorkerPhase::Recording { key, grants_given, outputs },
            WorkerEvent::Recorded { outcome },
        ) => {
            if outcome == GrantOutcome::NeedsMore {
                (
                    WorkerPhase::CheckBalance { key, grants_given: grants_given + outputs },
                    WorkerAction::SignalThenContinue,
                )
            } else {
                (WorkerPhase::AwaitRequest, WorkerAction::SignalThenPop)
            }
        },
        _ => (phase, WorkerAction::Exit),
    }
}

} // verus!

//! Plain data the engine works on: recipients, service status, errors and
//! tunables.

use vstd::prelude::*;

verus! {

/// A recipient public key, reduced to what the engine reads of it.
///
/// The engine treats keys as opaque: it only ever compares them for equality.
/// The surrounding process maps each real public key to a distinct identity
/// when it hands a request to the engine.
#[derive(Clone, Copy, Debug, PartialEq, Eq, Hash, Structural)]
pub struct Recipient {
    pub id: u64,
}

/// Service status reported by the health endpoint.
///
/// The status flips from `Initializing` to `Available` exactly once, at the
/// end of bootstrap, and never reverts.
#[derive(Clone, Copy, Debug, PartialEq, Eq, Structural)]
pub enum FaucetStatus {
    Initializing,
    Available,
}

/// Errors surfaced to clients of the faucet.
#[derive(Clone, Copy, Debug, PartialEq, Eq, Structural)]
pub enum FaucetError {
    /// Admission refused: the queue already holds `max_len` pending keys.
    QueueFull { max_len: usize },
    /// Duplicate request for a key that is not yet fully served.
    AlreadyInQueue { key: Recipient },
    /// The service has not finished bootstrapping.
    Unavailable,
    /// Malformed request body.
    BadRequest,
    /// Storage or wallet failure.
    Internal,
}

/// Tunables shared by the transfer workers and the record breaker.
#[derive(Clone, Copy, Debug)]
pub struct FaucetConfig {
    /// Amount of each grant output, in native-asset units.
    pub grant_size: u64,
    /// Number of grants a recipient receives per request.
    pub num_grants: u64,
    /// Fee paid on each user-facing transfer.
    pub fee_size: u64,
    /// Target number of spendable records the breaker maintains.
    pub num_records: usize,
}

impl FaucetConfig {
    /// A configuration the engine can run with: at least one grant per
    /// request, grants of a positive size.
    pub open spec fn wf(self) -> bool {
        &&& self.num_grants >= 1
        &&& self.grant_size >= 1
    }
}

} // verus!

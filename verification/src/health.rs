//! The service surface behind the two HTTP endpoints: health reporting and
//! request admission.
//!
//! The surrounding process parses the request body and serialises the
//! replies; the decisions — what the health endpoint answers, when requests
//! are refused, what admission does to the queue — are made here.

use vstd::prelude::*;

use crate::queue::FaucetQueue;
use crate::types::{FaucetError, FaucetStatus, Recipient};

verus! {

/// The health endpoint's reply.
#[derive(Clone, Copy, Debug, PartialEq, Eq, Structural)]
pub struct HealthCheck {
    pub status: FaucetStatus,
}

impl HealthCheck {
    /// Law: the health endpoint answers HTTP 200 whatever the status — also
    /// while the service is still initializing — so a load balancer never
    /// kills the service during bootstrap.
    pub fn status(&self) -> (r: u16)
        ensures
            r == 200,
    {
        200
    }
}

/// The health endpoint's body: the current status, as it stands.
pub fn healthcheck(status: FaucetStatus) -> (r: HealthCheck)
    ensures
        r == (HealthCheck { status }),
{
    HealthCheck { status }
}

/// Requests are served only once bootstrap has flipped the status to
/// `Available`; before that they are refused with `Unavailable`.
pub fn check_service_available(status: FaucetStatus) -> (r: Result<(), FaucetError>)
    ensures
        status == FaucetStatus::Available ==> r == Result::<(), FaucetError>::Ok(()),
        status != FaucetStatus::Available ==> r == Result::<(), FaucetError>::Err(
            FaucetError::Unavailable,
        ),
{
    if status == FaucetStatus::Available {
        Ok(())
    } else {
        Err(FaucetError::Unavailable)
    }
}

/// The request endpoint's core: refuse while the service is unavailable,
/// otherwise admit the recipient into the queue as
/// [`FaucetQueue::push_post`] says.
pub fn request_fee_assets(status: FaucetStatus, queue: &mut FaucetQueue, key: Recipient) -> (r:
    Result<(), FaucetError>)
    requires
        old(queue).wf(),
    ensures
        final(queue).wf(),
        status != FaucetStatus::Available ==> r == Result::<(), FaucetError>::Err(
            FaucetError::Unavailable,
        ) && *final(queue) == *old(queue),
        status == FaucetStatus::Available ==> FaucetQueue::push_post(
            *old(queue),
            *final(queue),
            key,
            r,
        ),
{
    match check_service_available(status) {
        Ok(()) => queue.push(key),
        Err(e) => Err(e),
    }
}

} // verus!

use vstd::prelude::*;

use crate::rack::{SlotReceiver, SlotSendError, SlotSender};

verus! {

/// A lock that was held when it was tried.
#[verifier::external_type_specification]
#[verifier::external_body]
pub struct ExTryLockError(tokio::sync::TryLockError);

/// Why a runner stopped.
#[derive(Debug)]
pub enum SlotRunnerError {
    TryLockError(tokio::sync::TryLockError),
    SlotCrash,
    SlotChannelClosed,
    SlotSendError(SlotSendError),
}

impl From<tokio::sync::TryLockError> for SlotRunnerError {
    fn from(error: tokio::sync::TryLockError) -> (converted: Self) {
        SlotRunnerError::TryLockError(error)
    }
}

impl vstd::std_specs::convert::FromSpecImpl<tokio::sync::TryLockError> for SlotRunnerError {
    open spec fn obeys_from_spec() -> bool {
        true
    }

    open spec fn from_spec(error: tokio::sync::TryLockError) -> Self {
        SlotRunnerError::TryLockError(error)
    }
}

impl From<SlotSendError> for SlotRunnerError {
    fn from(error: SlotSendError) -> (converted: Self) {
        SlotRunnerError::SlotSendError(error)
    }
}

impl vstd::std_specs::convert::FromSpecImpl<SlotSendError> for SlotRunnerError {
    open spec fn obeys_from_spec() -> bool {
        true
    }

    open spec fn from_spec(error: SlotSendError) -> Self {
        SlotRunnerError::SlotSendError(error)
    }
}

/// A running runner.
pub struct SlotRunnerHandle {
    pub handle: tokio::task::JoinHandle<Result<(), SlotRunnerError>>,
}

/// Something that drives a slot of type `S`: it takes packets from `rx`,
/// sends on through `tx` and out through `exit_tx`.
pub trait SlotRunner<S> {
    fn run(self, rx: SlotReceiver, tx: SlotSender, exit_tx: SlotSender) -> Result<
        SlotRunnerHandle,
        SlotRunnerError,
    >;
}

/// Something that wraps slots of type `S` in runners of type `SR`.
pub trait SlotRunnerConfig<S, SR>: Default where SR: SlotRunner<S> {
    fn build(&mut self, slot: S) -> SR;
}

/// Configures runners that drive an asynchronous slot.
pub struct AsyncSlotRunnerConfig {}

impl Default for AsyncSlotRunnerConfig {
    fn default() -> Self {
        Self {}
    }
}

/// Configures runners that hand a slot's data to a pool of tasks.
pub struct ParallelSlotRunnerConfig {}

/// Configures runners that drive a slot one packet at a time.
pub struct SequentialSlotRunnerConfig {}

impl Default for SequentialSlotRunnerConfig {
    fn default() -> Self {
        Self {}
    }
}

/// Configures runners that drive a synchronous slot.
pub struct SyncSlotRunnerConfig {}

impl Default for SyncSlotRunnerConfig {
    fn default() -> Self {
        Self {}
    }
}

/// What a parallel runner ends with once the next of its workers has ended
/// (`None` when none was left): that worker's own outcome, a crash when the
/// worker's task itself failed, or a closed channel when no worker was left.
pub fn worker_outcome(
    ended: Option<Result<Result<(), SlotRunnerError>, tokio::task::JoinError>>,
) -> (outcome: Result<(), SlotRunnerError>)
    ensures
        outcome == (match ended {
            Some(Ok(result)) => result,
            Some(Err(_)) => Err(SlotRunnerError::SlotCrash),
            None => Err(SlotRunnerError::SlotChannelClosed),
        }),
{
    match ended {
        Some(Ok(result)) => result,
        Some(Err(_)) => Err(SlotRunnerError::SlotCrash),
        None => Err(SlotRunnerError::SlotChannelClosed),
    }
}

} // verus!

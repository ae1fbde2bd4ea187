use vstd::prelude::*;

use futures::FutureExt;

use crate::rotary::RotaryCanonError;

verus! {

/// Why a slot's worker stopped.
#[derive(Debug)]
pub enum SlotWorkerError {
    RotaryCannonError(RotaryCanonError),
    SlotCrash,
    SlotChannelClosed,
}

impl From<RotaryCanonError> for SlotWorkerError {
    fn from(error: RotaryCanonError) -> (converted: Self) {
        SlotWorkerError::RotaryCannonError(error)
    }
}

impl vstd::std_specs::convert::FromSpecImpl<RotaryCanonError> for SlotWorkerError {
    open spec fn obeys_from_spec() -> bool {
        true
    }

    open spec fn from_spec(error: RotaryCanonError) -> Self {
        SlotWorkerError::RotaryCannonError(error)
    }
}

/// The running worker of a slot. Once wrapped, its task handle is polled only
/// by `poll_worker`, which takes the handle and gives it back only while the
/// task has not ended.
pub struct SlotWorkerHandle {
    handle: tokio::task::JoinHandle<Result<(), SlotWorkerError>>,
}

impl SlotWorkerHandle {
    /// Wraps the handle of a worker task whose output has not been taken.
    pub fn new(handle: tokio::task::JoinHandle<Result<(), SlotWorkerError>>) -> (worker: Self) {
        SlotWorkerHandle { handle }
    }
}

/// What polling a worker came to: it is still running (and here is its handle
/// back), or it has ended with this output (and its handle is gone).
pub enum WorkerPolled {
    Running(SlotWorkerHandle),
    Ended(Result<Result<(), SlotWorkerError>, tokio::task::JoinError>),
}

/// Wraps `FutureExt::poll_unpin` on a worker's join handle: the worker's
/// output once it has ended (`Err` if it panicked or was cancelled), or the
/// handle back while it runs. Which it is depends on the task and is not
/// stated. A handle panics when polled again after it has yielded; taking it by
/// value and giving it back only while it runs rules that out. Polling leaves
/// the handle itself as it was (it only reads the task through it), so the one
/// given back is the one taken.
#[verifier::external_body]
pub(crate) fn poll_worker(worker: SlotWorkerHandle, cx: &mut std::task::Context<'_>) -> (polled: WorkerPolled)
    ensures
        polled matches WorkerPolled::Running(back) ==> back == worker,
{
    let mut worker = worker;
    match worker.handle.poll_unpin(cx) {
        std::task::Poll::Ready(result) => WorkerPolled::Ended(result),
        std::task::Poll::Pending => WorkerPolled::Running(worker),
    }
}

/// Polling `worker` was answered with `polled`: a call of `poll_worker` on
/// it returned it.
pub closed spec fn worker_polled_as(worker: SlotWorkerHandle, polled: WorkerPolled) -> bool {
    exists|cx: &mut std::task::Context<'_>| call_ensures(poll_worker, (worker, cx), polled)
}

/// A call of `poll_worker` on `worker` that returned `polled` is what
/// `worker_polled_as` says.
pub(crate) proof fn lemma_worker_polled(worker: SlotWorkerHandle, polled: WorkerPolled)
    requires
        exists|cx: &mut std::task::Context<'_>| call_ensures(poll_worker, (worker, cx), polled),
    ensures
        worker_polled_as(worker, polled),
{
}

/// Polling `worker` found it still running.
pub open spec fn worker_running(worker: SlotWorkerHandle) -> bool {
    exists|back: SlotWorkerHandle| worker_polled_as(worker, WorkerPolled::Running(back))
}

} // verus!

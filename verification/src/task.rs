use vstd::prelude::*;

verus! {

/// The task context that a poll hands on to the futures and channels it polls.
#[verifier::external_type_specification]
#[verifier::external_body]
pub struct ExContext<'a>(std::task::Context<'a>);

/// A handle on a spawned task, which yields the task's output once it ends.
#[verifier::external_type_specification]
#[verifier::external_body]
#[verifier::reject_recursive_types(T)]
pub struct ExJoinHandle<T>(tokio::task::JoinHandle<T>);

/// Why a task ended without an output (it panicked or was cancelled).
#[verifier::external_type_specification]
#[verifier::external_body]
pub struct ExJoinError(tokio::task::JoinError);

/// The outcome of one poll: a value that is ready, or nothing yet.
pub enum Polled<T> {
    Ready(T),
    Pending,
}

} // verus!

use vstd::prelude::*;

use crate::error::TunRackError;
use crate::rotary::{RotaryCanon, RotaryTarget};
use crate::slot::worker::SlotWorkerHandle;
use crate::slot::SlotConfig;

verus! {

/// One call of a slot's `start_worker`: the ends its worker was given, and
/// the error the call returned, if it returned one.
pub struct WorkerStart {
    pub entry_rx: RotaryTarget,
    pub next_tx: RotaryCanon,
    pub exit_tx: RotaryCanon,
    pub error: Option<TunRackError>,
}

/// The calls of `start_worker` a slot has had, in order.
pub type StartLog = Seq<WorkerStart>;

/// A stage of a rack: something that can start workers, each of which takes
/// packets from `entry_rx`, sends on to `next_tx` and out through `exit_tx`.
pub trait Slot: 'static {
    /// The configuration this slot runs with.
    spec fn config(&self) -> SlotConfig;

    /// The workers this slot has been asked to start, in order. It exists for
    /// proofs alone: no run of the program reads it.
    spec fn started(&self) -> StartLog;

    /// Hands out the slot's configuration.
    fn get_config(&self) -> (config: SlotConfig)
        ensures
            config == self.config(),
    ;

    /// Starts a worker on these ends; the call is added to `started`.
    fn start_worker(
        &mut self,
        entry_rx: RotaryTarget,
        next_tx: RotaryCanon,
        exit_tx: RotaryCanon,
    ) -> (result: Result<SlotWorkerHandle, TunRackError>)
        ensures
            final(self).started() == old(self).started().push(
                (WorkerStart {
                    entry_rx,
                    next_tx,
                    exit_tx,
                    error: match result {
                        Ok(_) => None,
                        Err(e) => Some(e),
                    },
                }),
            ),
    ;
}

} // verus!

use vstd::prelude::*;

use crate::slot::worker::SlotWorkerError;

verus! {

/// An error from `tun` while creating or driving the device.
#[verifier::external_type_specification]
#[verifier::external_body]
pub struct ExTunError(tun::Error);

/// A send on a channel whose receiver is gone; it holds the packet.
#[verifier::external_type_specification]
#[verifier::external_body]
#[verifier::reject_recursive_types(T)]
pub struct ExSendError<T>(tokio::sync::mpsc::error::SendError<T>);

pub type TunRackSendError = tokio::sync::mpsc::error::SendError<tun::TunPacket>;

/// Why a rack could not be built or stopped.
#[derive(Debug)]
pub enum TunRackError {
    TunError(tun::Error),
    TunRackSendError(TunRackSendError),
    TunRackSlotCrash,
    TokioJoinError(tokio::task::JoinError),
    InternalError,
    SlotWorkerError(SlotWorkerError),
    SlotChannelClosed,
    SlotAsyncChannelSendError,
}

impl From<tun::Error> for TunRackError {
    fn from(error: tun::Error) -> (converted: Self) {
        TunRackError::TunError(error)
    }
}

impl vstd::std_specs::convert::FromSpecImpl<tun::Error> for TunRackError {
    open spec fn obeys_from_spec() -> bool {
        true
    }

    open spec fn from_spec(error: tun::Error) -> Self {
        TunRackError::TunError(error)
    }
}

impl From<TunRackSendError> for TunRackError {
    fn from(error: TunRackSendError) -> (converted: Self) {
        TunRackError::TunRackSendError(error)
    }
}

impl vstd::std_specs::convert::FromSpecImpl<TunRackSendError> for TunRackError {
    open spec fn obeys_from_spec() -> bool {
        true
    }

    open spec fn from_spec(error: TunRackSendError) -> Self {
        TunRackError::TunRackSendError(error)
    }
}

impl From<SlotWorkerError> for TunRackError {
    fn from(error: SlotWorkerError) -> (converted: Self) {
        TunRackError::SlotWorkerError(error)
    }
}

impl vstd::std_specs::convert::FromSpecImpl<SlotWorkerError> for TunRackError {
    open spec fn obeys_from_spec() -> bool {
        true
    }

    open spec fn from_spec(error: SlotWorkerError) -> Self {
        TunRackError::SlotWorkerError(error)
    }
}

} // verus!

use vstd::prelude::*;

use crate::error::TunRackError;

verus! {

/// A running slot.
pub struct SlotHandle {
    pub handle: tokio::task::JoinHandle<Result<(), TunRackError>>,
}

} // verus!

use vstd::prelude::*;

verus! {

/// A slot that stands in a layout before its plugin is known.
pub struct DummySlot {}

/// Why a layout could not be turned into slots.
#[derive(Debug)]
pub enum TunRackLayoutError {
    SlotMissing,
}

} // verus!

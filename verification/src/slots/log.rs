use vstd::prelude::*;

verus! {

/// Builds log slots.
pub struct LogSlotBuilder {}

impl LogSlotBuilder {
    pub fn new() -> (builder: Self) {
        Self {}
    }
}

} // verus!

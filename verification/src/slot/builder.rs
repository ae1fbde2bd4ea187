use vstd::prelude::*;

verus! {

/// Something that builds a slot of type `ST`, starting from its default.
pub trait SlotBuilder<ST>: Default {
    fn build(self) -> ST;
}

} // verus!

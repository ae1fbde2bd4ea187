use vstd::prelude::*;

verus! {

/// What a slot makes of a packet it recognises: an event that changes the
/// slot's state, or data that it processes.
pub enum SlotPacket<E, D> {
    Event(E),
    Data(D),
}

} // verus!

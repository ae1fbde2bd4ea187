use vstd::prelude::*;

verus! {

/// What processing one piece of data yields: packets that go on to the next
/// slot, and packets that leave the rack.
pub struct SlotProcessResult {
    pub forward: Vec<tun::TunPacket>,
    pub exit: Vec<tun::TunPacket>,
}

/// Where a packet goes after a slot: on to the next slot, or out of the rack.
#[derive(Debug, Clone, Copy, PartialEq, Eq)]
pub enum Route {
    Next,
    Exit,
}

/// The order in which a runner sends out what processing yielded: every
/// packet that goes on, in order, then every packet that leaves, in order.
pub open spec fn routed(result: SlotProcessResult) -> Seq<(Route, tun::TunPacket)> {
    result.forward@.map_values(|p: tun::TunPacket| (Route::Next, p)) + result.exit@.map_values(
        |p: tun::TunPacket| (Route::Exit, p),
    )
}

impl SlotProcessResult {
    /// The packets to send, with where each goes, in sending order.
    pub fn into_routes(self) -> (routes: Vec<(Route, tun::TunPacket)>)
        ensures
            routes@ == routed(self),
    {
        let ghost whole = self;
        let forward_count = self.forward.len();
        let exit_count = self.exit.len();
        let mut forward = self.forward;
        let mut exit = self.exit;
        let mut routes: Vec<(Route, tun::TunPacket)> = Vec::new();
        let mut i: usize = 0;
        while i < forward_count
            invariant
                i <= forward_count,
                forward_count == whole.forward.len(),
                forward@ == whole.forward@.skip(i as int),
                routes@ == whole.forward@.take(i as int).map_values(
                    |p: tun::TunPacket| (Route::Next, p),
                ),
            decreases forward_count - i,
        {
            let packet = forward.remove(0);
            routes.push((Route::Next, packet));
            proof {
                assert(whole.forward@.take(i + 1) == whole.forward@.take(i as int).push(packet));
                assert(forward@ == whole.forward@.skip(i + 1));
            }
            i += 1;
        }
        proof {
            assert(whole.forward@.take(forward_count as int) == whole.forward@);
        }
        let ghost first = routes@;
        let mut j: usize = 0;
        while j < exit_count
            invariant
                j <= exit_count,
                exit_count == whole.exit.len(),
                exit@ == whole.exit@.skip(j as int),
                routes@ == first + whole.exit@.take(j as int).map_values(
                    |p: tun::TunPacket| (Route::Exit, p),
                ),
            decreases exit_count - j,
        {
            let packet = exit.remove(0);
            routes.push((Route::Exit, packet));
            proof {
                assert(whole.exit@.take(j + 1) == whole.exit@.take(j as int).push(packet));
                assert(exit@ == whole.exit@.skip(j + 1));
            }
            j += 1;
        }
        proof {
            assert(whole.exit@.take(exit_count as int) == whole.exit@);
        }
        routes
    }
}

} // verus!

use vstd::prelude::*;

use crate::rotary::{fire_index, fire_result, is_fire_run, Attempt, RotaryCanon, RotaryCanonError};
use crate::slot::worker::SlotWorkerError;
use crate::slot::{routed, Route, SequentialSlot, SlotPacket, SlotProcessResult};

verus! {

/// What a synchronous slot does with packets. A worker hands each packet to
/// `deserialize`; what the slot does not recognise goes on to the next slot,
/// events go to `handle_event` (whose actions are serialised and leave the
/// rack), and data goes to `process`.
pub trait SyncSlotProcessor: Send + Sync + 'static {
    type Event: Send + Sync;

    type Data: Send + Sync;

    type Action: Send + Sync;

    fn deserialize(
        &self,
        packet: tun::TunPacket,
    ) -> Result<SlotPacket<Self::Event, Self::Data>, tun::TunPacket>;

    fn handle_event(&mut self, event: Self::Event) -> Vec<Self::Action>;

    fn serialize(&self, action: Self::Action) -> tun::TunPacket;

    fn process(&self, data: Self::Data) -> SlotProcessResult;
}

/// How many of the runs ended with the packet dropped.
pub open spec fn dropped_in(runs: Seq<Seq<Attempt>>) -> nat
    decreases runs.len(),
{
    if runs.len() == 0 {
        0
    } else {
        dropped_in(runs.drop_last()) + if runs.last().last() is Full {
            1nat
        } else {
            0nat
        }
    }
}

/// `runs` are the fire runs of a sequence of `count` packets fired one after
/// the other into `len` channels, that came to `fired`: each run is a run of
/// `fire`; on `Ok(dropped)` every packet was fired, none found a closed
/// channel, and `dropped` of them found every channel full; on `Err` the last
/// run found a closed channel, and firing stopped there.
pub open spec fn fired_in_turn(
    len: nat,
    count: nat,
    runs: Seq<Seq<Attempt>>,
    fired: Result<usize, SlotWorkerError>,
) -> bool {
    &&& runs.len() <= count
    &&& forall|i: int| #![trigger runs[i]] 0 <= i < runs.len() ==> is_fire_run(len, runs[i])
    &&& forall|i: int|
        #![trigger runs[i]]
        0 <= i < runs.len() - 1 ==> fire_result(runs[i]) is Ok
    &&& match fired {
        Ok(dropped) => runs.len() == count && (runs.len() == 0 || fire_result(runs.last()) is Ok)
            && dropped == dropped_in(runs),
        Err(e) => runs.len() >= 1 && fire_result(runs.last()) is Err && e
            == SlotWorkerError::RotaryCannonError(RotaryCanonError::ChannelClosed),
    }
}

/// `packets` were fired into `before`, one after the other and in order,
/// leaving it as `after`, and came to `fired` (see `fired_in_turn`): the canon
/// keeps its channels, and the packets handed to it are those of `packets` up
/// to the one whose run ended the firing, all of them on success.
pub open spec fn fired_all(
    before: RotaryCanon,
    after: RotaryCanon,
    packets: Seq<tun::TunPacket>,
    fired: Result<usize, SlotWorkerError>,
) -> bool {
    &&& after.senders() == before.senders()
    &&& exists|runs: Seq<Seq<Attempt>>|
        {
            &&& fired_in_turn(before.senders().len(), packets.len() as nat, runs, fired)
            &&& after.fired_packets() == before.fired_packets() + packets.take(runs.len() as int)
        }
}

/// Fires `packets` into `canon` one after the other, in order. Stops at the
/// first packet that finds a closed channel, with that error; otherwise
/// yields how many packets were dropped because every channel was full.
pub fn fire_all(packets: Vec<tun::TunPacket>, canon: &mut RotaryCanon) -> (fired: Result<usize, SlotWorkerError>)
    ensures
        fired_all(*old(canon), *final(canon), packets@, fired),
{
    let count = packets.len();
    let mut queue = packets;
    let mut dropped: usize = 0;
    let ghost mut runs: Seq<Seq<Attempt>> = Seq::empty();
    let ghost len = canon.senders().len();
    let mut i: usize = 0;
    while i < count
        invariant
            i <= count,
            queue.len() == count - i,
            queue@ == packets@.skip(i as int),
            count == packets.len(),
            len == old(canon).senders().len(),
            canon.senders() == old(canon).senders(),
            len == canon.senders().len(),
            canon.fired_packets() == old(canon).fired_packets() + packets@.take(i as int),
            runs.len() == i,
            dropped == dropped_in(runs),
            dropped <= i,
            forall|j: int| #![trigger runs[j]] 0 <= j < runs.len() ==> is_fire_run(len, runs[j]),
            forall|j: int| #![trigger runs[j]] 0 <= j < runs.len() ==> fire_result(runs[j]) is Ok,
        decreases count - i,
    {
        let packet = queue.remove(0);
        let ghost runs_before = runs;
        let outcome = canon.fire(packet);
        proof {
            let run = choose|run: Seq<Attempt>|
                #![trigger is_fire_run(len, run)]
                is_fire_run(len, run) && fire_result(run) == outcome;
            runs = runs.push(run);
            assert(runs.drop_last() == runs_before);
            assert(packets@.take(i + 1) == packets@.take(i as int).push(packet));
            assert(queue@ =~= packets@.skip(i + 1));
        }
        match count_fired(dropped, outcome) {
            Ok(now) => {
                dropped = now;
            },
            Err(error) => {
                proof {
                    assert(fired_in_turn(len, count as nat, runs, Err(error)));
                }
                return Err(error);
            },
        }
        i += 1;
    }
    proof {
        assert(fired_in_turn(len, count as nat, runs, Ok(dropped)));
        assert(packets@.take(count as int) == packets@);
    }
    Ok(dropped)
}

/// The tally of a worker after one fire that came to `fired`, with `dropped`
/// packets dropped before it: a packet taken leaves it, one dropped because
/// every channel was full adds one and the worker goes on, and a closed
/// channel stops the worker with that error.
pub fn count_fired(dropped: usize, fired: Result<bool, RotaryCanonError>) -> (tally: Result<usize, SlotWorkerError>)
    requires
        dropped < usize::MAX,
    ensures
        tally == (match fired {
            Ok(true) => Ok(dropped),
            Ok(false) => Ok((dropped + 1) as usize),
            Err(e) => Err(SlotWorkerError::RotaryCannonError(e)),
        }),
{
    match fired {
        Ok(true) => Ok(dropped),
        Ok(false) => Ok(dropped + 1),
        Err(e) => Err(SlotWorkerError::from(e)),
    }
}

/// The drop counts of a step that processed data, or its error.
pub open spec fn processed_counts<E>(dispatched: Result<Dispatched<E>, SlotWorkerError>) -> Result<(usize, usize), SlotWorkerError> {
    match dispatched {
        Ok(Dispatched::Processed { forward_dropped, exit_dropped }) => Ok((forward_dropped, exit_dropped)),
        Ok(_) => Err(SlotWorkerError::SlotCrash),
        Err(e) => Err(e),
    }
}

/// What a worker did with one packet it took in.
pub enum Dispatched<E> {
    /// The slot did not recognise the packet; it was fired on to the next
    /// slot, or dropped when every channel there was full.
    Passed { dropped: bool },
    /// The packet was data; its results were fired on, and these many of
    /// them dropped.
    Processed { forward_dropped: usize, exit_dropped: usize },
    /// The packet was an event, which changes the slot: the worker hands it to
    /// `handle_event` and then `emit_actions`.
    Event(E),
}

/// One step of a synchronous slot's worker, on a packet it took in.
pub fn dispatch<SP: SyncSlotProcessor>(
    processor: &SP,
    packet: tun::TunPacket,
    next_tx: &mut RotaryCanon,
    exit_tx: &mut RotaryCanon,
) -> (dispatched: Result<Dispatched<SP::Event>, SlotWorkerError>)
    ensures
        final(next_tx).senders() == old(next_tx).senders(),
        final(exit_tx).senders() == old(exit_tx).senders(),
        dispatched matches Ok(Dispatched::Event(_)) ==> *final(next_tx) == *old(next_tx)
            && *final(exit_tx) == *old(exit_tx),
        dispatched matches Ok(Dispatched::Event(event)) ==> call_ensures(
            SP::deserialize,
            (processor, packet),
            Ok::<SlotPacket<SP::Event, SP::Data>, tun::TunPacket>(SlotPacket::Event(event)),
        ),
        dispatched matches Ok(Dispatched::Passed { .. }) ==> exists|passed: tun::TunPacket|
            final(next_tx).fired_packets() == old(next_tx).fired_packets().push(passed),
        dispatched matches Ok(Dispatched::Passed { .. }) ==> exists|passed: tun::TunPacket|
            {
                &&& call_ensures(
                    SP::deserialize,
                    (processor, packet),
                    Err::<SlotPacket<SP::Event, SP::Data>, tun::TunPacket>(passed),
                )
                &&& final(next_tx).fired_packets() == old(next_tx).fired_packets().push(passed)
            },
        dispatched matches Ok(Dispatched::Passed { dropped }) ==> *final(exit_tx) == *old(exit_tx)
            && exists|run: Seq<Attempt>|
                #![trigger is_fire_run(old(next_tx).senders().len(), run)]
                is_fire_run(old(next_tx).senders().len(), run) && fire_result(run) == Ok::<
                    bool,
                    RotaryCanonError,
                >(!dropped) && final(next_tx).position() == fire_index(
                    old(next_tx).position(),
                    old(next_tx).senders().len(),
                    run,
                ),
        dispatched matches Ok(Dispatched::Processed { .. }) ==> exists|
            data: SP::Data,
            result: SlotProcessResult,
        |
            call_ensures(
                SP::deserialize,
                (processor, packet),
                Ok::<SlotPacket<SP::Event, SP::Data>, tun::TunPacket>(SlotPacket::Data(data)),
            ) && call_ensures(SP::process, (processor, data), result) && routed_out(
                result,
                *old(next_tx),
                *old(exit_tx),
                *final(next_tx),
                *final(exit_tx),
                processed_counts(dispatched),
            ),
        dispatched matches Err(e) ==> e == SlotWorkerError::RotaryCannonError(
            RotaryCanonError::ChannelClosed,
        ),
{
    let deserialized = processor.deserialize(packet);
    route_deserialized(processor, deserialized, next_tx, exit_tx)
}

/// One step of a synchronous slot's worker, once the slot has read the packet
/// (`deserialized`): a packet the slot did not recognise is fired on to the
/// next slot; an event is handed back, with both canons untouched; data is
/// processed, and its results are fired on and out, in order.
pub fn route_deserialized<SP: SyncSlotProcessor>(
    processor: &SP,
    deserialized: Result<SlotPacket<SP::Event, SP::Data>, tun::TunPacket>,
    next_tx: &mut RotaryCanon,
    exit_tx: &mut RotaryCanon,
) -> (dispatched: Result<Dispatched<SP::Event>, SlotWorkerError>)
    ensures
        final(next_tx).senders() == old(next_tx).senders(),
        final(exit_tx).senders() == old(exit_tx).senders(),
        match deserialized {
            Err(packet) => {
                &&& *final(exit_tx) == *old(exit_tx)
                &&& final(next_tx).fired_packets() == old(next_tx).fired_packets().push(packet)
                &&& exists|run: Seq<Attempt>|
                    #![trigger is_fire_run(old(next_tx).senders().len(), run)]
                    {
                        &&& is_fire_run(old(next_tx).senders().len(), run)
                        &&& final(next_tx).position() == fire_index(
                            old(next_tx).position(),
                            old(next_tx).senders().len(),
                            run,
                        )
                        &&& match dispatched {
                            Ok(Dispatched::Passed { dropped }) => fire_result(run) == Ok::<
                                bool,
                                RotaryCanonError,
                            >(!dropped),
                            Err(e) => fire_result(run) is Err && e
                                == SlotWorkerError::RotaryCannonError(
                                RotaryCanonError::ChannelClosed,
                            ),
                            _ => false,
                        }
                    }
            },
            Ok(SlotPacket::Event(event)) => {
                &&& dispatched == Ok::<Dispatched<SP::Event>, SlotWorkerError>(
                    Dispatched::Event(event),
                )
                &&& *final(next_tx) == *old(next_tx)
                &&& *final(exit_tx) == *old(exit_tx)
            },
            Ok(SlotPacket::Data(data)) => {
                &&& !(dispatched matches Ok(Dispatched::Passed { .. }))
                &&& !(dispatched matches Ok(Dispatched::Event(_)))
                &&& exists|result: SlotProcessResult|
                    call_ensures(SP::process, (processor, data), result) && routed_out(
                        result,
                        *old(next_tx),
                        *old(exit_tx),
                        *final(next_tx),
                        *final(exit_tx),
                        processed_counts(dispatched),
                    )
            },
        },
{
    match deserialized {
        Err(packet) => {
            match next_tx.fire(packet) {
                Ok(fired) => Ok(Dispatched::Passed { dropped: !fired }),
                Err(e) => Err(SlotWorkerError::from(e)),
            }
        },
        Ok(SlotPacket::Event(event)) => Ok(Dispatched::Event(event)),
        Ok(SlotPacket::Data(data)) => {
            let result = processor.process(data);
            let ghost whole = result;
            match route_processed(result, next_tx, exit_tx) {
                Ok((forward_dropped, exit_dropped)) => {
                    let dispatched = Ok(Dispatched::Processed { forward_dropped, exit_dropped });
                    assert(routed_out(
                        whole,
                        *old(next_tx),
                        *old(exit_tx),
                        *next_tx,
                        *exit_tx,
                        processed_counts(dispatched),
                    ));
                    dispatched
                },
                Err(e) => {
                    let dispatched = Err(e);
                    assert(routed_out(
                        whole,
                        *old(next_tx),
                        *old(exit_tx),
                        *next_tx,
                        *exit_tx,
                        processed_counts::<SP::Event>(dispatched),
                    ));
                    dispatched
                },
            }
        },
    }
}

/// `result` went out as `route_processed` sends it, from canons `next` and
/// `exit` to `next_after` and `exit_after`: every forward packet, in order,
/// into `next`, then every exit packet, in order, into `exit`; a closed
/// channel stops it there. On success, how many of each were dropped.
pub open spec fn routed_out(
    result: SlotProcessResult,
    next: RotaryCanon,
    exit: RotaryCanon,
    next_after: RotaryCanon,
    exit_after: RotaryCanon,
    fired: Result<(usize, usize), SlotWorkerError>,
) -> bool {
    match fired {
        Ok((forward_dropped, exit_dropped)) => {
            &&& fired_all(next, next_after, result.forward@, Ok(forward_dropped))
            &&& fired_all(exit, exit_after, result.exit@, Ok(exit_dropped))
        },
        Err(e) => {
            ||| fired_all(next, next_after, result.forward@, Err(e)) && exit_after == exit
            ||| (exists|forward_dropped: usize|
                fired_all(next, next_after, result.forward@, Ok(forward_dropped)))
                && fired_all(exit, exit_after, result.exit@, Err(e))
        },
    }
}

/// What processing yielded goes out: every forward packet, in order, into
/// `next_tx`, then every exit packet, in order, into `exit_tx`; a closed
/// channel stops it there. On success, how many of each were dropped.
pub fn route_processed(
    result: SlotProcessResult,
    next_tx: &mut RotaryCanon,
    exit_tx: &mut RotaryCanon,
) -> (fired: Result<(usize, usize), SlotWorkerError>)
    ensures
        routed_out(result, *old(next_tx), *old(exit_tx), *final(next_tx), *final(exit_tx), fired),
{
    let ghost forwards = result.forward@;
    let ghost exits = result.exit@;
    let forward_dropped = match fire_all(result.forward, next_tx) {
        Ok(d) => d,
        Err(e) => {
            return Err(e);
        },
    };
    let ghost next_after = *next_tx;
    assert(fired_all(*old(next_tx), next_after, forwards, Ok(forward_dropped)));
    match fire_all(result.exit, exit_tx) {
        Ok(exit_dropped) => Ok((forward_dropped, exit_dropped)),
        Err(e) => {
            assert(fired_all(*old(exit_tx), *exit_tx, exits, Err(e)));
            Err(e)
        },
    }
}

/// The second half of an event's step: serialises each action in order and
/// fires it out of the rack, one after the other; stops at a closed channel
/// (the actions after it are neither serialised nor fired); otherwise yields
/// how many were dropped.
pub fn emit_actions<SP: SyncSlotProcessor>(
    processor: &SP,
    actions: Vec<SP::Action>,
    exit_tx: &mut RotaryCanon,
) -> (fired: Result<usize, SlotWorkerError>)
    ensures
        final(exit_tx).senders() == old(exit_tx).senders(),
        exists|runs: Seq<Seq<Attempt>>|
            {
                &&& fired_in_turn(old(exit_tx).senders().len(), actions.len() as nat, runs, fired)
                &&& final(exit_tx).fired_packets().len() == old(exit_tx).fired_packets().len()
                    + runs.len()
            },
        final(exit_tx).fired_packets().subrange(0, old(exit_tx).fired_packets().len() as int)
            == old(exit_tx).fired_packets(),
        forall|i: int|
            0 <= i < final(exit_tx).fired_packets().len() - old(exit_tx).fired_packets().len()
                ==> call_ensures(
                SP::serialize,
                (processor, actions@[i]),
                final(exit_tx).fired_packets()[old(exit_tx).fired_packets().len() + i],
            ),
{
    let count = actions.len();
    let mut queue = actions;
    let mut dropped: usize = 0;
    let ghost mut runs: Seq<Seq<Attempt>> = Seq::empty();
    let ghost len = exit_tx.senders().len();
    let mut i: usize = 0;
    while i < count
        invariant
            i <= count,
            queue.len() == count - i,
            count == actions.len(),
            len == old(exit_tx).senders().len(),
            exit_tx.senders() == old(exit_tx).senders(),
            exit_tx.fired_packets().len() == old(exit_tx).fired_packets().len() + i,
            exit_tx.fired_packets().subrange(0, old(exit_tx).fired_packets().len() as int)
                == old(exit_tx).fired_packets(),
            queue@ == actions@.skip(i as int),
            forall|j: int|
                0 <= j < i ==> call_ensures(
                    SP::serialize,
                    (processor, actions@[j]),
                    exit_tx.fired_packets()[old(exit_tx).fired_packets().len() + j],
                ),
            runs.len() == i,
            dropped == dropped_in(runs),
            dropped <= i,
            forall|j: int| #![trigger runs[j]] 0 <= j < runs.len() ==> is_fire_run(len, runs[j]),
            forall|j: int| #![trigger runs[j]] 0 <= j < runs.len() ==> fire_result(runs[j]) is Ok,
        decreases count - i,
    {
        let action = queue.remove(0);
        let packet = processor.serialize(action);
        let ghost runs_before = runs;
        let ghost handed = exit_tx.fired_packets();
        let outcome = exit_tx.fire(packet);
        proof {
            assert(queue@ =~= actions@.skip(i + 1));
            assert forall|j: int|
                0 <= j < i + 1 implies call_ensures(
                    SP::serialize,
                    (processor, actions@[j]),
                    exit_tx.fired_packets()[old(exit_tx).fired_packets().len() + j],
                ) by {
                if j < i {
                    assert(exit_tx.fired_packets()[old(exit_tx).fired_packets().len() + j]
                        == handed[old(exit_tx).fired_packets().len() + j]);
                }
            }
        }
        proof {
            let run = choose|run: Seq<Attempt>|
                #![trigger is_fire_run(len, run)]
                is_fire_run(len, run) && fire_result(run) == outcome;
            runs = runs.push(run);
            assert(runs.drop_last() == runs_before);
        }
        match count_fired(dropped, outcome) {
            Ok(now) => {
                dropped = now;
            },
            Err(error) => {
                proof {
                    assert(fired_in_turn(len, count as nat, runs, Err(error)));
                }
                return Err(error);
            },
        }
        i += 1;
    }
    proof {
        assert(fired_in_turn(len, count as nat, runs, Ok(dropped)));
    }
    Ok(dropped)
}

/// What a runner does once a slot has read a packet: send these routes, in
/// order, or hand this event to the slot.
pub enum RunnerStep<E> {
    Send(Vec<(Route, tun::TunPacket)>),
    Event(E),
}

/// What a runner does after a synchronous slot has read a packet
/// (`deserialized`): a packet the slot did not recognise goes on, alone; an
/// event goes back to the runner, which has the slot handle it and sends its
/// actions out (`serialized_exits`); data is processed, and its results go as
/// `routed` orders them.
pub fn routes_of<S: SyncSlotProcessor>(
    slot: &S,
    deserialized: Result<SlotPacket<S::Event, S::Data>, tun::TunPacket>,
) -> (step: RunnerStep<S::Event>)
    ensures
        match deserialized {
            Err(packet) => step matches RunnerStep::Send(routes) && routes@ == seq![(Route::Next, packet)],
            Ok(SlotPacket::Event(event)) => step == RunnerStep::<S::Event>::Event(event),
            Ok(SlotPacket::Data(data)) => step matches RunnerStep::Send(routes) && exists|result: SlotProcessResult|
                call_ensures(S::process, (slot, data), result) && routes@ == routed(result),
        },
{
    match deserialized {
        Err(packet) => {
            let mut routes = Vec::new();
            routes.push((Route::Next, packet));
            RunnerStep::Send(routes)
        },
        Ok(SlotPacket::Event(event)) => RunnerStep::Event(event),
        Ok(SlotPacket::Data(data)) => {
            let result = slot.process(data);
            let ghost whole = result;
            let routes = result.into_routes();
            proof {
                assert(routes@ == routed(whole));
            }
            RunnerStep::Send(routes)
        },
    }
}

/// The routes of an event's actions: each action serialised, in order, and
/// sent out of the rack.
pub fn serialized_exits<S: SyncSlotProcessor>(slot: &S, actions: Vec<S::Action>) -> (routes: Vec<(Route, tun::TunPacket)>)
    ensures
        routes.len() == actions.len(),
        forall|i: int| #![trigger routes@[i]] 0 <= i < routes.len() ==> routes@[i].0 == Route::Exit,
        forall|i: int|
            #![trigger routes@[i]]
            0 <= i < routes.len() ==> call_ensures(S::serialize, (slot, actions@[i]), routes@[i].1),
{
    let count = actions.len();
    let mut queue = actions;
    let mut routes: Vec<(Route, tun::TunPacket)> = Vec::new();
    let mut i: usize = 0;
    while i < count
        invariant
            i <= count,
            count == actions.len(),
            queue.len() == count - i,
            routes.len() == i,
            queue@ == actions@.skip(i as int),
            forall|j: int| #![trigger routes@[j]] 0 <= j < routes.len() ==> routes@[j].0 == Route::Exit,
            forall|j: int|
                #![trigger routes@[j]]
                0 <= j < routes.len() ==> call_ensures(S::serialize, (slot, actions@[j]), routes@[j].1),
        decreases count - i,
    {
        let action = queue.remove(0);
        let packet = slot.serialize(action);
        routes.push((Route::Exit, packet));
        proof {
            assert(queue@ =~= actions@.skip(i + 1));
        }
        i += 1;
    }
    routes
}

/// `routes_of` for a slot that a sequential runner drives.
pub fn sequential_routes_of<S: SequentialSlot>(
    slot: &S,
    deserialized: Result<SlotPacket<S::Event, S::Data>, tun::TunPacket>,
) -> (step: RunnerStep<S::Event>)
    ensures
        match deserialized {
            Err(packet) => step matches RunnerStep::Send(routes) && routes@ == seq![(Route::Next, packet)],
            Ok(SlotPacket::Event(event)) => step == RunnerStep::<S::Event>::Event(event),
            Ok(SlotPacket::Data(data)) => step matches RunnerStep::Send(routes) && exists|result: SlotProcessResult|
                call_ensures(S::process, (slot, data), result) && routes@ == routed(result),
        },
{
    match deserialized {
        Err(packet) => {
            let mut routes = Vec::new();
            routes.push((Route::Next, packet));
            RunnerStep::Send(routes)
        },
        Ok(SlotPacket::Event(event)) => RunnerStep::Event(event),
        Ok(SlotPacket::Data(data)) => {
            let result = slot.process(data);
            let ghost whole = result;
            let routes = result.into_routes();
            proof {
                assert(routes@ == routed(whole));
            }
            RunnerStep::Send(routes)
        },
    }
}

/// `serialized_exits` for a slot that a sequential runner drives.
pub fn sequential_serialized_exits<S: SequentialSlot>(slot: &S, actions: Vec<S::Action>) -> (routes: Vec<(Route, tun::TunPacket)>)
    ensures
        routes.len() == actions.len(),
        forall|i: int| #![trigger routes@[i]] 0 <= i < routes.len() ==> routes@[i].0 == Route::Exit,
        forall|i: int|
            #![trigger routes@[i]]
            0 <= i < routes.len() ==> call_ensures(S::serialize, (slot, actions@[i]), routes@[i].1),
{
    let count = actions.len();
    let mut queue = actions;
    let mut routes: Vec<(Route, tun::TunPacket)> = Vec::new();
    let mut i: usize = 0;
    while i < count
        invariant
            i <= count,
            count == actions.len(),
            queue.len() == count - i,
            routes.len() == i,
            queue@ == actions@.skip(i as int),
            forall|j: int| #![trigger routes@[j]] 0 <= j < routes.len() ==> routes@[j].0 == Route::Exit,
            forall|j: int|
                #![trigger routes@[j]]
                0 <= j < routes.len() ==> call_ensures(S::serialize, (slot, actions@[j]), routes@[j].1),
        decreases count - i,
    {
        let action = queue.remove(0);
        let packet = slot.serialize(action);
        routes.push((Route::Exit, packet));
        proof {
            assert(queue@ =~= actions@.skip(i + 1));
        }
        i += 1;
    }
    routes
}

/// Law of sending what processing yielded: on success the next canon was
/// handed exactly the forward packets, in order, and the exit canon exactly
/// the exit packets, in order; in any case each was handed the first of its
/// packets, in order, and nothing else.
pub proof fn lemma_routed_out_law(
    result: SlotProcessResult,
    next: RotaryCanon,
    exit: RotaryCanon,
    next_after: RotaryCanon,
    exit_after: RotaryCanon,
    fired: Result<(usize, usize), SlotWorkerError>,
)
    requires
        routed_out(result, next, exit, next_after, exit_after, fired),
    ensures
        fired is Ok ==> {
            &&& next_after.fired_packets() == next.fired_packets() + result.forward@
            &&& exit_after.fired_packets() == exit.fired_packets() + result.exit@
        },
        exists|a: int, b: int|
            {
                &&& 0 <= a <= result.forward.len()
                &&& 0 <= b <= result.exit.len()
                &&& next_after.fired_packets() == next.fired_packets() + result.forward@.take(a)
                &&& exit_after.fired_packets() == exit.fired_packets() + result.exit@.take(b)
            },
{
    lemma_fired_all_prefix(next, next_after, result.forward@);
    match fired {
        Ok((f, e)) => {
            lemma_fired_all_whole(next, next_after, result.forward@, f);
            lemma_fired_all_whole(exit, exit_after, result.exit@, e);
            lemma_fired_all_prefix(exit, exit_after, result.exit@);
        },
        Err(e) => {
            if exit_after == exit && fired_all(next, next_after, result.forward@, Err(e)) {
                assert(exit_after.fired_packets() == exit.fired_packets() + result.exit@.take(0));
            } else {
                lemma_fired_all_prefix(exit, exit_after, result.exit@);
            }
        },
    }
}

/// Firing a list in turn hands the canon a first part of the list.
proof fn lemma_fired_all_prefix(before: RotaryCanon, after: RotaryCanon, packets: Seq<tun::TunPacket>)
    requires
        exists|fired: Result<usize, SlotWorkerError>| fired_all(before, after, packets, fired),
    ensures
        exists|a: int|
            0 <= a <= packets.len() && after.fired_packets() == before.fired_packets() + packets.take(a),
{
    let fired = choose|fired: Result<usize, SlotWorkerError>| fired_all(before, after, packets, fired);
    let runs = choose|runs: Seq<Seq<Attempt>>|
        {
            &&& fired_in_turn(before.senders().len(), packets.len() as nat, runs, fired)
            &&& after.fired_packets() == before.fired_packets() + packets.take(runs.len() as int)
        };
    assert(0 <= runs.len() <= packets.len());
}

/// Firing a list in turn without finding a closed channel hands the canon
/// the whole list.
proof fn lemma_fired_all_whole(before: RotaryCanon, after: RotaryCanon, packets: Seq<tun::TunPacket>, dropped: usize)
    requires
        fired_all(before, after, packets, Ok(dropped)),
    ensures
        after.fired_packets() == before.fired_packets() + packets,
{
    let runs = choose|runs: Seq<Seq<Attempt>>|
        {
            &&& fired_in_turn(before.senders().len(), packets.len() as nat, runs, Ok::<usize, SlotWorkerError>(dropped))
            &&& after.fired_packets() == before.fired_packets() + packets.take(runs.len() as int)
        };
    assert(packets.take(packets.len() as int) =~= packets);
}

/// Law of a synchronous worker's step on data: what it fires on and out is
/// what processing that data gives (a result `process` returns for it): on
/// success, exactly its forward packets in order into the next canon and
/// exactly its exit packets in order into the exit canon.
pub proof fn lemma_data_step_law<SP: SyncSlotProcessor>(
    processor: &SP,
    data: SP::Data,
    next: RotaryCanon,
    exit: RotaryCanon,
    next_after: RotaryCanon,
    exit_after: RotaryCanon,
    dispatched: Result<Dispatched<SP::Event>, SlotWorkerError>,
)
    requires
        dispatched is Ok,
        exists|result: SlotProcessResult|
            call_ensures(SP::process, (processor, data), result) && routed_out(
                result,
                next,
                exit,
                next_after,
                exit_after,
                processed_counts(dispatched),
            ),
    ensures
        exists|result: SlotProcessResult|
            {
                &&& call_ensures(SP::process, (processor, data), result)
                &&& next_after.fired_packets() == next.fired_packets() + result.forward@
                &&& exit_after.fired_packets() == exit.fired_packets() + result.exit@
            },
{
    let result = choose|result: SlotProcessResult|
        call_ensures(SP::process, (processor, data), result) && routed_out(
            result,
            next,
            exit,
            next_after,
            exit_after,
            processed_counts(dispatched),
        );
    lemma_routed_out_law(result, next, exit, next_after, exit_after, processed_counts(dispatched));
    if processed_counts(dispatched) is Err {
        assert(dispatched matches Ok(Dispatched::Processed { .. })) by {
            if !(dispatched matches Ok(Dispatched::Processed { .. })) {
                assert(processed_counts(dispatched) == Err::<(usize, usize), SlotWorkerError>(
                    SlotWorkerError::SlotCrash,
                ));
            }
        }
    }
}

/// Law of routes: the routes of a processing result send every forward
/// packet on, in order, and then every exit packet out, in order, and
/// nothing else.
pub proof fn lemma_routed_law(result: SlotProcessResult)
    ensures
        routed(result).len() == result.forward.len() + result.exit.len(),
        forall|i: int|
            0 <= i < result.forward.len() ==> routed(result)[i] == (Route::Next, result.forward@[i]),
        forall|j: int|
            0 <= j < result.exit.len() ==> routed(result)[result.forward.len() + j] == (
                Route::Exit,
                result.exit@[j],
            ),
{
}

/// Law of `routes_of` on data: it sends exactly what processing the data gives
/// (a result `process` returns for it): every forward packet on, in order,
/// then every exit packet out, in order, and nothing else.
pub proof fn lemma_routes_of_law<S: SyncSlotProcessor>(slot: &S, data: S::Data, routes: Seq<(Route, tun::TunPacket)>)
    requires
        exists|result: SlotProcessResult| call_ensures(S::process, (slot, data), result) && routes == routed(result),
    ensures
        exists|result: SlotProcessResult|
            {
                &&& call_ensures(S::process, (slot, data), result)
                &&& routes.len() == result.forward.len() + result.exit.len()
                &&& forall|i: int|
                    0 <= i < result.forward.len() ==> routes[i] == (Route::Next, result.forward@[i])
                &&& forall|j: int|
                    0 <= j < result.exit.len() ==> routes[result.forward.len() + j] == (
                        Route::Exit,
                        result.exit@[j],
                    )
            },
{
    let result = choose|result: SlotProcessResult|
        call_ensures(S::process, (slot, data), result) && routes == routed(result);
    lemma_routed_law(result);
}

/// Law of `sequential_routes_of` on data: it sends exactly what processing the data gives
/// (a result `process` returns for it): every forward packet on, in order,
/// then every exit packet out, in order, and nothing else.
pub proof fn lemma_sequential_routes_of_law<S: SequentialSlot>(slot: &S, data: S::Data, routes: Seq<(Route, tun::TunPacket)>)
    requires
        exists|result: SlotProcessResult| call_ensures(S::process, (slot, data), result) && routes == routed(result),
    ensures
        exists|result: SlotProcessResult|
            {
                &&& call_ensures(S::process, (slot, data), result)
                &&& routes.len() == result.forward.len() + result.exit.len()
                &&& forall|i: int|
                    0 <= i < result.forward.len() ==> routes[i] == (Route::Next, result.forward@[i])
                &&& forall|j: int|
                    0 <= j < result.exit.len() ==> routes[result.forward.len() + j] == (
                        Route::Exit,
                        result.exit@[j],
                    )
            },
{
    let result = choose|result: SlotProcessResult|
        call_ensures(S::process, (slot, data), result) && routes == routed(result);
    lemma_routed_law(result);
}

} // verus!

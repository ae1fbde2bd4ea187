use argon::rotary::{build_single_channel, RotaryCanon, RotaryCanonError};
use argon::slot::sync::{
    count_fired, dispatch, emit_actions, fire_all, route_deserialized, route_processed, routes_of, sequential_routes_of, sequential_serialized_exits, serialized_exits,
    Dispatched, RunnerStep, SyncSlotProcessor,
};
use argon::slot::worker::SlotWorkerError;
use argon::slot::{Route, SequentialSlot, SlotConfig, SlotPacket, SlotProcessResult};
use nonempty::NonEmpty;

fn packet(byte: u8) -> tun::TunPacket {
    tun::TunPacket::new(vec![0x45, byte])
}

#[test]
fn slot_config_defaults_to_one_worker_named_slot() {
    let config = SlotConfig::default();
    assert_eq!(config.workers, 1);
    assert_eq!(config.name, "slot");
}

#[test]
fn slot_config_setters_change_one_field() {
    let config = SlotConfig::default().set_workers(4);
    assert_eq!(config.workers, 4);
    assert_eq!(config.name, "slot");
    let config = config.set_name("ping".to_string());
    assert_eq!(config.workers, 4);
    assert_eq!(config.name, "ping");
}

#[test]
fn routes_send_forwards_before_exits() {
    let result = SlotProcessResult { forward: vec![packet(1), packet(2)], exit: vec![packet(3)] };
    let routes: Vec<(Route, u8)> =
        result.into_routes().into_iter().map(|(r, p)| (r, p.get_bytes()[1])).collect();
    assert_eq!(routes, vec![(Route::Next, 1), (Route::Next, 2), (Route::Exit, 3)]);
    let empty = SlotProcessResult { forward: vec![], exit: vec![] };
    assert!(empty.into_routes().is_empty());
}

#[test]
fn fire_all_counts_drops() {
    let (tx, mut rx) = build_single_channel(2);
    let mut canon = RotaryCanon::new(NonEmpty::new(tx));
    let dropped = fire_all(vec![packet(1), packet(2), packet(3), packet(4)], &mut canon).unwrap();
    assert_eq!(dropped, 2);
    assert_eq!(rx.try_recv().unwrap().get_bytes()[1], 1);
    assert_eq!(rx.try_recv().unwrap().get_bytes()[1], 2);
    assert!(rx.try_recv().is_err());
}

#[test]
fn fire_all_stops_at_a_closed_channel() {
    let (tx, rx) = build_single_channel(2);
    let mut canon = RotaryCanon::new(NonEmpty::new(tx));
    drop(rx);
    assert!(matches!(
        fire_all(vec![packet(1)], &mut canon),
        Err(SlotWorkerError::RotaryCannonError(RotaryCanonError::ChannelClosed))
    ));
    assert_eq!(fire_all(vec![], &mut canon).unwrap(), 0);
}

/// Packets whose second byte is 0 are events (counted), 1 is data (sent on
/// twice and out once); anything else is not recognised.
struct Counter {
    events: usize,
}

impl SyncSlotProcessor for Counter {
    type Event = u8;
    type Data = u8;
    type Action = u8;

    fn deserialize(&self, packet: tun::TunPacket) -> Result<SlotPacket<u8, u8>, tun::TunPacket> {
        match packet.get_bytes()[1] {
            0 => Ok(SlotPacket::Event(0)),
            1 => Ok(SlotPacket::Data(1)),
            _ => Err(packet),
        }
    }

    fn handle_event(&mut self, event: u8) -> Vec<u8> {
        self.events += 1;
        vec![event + 10, event + 20]
    }

    fn serialize(&self, action: u8) -> tun::TunPacket {
        packet(action)
    }

    fn process(&self, data: u8) -> SlotProcessResult {
        SlotProcessResult { forward: vec![packet(data), packet(data)], exit: vec![packet(data + 100)] }
    }
}

#[test]
fn dispatch_routes_each_kind_of_packet() {
    let (next, mut next_rx) = build_single_channel(8);
    let (exit, mut exit_rx) = build_single_channel(8);
    let mut next_tx = RotaryCanon::new(NonEmpty::new(next));
    let mut exit_tx = RotaryCanon::new(NonEmpty::new(exit));
    let mut counter = Counter { events: 0 };

    match dispatch(&counter, packet(5), &mut next_tx, &mut exit_tx).unwrap() {
        Dispatched::Passed { dropped } => assert!(!dropped),
        _ => panic!("expected a pass"),
    }
    assert_eq!(next_rx.try_recv().unwrap().get_bytes()[1], 5);

    match dispatch(&counter, packet(1), &mut next_tx, &mut exit_tx).unwrap() {
        Dispatched::Processed { forward_dropped, exit_dropped } => {
            assert_eq!((forward_dropped, exit_dropped), (0, 0))
        },
        _ => panic!("expected processing"),
    }
    assert_eq!(next_rx.try_recv().unwrap().get_bytes()[1], 1);
    assert_eq!(next_rx.try_recv().unwrap().get_bytes()[1], 1);
    assert_eq!(exit_rx.try_recv().unwrap().get_bytes()[1], 101);

    match dispatch(&counter, packet(0), &mut next_tx, &mut exit_tx).unwrap() {
        Dispatched::Event(event) => {
            let actions = counter.handle_event(event);
            assert_eq!(emit_actions(&counter, actions, &mut exit_tx).unwrap(), 0);
        },
        _ => panic!("expected an event"),
    }
    assert_eq!(counter.events, 1);
    assert_eq!(exit_rx.try_recv().unwrap().get_bytes()[1], 10);
    assert_eq!(exit_rx.try_recv().unwrap().get_bytes()[1], 20);
    assert!(next_rx.try_recv().is_err());
}

#[test]
fn dispatch_reports_drops_and_closed_channels() {
    let (next, _next_rx) = build_single_channel(1);
    let (exit, exit_rx) = build_single_channel(1);
    let mut next_tx = RotaryCanon::new(NonEmpty::new(next));
    let mut exit_tx = RotaryCanon::new(NonEmpty::new(exit));
    let counter = Counter { events: 0 };

    // Data: two forwards into a channel with room for one.
    match dispatch(&counter, packet(1), &mut next_tx, &mut exit_tx).unwrap() {
        Dispatched::Processed { forward_dropped, exit_dropped } => {
            assert_eq!((forward_dropped, exit_dropped), (1, 0))
        },
        _ => panic!("expected processing"),
    }
    // Not recognised, and the next channel is still full.
    match dispatch(&counter, packet(5), &mut next_tx, &mut exit_tx).unwrap() {
        Dispatched::Passed { dropped } => assert!(dropped),
        _ => panic!("expected a pass"),
    }
    // The exit channel's receiver is gone.
    drop(exit_rx);
    let actions = vec![1u8, 2u8];
    assert!(matches!(
        emit_actions(&counter, actions, &mut exit_tx),
        Err(SlotWorkerError::RotaryCannonError(RotaryCanonError::ChannelClosed))
    ));
}

#[test]
fn route_deserialized_follows_the_slots_reading() {
    let (next, mut next_rx) = build_single_channel(4);
    let (exit, mut exit_rx) = build_single_channel(4);
    let mut next_tx = RotaryCanon::new(NonEmpty::new(next));
    let mut exit_tx = RotaryCanon::new(NonEmpty::new(exit));
    let counter = Counter { events: 0 };

    match route_deserialized(&counter, Err(packet(9)), &mut next_tx, &mut exit_tx).unwrap() {
        Dispatched::Passed { dropped } => assert!(!dropped),
        _ => panic!("expected a pass"),
    }
    assert_eq!(next_rx.try_recv().unwrap().get_bytes()[1], 9);

    match route_deserialized(&counter, Ok(SlotPacket::Event(3)), &mut next_tx, &mut exit_tx).unwrap() {
        Dispatched::Event(e) => assert_eq!(e, 3),
        _ => panic!("expected an event"),
    }
    assert!(next_rx.try_recv().is_err());
    assert!(exit_rx.try_recv().is_err());

    match route_deserialized(&counter, Ok(SlotPacket::Data(2)), &mut next_tx, &mut exit_tx).unwrap() {
        Dispatched::Processed { forward_dropped, exit_dropped } => {
            assert_eq!((forward_dropped, exit_dropped), (0, 0))
        },
        _ => panic!("expected processing"),
    }
    assert_eq!(next_rx.try_recv().unwrap().get_bytes()[1], 2);
    assert_eq!(next_rx.try_recv().unwrap().get_bytes()[1], 2);
    assert_eq!(exit_rx.try_recv().unwrap().get_bytes()[1], 102);
}

/// The same reading, for a sequential runner.
struct SequentialCounter(Counter);

impl SequentialSlot for SequentialCounter {
    type Event = u8;
    type Data = u8;
    type Action = u8;

    fn deserialize(&self, packet: tun::TunPacket) -> Result<SlotPacket<u8, u8>, tun::TunPacket> {
        self.0.deserialize(packet)
    }

    fn handle_event(&mut self, event: u8) -> Vec<u8> {
        self.0.handle_event(event)
    }

    fn serialize(&self, action: u8) -> tun::TunPacket {
        self.0.serialize(action)
    }

    fn process(&self, data: u8) -> SlotProcessResult {
        self.0.process(data)
    }
}

fn route_bytes(routes: Vec<(Route, tun::TunPacket)>) -> Vec<(Route, u8)> {
    routes.into_iter().map(|(route, packet)| (route, packet.get_bytes()[1])).collect()
}

fn sent<E>(step: RunnerStep<E>) -> Vec<(Route, u8)> {
    match step {
        RunnerStep::Send(routes) => route_bytes(routes),
        RunnerStep::Event(_) => panic!("expected routes"),
    }
}

#[test]
fn route_processed_sends_forwards_on_and_exits_out() {
    let (next, mut next_rx) = build_single_channel(1);
    let (exit, mut exit_rx) = build_single_channel(4);
    let mut next_tx = RotaryCanon::new(NonEmpty::new(next));
    let mut exit_tx = RotaryCanon::new(NonEmpty::new(exit));
    let result = SlotProcessResult {
        forward: vec![packet(1), packet(2), packet(3)],
        exit: vec![packet(7), packet(8)],
    };
    assert_eq!(route_processed(result, &mut next_tx, &mut exit_tx).unwrap(), (2, 0));
    assert_eq!(next_rx.try_recv().unwrap().get_bytes()[1], 1);
    assert!(next_rx.try_recv().is_err());
    assert_eq!(exit_rx.try_recv().unwrap().get_bytes()[1], 7);
    assert_eq!(exit_rx.try_recv().unwrap().get_bytes()[1], 8);
    assert!(exit_rx.try_recv().is_err());
}

#[test]
fn route_processed_stops_at_a_closed_next_channel() {
    let (next, next_rx) = build_single_channel(4);
    let (exit, mut exit_rx) = build_single_channel(4);
    drop(next_rx);
    let mut next_tx = RotaryCanon::new(NonEmpty::new(next));
    let mut exit_tx = RotaryCanon::new(NonEmpty::new(exit));
    let result = SlotProcessResult { forward: vec![packet(1)], exit: vec![packet(7)] };
    assert!(matches!(
        route_processed(result, &mut next_tx, &mut exit_tx),
        Err(SlotWorkerError::RotaryCannonError(RotaryCanonError::ChannelClosed))
    ));
    assert!(exit_rx.try_recv().is_err());
}

#[test]
fn emit_actions_serialises_in_order_and_counts_drops() {
    let (exit, mut exit_rx) = build_single_channel(1);
    let mut exit_tx = RotaryCanon::new(NonEmpty::new(exit));
    let counter = Counter { events: 0 };
    assert_eq!(emit_actions(&counter, vec![3u8, 4u8, 5u8], &mut exit_tx).unwrap(), 2);
    assert_eq!(exit_rx.try_recv().unwrap().get_bytes()[1], 3);
    assert!(exit_rx.try_recv().is_err());
}

#[test]
fn routes_of_follows_each_reading() {
    let mut counter = Counter { events: 0 };
    assert_eq!(sent(routes_of(&counter, Err(packet(9)))), vec![(Route::Next, 9)]);
    match routes_of(&counter, Ok(SlotPacket::Event(0))) {
        RunnerStep::Event(event) => {
            let actions = counter.handle_event(event);
            assert_eq!(
                route_bytes(serialized_exits(&counter, actions)),
                vec![(Route::Exit, 10), (Route::Exit, 20)]
            );
        },
        RunnerStep::Send(_) => panic!("expected the event back"),
    }
    assert_eq!(counter.events, 1);
    assert_eq!(
        sent(routes_of(&counter, Ok(SlotPacket::Data(1)))),
        vec![(Route::Next, 1), (Route::Next, 1), (Route::Exit, 101)]
    );
}

#[test]
fn sequential_routes_of_follows_each_reading() {
    let mut counter = SequentialCounter(Counter { events: 0 });
    assert_eq!(sent(sequential_routes_of(&counter, Err(packet(9)))), vec![(Route::Next, 9)]);
    match sequential_routes_of(&counter, Ok(SlotPacket::Event(1))) {
        RunnerStep::Event(event) => {
            let actions = SequentialSlot::handle_event(&mut counter, event);
            assert_eq!(
                route_bytes(sequential_serialized_exits(&counter, actions)),
                vec![(Route::Exit, 11), (Route::Exit, 21)]
            );
        },
        RunnerStep::Send(_) => panic!("expected the event back"),
    }
    assert_eq!(
        sent(sequential_routes_of(&counter, Ok(SlotPacket::Data(2)))),
        vec![(Route::Next, 2), (Route::Next, 2), (Route::Exit, 102)]
    );
}

#[test]
fn count_fired_tallies_each_outcome() {
    assert_eq!(count_fired(2, Ok(true)).unwrap(), 2);
    assert_eq!(count_fired(2, Ok(false)).unwrap(), 3);
    assert!(matches!(
        count_fired(2, Err(RotaryCanonError::ChannelClosed)),
        Err(SlotWorkerError::RotaryCannonError(RotaryCanonError::ChannelClosed))
    ));
}

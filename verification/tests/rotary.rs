use argon::rotary::{build_single_channel, fire_step, poll_step, Attempt, RotaryCanon, RotaryCanonError, RotaryTarget};
use argon::task::Polled;
use nonempty::NonEmpty;

fn packet(byte: u8) -> tun::TunPacket {
    tun::TunPacket::new(vec![0x45, byte])
}

fn noop_context() -> std::task::Context<'static> {
    std::task::Context::from_waker(futures::task::noop_waker_ref())
}

#[test]
fn fire_stays_on_a_channel_with_room() {
    let (tx0, mut rx0) = build_single_channel(2);
    let (tx1, mut rx1) = build_single_channel(2);
    let mut canon = RotaryCanon::new(NonEmpty::from_vec(vec![tx0, tx1]).unwrap());
    assert!(canon.fire(packet(1)).unwrap());
    assert!(canon.fire(packet(2)).unwrap());
    assert_eq!(rx0.try_recv().unwrap().get_bytes(), &[0x45, 1]);
    assert_eq!(rx0.try_recv().unwrap().get_bytes(), &[0x45, 2]);
    assert!(rx1.try_recv().is_err());
}

#[test]
fn fire_moves_on_from_a_full_channel() {
    let (tx0, mut rx0) = build_single_channel(1);
    let (tx1, mut rx1) = build_single_channel(1);
    let mut canon = RotaryCanon::new(NonEmpty::from_vec(vec![tx0, tx1]).unwrap());
    assert!(canon.fire(packet(1)).unwrap());
    assert!(canon.fire(packet(2)).unwrap());
    assert_eq!(rx0.try_recv().unwrap().get_bytes(), &[0x45, 1]);
    assert_eq!(rx1.try_recv().unwrap().get_bytes(), &[0x45, 2]);
    // The canon stayed on channel 1, which has room again.
    assert!(canon.fire(packet(3)).unwrap());
    assert_eq!(rx1.try_recv().unwrap().get_bytes(), &[0x45, 3]);
    assert!(rx0.try_recv().is_err());
}

#[test]
fn fire_drops_when_every_channel_is_full() {
    let (tx0, mut rx0) = build_single_channel(1);
    let (tx1, mut rx1) = build_single_channel(1);
    let mut canon = RotaryCanon::new(NonEmpty::from_vec(vec![tx0, tx1]).unwrap());
    assert!(canon.fire(packet(1)).unwrap());
    assert!(canon.fire(packet(2)).unwrap());
    assert!(!canon.fire(packet(3)).unwrap());
    // Back where it was before the drop: channel 1.
    assert_eq!(rx1.try_recv().unwrap().get_bytes(), &[0x45, 2]);
    assert!(canon.fire(packet(4)).unwrap());
    assert_eq!(rx1.try_recv().unwrap().get_bytes(), &[0x45, 4]);
    assert_eq!(rx0.try_recv().unwrap().get_bytes(), &[0x45, 1]);
}

#[test]
fn fire_fails_on_a_closed_channel() {
    let (tx0, rx0) = build_single_channel(1);
    let mut canon = RotaryCanon::new(NonEmpty::new(tx0));
    drop(rx0);
    assert!(matches!(canon.fire(packet(1)), Err(RotaryCanonError::ChannelClosed)));
}

#[test]
fn fire_single_full_channel_drops() {
    let (tx0, _rx0) = build_single_channel(1);
    let mut canon = RotaryCanon::new(NonEmpty::new(tx0));
    assert!(canon.fire(packet(1)).unwrap());
    assert!(!canon.fire(packet(2)).unwrap());
}

#[test]
fn cloned_canon_fires_into_the_same_channels() {
    let (tx0, mut rx0) = build_single_channel(4);
    let canon = RotaryCanon::new(NonEmpty::new(tx0));
    let mut copy = canon.clone();
    assert!(copy.fire(packet(9)).unwrap());
    assert_eq!(rx0.try_recv().unwrap().get_bytes(), &[0x45, 9]);
}

#[test]
fn target_takes_in_turn() {
    let (tx0, rx0) = build_single_channel(4);
    let (tx1, rx1) = build_single_channel(4);
    let mut target = RotaryTarget::new(NonEmpty::from_vec(vec![rx0, rx1]).unwrap());
    tx0.try_send(packet(1)).unwrap();
    tx0.try_send(packet(2)).unwrap();
    tx1.try_send(packet(3)).unwrap();
    let mut cx = noop_context();
    let mut got = Vec::new();
    for _ in 0..3 {
        match target.poll_next(&mut cx) {
            Polled::Ready(Some(p)) => got.push(p.get_bytes()[1]),
            _ => panic!("expected a packet"),
        }
    }
    // Channel 0, then channel 1, then channel 0 again.
    assert_eq!(got, vec![1, 3, 2]);
    assert!(matches!(target.poll_next(&mut cx), Polled::Pending));
}

#[test]
fn target_reports_a_closed_channel() {
    let (tx0, rx0) = build_single_channel(1);
    let mut target = RotaryTarget::new(NonEmpty::new(rx0));
    drop(tx0);
    let mut cx = noop_context();
    assert!(matches!(target.poll_next(&mut cx), Polled::Ready(None)));
}

#[test]
fn single_channel_has_the_room_asked_for() {
    let (tx, rx) = build_single_channel(3);
    assert_eq!(tx.max_capacity(), 3);
    assert_eq!(rx.max_capacity(), 3);
}

#[test]
fn fire_step_settles_each_outcome() {
    assert!(matches!(fire_step(1, 0, 3, &Attempt::Sent), (1, Some(Ok(true)))));
    assert!(matches!(
        fire_step(2, 0, 3, &Attempt::Closed),
        (2, Some(Err(RotaryCanonError::ChannelClosed)))
    ));
    assert!(matches!(fire_step(0, 0, 3, &Attempt::Full), (1, None)));
    assert!(matches!(fire_step(2, 1, 3, &Attempt::Full), (0, None)));
    assert!(matches!(fire_step(2, 0, 3, &Attempt::Full), (0, Some(Ok(false)))));
    assert!(matches!(fire_step(0, 0, 1, &Attempt::Full), (0, Some(Ok(false)))));
}

#[test]
fn fire_drops_when_every_channel_is_full_then_resumes() {
    let (tx0, mut rx0) = build_single_channel(1);
    let (tx1, mut rx1) = build_single_channel(1);
    let mut canon = RotaryCanon::new(NonEmpty::from_vec(vec![tx0, tx1]).unwrap());
    assert!(canon.fire(packet(1)).unwrap());
    assert!(canon.fire(packet(2)).unwrap());
    assert!(!canon.fire(packet(3)).unwrap());
    assert_eq!(rx0.try_recv().unwrap().get_bytes(), &[0x45, 1]);
    assert!(canon.fire(packet(4)).unwrap());
    assert_eq!(rx0.try_recv().unwrap().get_bytes(), &[0x45, 4]);
    assert!(rx0.try_recv().is_err());
    assert_eq!(rx1.try_recv().unwrap().get_bytes(), &[0x45, 2]);
    assert!(rx1.try_recv().is_err());
}

#[test]
fn poll_step_moves_past_a_ready_channel() {
    assert!(matches!(poll_step(1, 3, Polled::Pending), None));
    assert!(matches!(poll_step(2, 3, Polled::Ready(None)), Some((0, None))));
    match poll_step(0, 3, Polled::Ready(Some(packet(7)))) {
        Some((1, Some(p))) => assert_eq!(p.get_bytes(), &[0x45, 7]),
        _ => panic!("expected the packet and the next channel"),
    }
}

use std::sync::{Arc, Mutex};

use argon::error::TunRackError;
use argon::rack::{end_item, worker_exit_error, TunRackBuilder};
use argon::rotary::{RotaryCanon, RotaryTarget};
use argon::slot::worker::{SlotWorkerError, SlotWorkerHandle};
use argon::slot::{Slot, SlotConfig, StartLog};
use argon::task::Polled;

/// A slot whose workers forward every packet they take in, and which records
/// how many workers it started.
struct Relay {
    config: SlotConfig,
    started: Arc<Mutex<usize>>,
    runtime: Arc<tokio::runtime::Runtime>,
    /// The start (counted from 0) that fails, if any.
    fails_at: Option<usize>,
}

impl Slot for Relay {
    fn config(&self) -> SlotConfig {
        self.config.clone()
    }

    fn started(&self) -> StartLog {
        unreachable!("the record of started workers is read by proofs only")
    }

    fn get_config(&self) -> SlotConfig {
        self.config.clone()
    }

    fn start_worker(
        &mut self,
        mut entry_rx: RotaryTarget,
        mut next_tx: RotaryCanon,
        _exit_tx: RotaryCanon,
    ) -> Result<SlotWorkerHandle, TunRackError> {
        let attempt = {
            let mut started = self.started.lock().unwrap();
            *started += 1;
            *started - 1
        };
        if self.fails_at == Some(attempt) {
            return Err(TunRackError::SlotChannelClosed);
        }
        let handle = self.runtime.spawn(async move {
            loop {
                let next = futures::future::poll_fn(|cx| match entry_rx.poll_next(cx) {
                    Polled::Ready(p) => std::task::Poll::Ready(p),
                    Polled::Pending => std::task::Poll::Pending,
                })
                .await;
                match next {
                    Some(packet) => {
                        next_tx.fire(packet)?;
                    },
                    None => return Ok(()),
                }
            }
        });
        Ok(SlotWorkerHandle::new(handle))
    }
}

fn relay(workers: usize, started: &Arc<Mutex<usize>>, runtime: &Arc<tokio::runtime::Runtime>) -> Relay {
    Relay {
        config: SlotConfig::default().set_workers(workers),
        started: started.clone(),
        runtime: runtime.clone(),
        fails_at: None,
    }
}

#[test]
fn build_starts_every_worker_and_passes_packets_through() {
    let runtime = Arc::new(tokio::runtime::Runtime::new().unwrap());
    let started = Arc::new(Mutex::new(0));
    let builder = TunRackBuilder::default()
        .add_slot::<Relay>(relay(2, &started, &runtime))
        .add_slot::<Relay>(relay(3, &started, &runtime));
    let (mut entry, mut rack, _exit) = match builder.build() {
        Ok(built) => built,
        Err(e) => panic!("build failed: {:?}", e),
    };
    assert_eq!(*started.lock().unwrap(), 5);
    for i in 0..6u8 {
        assert!(entry.fire(tun::TunPacket::new(vec![0x45, i])).unwrap());
    }
    let mut seen = Vec::new();
    runtime.block_on(async {
        while seen.len() < 6 {
            let item = futures::future::poll_fn(|cx| match rack.poll_next(cx) {
                Polled::Ready(p) => std::task::Poll::Ready(p),
                Polled::Pending => std::task::Poll::Pending,
            })
            .await;
            match item {
                Some(Ok(packet)) => seen.push(packet.get_bytes()[1]),
                other => panic!("unexpected {:?}", other.map(|r| r.map(|p| p.get_bytes().to_vec()))),
            }
        }
    });
    seen.sort();
    assert_eq!(seen, vec![0, 1, 2, 3, 4, 5]);
}

#[test]
fn build_without_slots_joins_entry_to_end() {
    let runtime = tokio::runtime::Runtime::new().unwrap();
    let (mut entry, mut rack, _exit) = match TunRackBuilder::default().build() {
        Ok(built) => built,
        Err(e) => panic!("build failed: {:?}", e),
    };
    assert!(entry.fire(tun::TunPacket::new(vec![0x45, 7])).unwrap());
    let item = runtime.block_on(futures::future::poll_fn(|cx| match rack.poll_next(cx) {
        Polled::Ready(p) => std::task::Poll::Ready(p),
        Polled::Pending => std::task::Poll::Pending,
    }));
    match item {
        Some(Ok(packet)) => assert_eq!(packet.get_bytes(), &[0x45, 7]),
        _ => panic!("expected the packet"),
    }
}

#[test]
fn build_refuses_a_slot_without_workers() {
    let runtime = Arc::new(tokio::runtime::Runtime::new().unwrap());
    let started = Arc::new(Mutex::new(0));
    let mut slot = relay(1, &started, &runtime);
    slot.config.workers = 0;
    let built = TunRackBuilder::default().add_slot::<Relay>(slot).build();
    assert!(matches!(built, Err(TunRackError::InternalError)));
    assert_eq!(*started.lock().unwrap(), 0);
}

#[test]
fn rack_reports_a_worker_that_ended() {
    let runtime = Arc::new(tokio::runtime::Runtime::new().unwrap());
    let started = Arc::new(Mutex::new(0));
    let builder = TunRackBuilder::default().add_slot::<Relay>(relay(1, &started, &runtime));
    let (entry, mut rack, _exit) = match builder.build() {
        Ok(built) => built,
        Err(e) => panic!("build failed: {:?}", e),
    };
    // Without the entry canon the worker's channel closes and the worker ends;
    // with it goes the last sender into the rack's end, which closes too. The
    // rack reports one or the other, the end first when both are there.
    drop(entry);
    let item = runtime.block_on(futures::future::poll_fn(|cx| match rack.poll_next(cx) {
        Polled::Ready(p) => std::task::Poll::Ready(p),
        Polled::Pending => std::task::Poll::Pending,
    }));
    assert!(matches!(
        item,
        Some(Err(TunRackError::SlotWorkerError(
            SlotWorkerError::SlotCrash | SlotWorkerError::SlotChannelClosed
        )))
    ));
}

#[test]
fn worker_exit_error_maps_each_outcome() {
    assert!(matches!(
        worker_exit_error(Ok(Ok(()))),
        TunRackError::SlotWorkerError(SlotWorkerError::SlotCrash)
    ));
    assert!(matches!(
        worker_exit_error(Ok(Err(SlotWorkerError::SlotChannelClosed))),
        TunRackError::SlotWorkerError(SlotWorkerError::SlotChannelClosed)
    ));
    let runtime = tokio::runtime::Runtime::new().unwrap();
    let join_error = runtime
        .block_on(async {
            let handle = tokio::spawn(async { std::future::pending::<Result<(), SlotWorkerError>>().await });
            handle.abort();
            handle.await
        })
        .unwrap_err();
    assert!(matches!(worker_exit_error(Err(join_error)), TunRackError::TokioJoinError(_)));
}

#[test]
fn end_item_maps_a_closed_end() {
    match end_item(Some(tun::TunPacket::new(vec![0x45, 1]))) {
        Ok(p) => assert_eq!(p.get_bytes(), &[0x45, 1]),
        Err(_) => panic!("expected the packet"),
    }
    assert!(matches!(
        end_item(None),
        Err(TunRackError::SlotWorkerError(SlotWorkerError::SlotChannelClosed))
    ));
}

#[test]
fn tunrack_channel_has_the_room_asked_for() {
    let (tx, mut rx) = argon::rack::build_tunrack_channel(5);
    assert_eq!(tx.max_capacity(), 5);
    assert_eq!(rx.max_capacity(), 5);
    tx.try_send(tun::TunPacket::new(vec![9])).unwrap();
    assert_eq!(rx.try_recv().unwrap().get_bytes(), &[9]);
}

#[test]
fn build_stages_joins_each_canon_to_its_group() {
    let (mut canons, mut targets) = argon::rack::build_stages(&vec![2, 4]);
    assert_eq!(canons.iter().map(|stage| stage.len()).collect::<Vec<_>>(), vec![1, 2, 4]);
    assert_eq!(targets.iter().map(|stage| stage.len()).collect::<Vec<_>>(), vec![2, 4, 1]);
    let mut cx = std::task::Context::from_waker(futures::task::noop_waker_ref());

    // Between two and four workers: two groups, canon 1 feeds targets 2 and 3.
    assert!(canons[1][1].fire(tun::TunPacket::new(vec![0x45, 1])).unwrap());
    for t in [0, 1, 3] {
        assert!(matches!(targets[1][t].poll_next(&mut cx), Polled::Pending));
    }
    match targets[1][2].poll_next(&mut cx) {
        Polled::Ready(Some(p)) => assert_eq!(p.get_bytes(), &[0x45, 1]),
        _ => panic!("expected the packet on target 2"),
    }

    // The entry canon fires into both targets of the first stage in turn.
    assert!(canons[0][0].fire(tun::TunPacket::new(vec![0x45, 2])).unwrap());
    assert!(matches!(targets[0][0].poll_next(&mut cx), Polled::Ready(Some(_))));
    assert!(matches!(targets[0][1].poll_next(&mut cx), Polled::Pending));

    // Every canon of the last stage feeds the one exit target.
    assert!(canons[2][3].fire(tun::TunPacket::new(vec![0x45, 3])).unwrap());
    assert!(matches!(targets[2][0].poll_next(&mut cx), Polled::Ready(Some(_))));
}

#[test]
fn chained_slot_outcomes_map_to_rack_errors() {
    assert!(matches!(argon::rack::slot_exit_error(Ok(Ok(()))), TunRackError::TunRackSlotCrash));
    assert!(matches!(
        argon::rack::slot_exit_error(Ok(Err(TunRackError::SlotChannelClosed))),
        TunRackError::SlotChannelClosed
    ));
    assert!(matches!(argon::rack::chain_end_item(None), Err(TunRackError::TunRackSlotCrash)));
    match argon::rack::chain_end_item(Some(tun::TunPacket::new(vec![4]))) {
        Ok(p) => assert_eq!(p.get_bytes(), &[4]),
        Err(_) => panic!("expected the packet"),
    }
}

#[test]
fn deal_ends_hands_each_worker_its_stages() {
    let workers = vec![2];
    let (canons, targets) = argon::rack::build_stages(&workers);
    let mut ends = argon::rack::deal_ends(&workers, canons, targets);
    assert_eq!(ends.stations.len(), 1);
    assert_eq!(ends.stations[0].len(), 2);
    let mut cx = std::task::Context::from_waker(futures::task::noop_waker_ref());

    assert!(ends.entry.fire(tun::TunPacket::new(vec![0x45, 1])).unwrap());
    assert!(matches!(ends.stations[0][0].0.poll_next(&mut cx), Polled::Ready(Some(_))));
    assert!(matches!(ends.stations[0][1].0.poll_next(&mut cx), Polled::Pending));

    assert!(ends.stations[0][1].1.fire(tun::TunPacket::new(vec![0x45, 2])).unwrap());
    match ends.end.poll_next(&mut cx) {
        Polled::Ready(Some(p)) => assert_eq!(p.get_bytes(), &[0x45, 2]),
        _ => panic!("expected the packet at the end"),
    }
}

#[test]
fn build_stops_at_the_first_worker_that_fails_to_start() {
    let runtime = Arc::new(tokio::runtime::Runtime::new().unwrap());
    let first = Arc::new(Mutex::new(0));
    let second = Arc::new(Mutex::new(0));
    let mut failing = relay(3, &first, &runtime);
    failing.fails_at = Some(1);
    let built = TunRackBuilder::default()
        .add_slot::<Relay>(failing)
        .add_slot::<Relay>(relay(2, &second, &runtime))
        .build();
    assert!(matches!(built, Err(TunRackError::SlotChannelClosed)));
    assert_eq!(*first.lock().unwrap(), 2);
    assert_eq!(*second.lock().unwrap(), 0);
}

#[test]
fn chain_link_moves_the_end_to_a_new_channel() {
    let (first_tx, mut last_rx) = argon::rack::build_tunrack_channel(4);
    let (mut slot_rx, slot_tx) = argon::rack::chain_link(&mut last_rx, 3);
    first_tx.try_send(tun::TunPacket::new(vec![1])).unwrap();
    assert_eq!(slot_rx.try_recv().unwrap().get_bytes(), &[1]);
    slot_tx.try_send(tun::TunPacket::new(vec![2])).unwrap();
    assert_eq!(last_rx.try_recv().unwrap().get_bytes(), &[2]);
    assert_eq!(last_rx.max_capacity(), 3);
}

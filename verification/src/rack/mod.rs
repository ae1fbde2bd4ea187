use vstd::prelude::*;

use crate::error::TunRackError;
use crate::rotary::{
    build_single_channel, receiver_capacity, receiver_list_new, sender_capacity, sender_clone,
    cloned_canon, lemma_target_poll_law, polled_as, same_channel, sender_list_from_vec, target_polled_as, sender_list_new, IntraSlotReceiver, IntraSlotSender, RotaryCanon,
    RotaryTarget,
};
use crate::slot::worker::{
    lemma_worker_polled, poll_worker, worker_polled_as, worker_running, SlotWorkerError, SlotWorkerHandle, WorkerPolled,
};
use crate::slot::{Slot, SlotConfig, StartLog, WorkerStart};
use crate::task::Polled;

pub mod layout;
pub mod wiring;

use wiring::StageLayout;

verus! {

/// How many packets a channel between two slots holds.
pub const INTRA_SLOT_CHANNEL_SIZE: usize = 4096;

pub type SlotSender = tokio::sync::mpsc::Sender<tun::TunPacket>;

pub type SlotSendError = tokio::sync::mpsc::error::SendError<tun::TunPacket>;

pub type SlotReceiver = tokio::sync::mpsc::Receiver<tun::TunPacket>;

/// A channel between two runners: its two ends, with room for
/// `channel_size` packets.
pub fn build_tunrack_channel(channel_size: usize) -> (channel: (SlotSender, SlotReceiver))
    requires
        0 < channel_size <= usize::MAX / 8,
    ensures
        sender_capacity(channel.0) == channel_size,
        receiver_capacity(channel.1) == channel_size,
        same_channel(channel.0, channel.1),
{
    build_single_channel(channel_size)
}

/// A canon as a stage builds it: over `width` channels of the intra-slot
/// size, pointing at the first.
pub open spec fn fresh_canon(canon: RotaryCanon, width: nat) -> bool {
    &&& canon.senders().len() == width
    &&& canon.position() == 0
    &&& forall|j: int|
        #![trigger canon.senders()[j]]
        0 <= j < width ==> sender_capacity(canon.senders()[j]) == INTRA_SLOT_CHANNEL_SIZE
}

/// A target as a stage builds it: on one channel of the intra-slot size.
pub open spec fn fresh_target(target: RotaryTarget) -> bool {
    &&& target.receiver_count() == 1
    &&& target.position() == 0
    &&& receiver_capacity(target.receivers()[0]) == INTRA_SLOT_CHANNEL_SIZE
}

/// The worker counts along a rack: one entry, the slots' workers, one exit.
pub open spec fn worker_chain(workers: Seq<usize>) -> Seq<nat> {
    seq![1nat] + workers.map_values(|w: usize| w as nat) + seq![1nat]
}

/// The worker counts of a sequence of slot configurations.
pub open spec fn worker_counts(configs: Seq<SlotConfig>) -> Seq<usize> {
    configs.map_values(|c: SlotConfig| c.workers)
}

/// Every slot has at least one worker.
pub open spec fn all_staffed(workers: Seq<usize>) -> bool {
    forall|i: int| 0 <= i < workers.len() ==> workers[i] >= 1
}

/// The total number of workers.
pub open spec fn total_workers(workers: Seq<usize>) -> nat
    decreases workers.len(),
{
    if workers.len() == 0 {
        0
    } else {
        total_workers(workers.drop_last()) + workers.last() as nat
    }
}

/// The layouts of the stages of a rack whose slots have `workers` workers:
/// stage `i` connects link `i` of the worker chain to link `i + 1`.
pub fn rack_layout(workers: &Vec<usize>) -> (stages: Vec<StageLayout>)
    requires
        all_staffed(workers@),
    ensures
        stages.len() == workers.len() + 1,
        forall|i: int|
            #![trigger stages[i]]
            0 <= i < stages.len() ==> stages[i] == StageLayout::spec_of(
                worker_chain(workers@)[i],
                worker_chain(workers@)[i + 1],
            ),
{
    let ghost chain = worker_chain(workers@);
    let mut stages: Vec<StageLayout> = Vec::new();
    let mut prev: usize = 1;
    let mut i: usize = 0;
    while i < workers.len()
        invariant
            i <= workers.len(),
            all_staffed(workers@),
            chain == worker_chain(workers@),
            stages.len() == i,
            prev >= 1,
            prev == chain[i as int],
            forall|j: int|
                #![trigger stages[j]]
                0 <= j < i ==> stages[j] == StageLayout::spec_of(chain[j], chain[j + 1]),
        decreases workers.len() - i,
    {
        let curr = workers[i];
        assert(chain[i + 1] == curr);
        stages.push(StageLayout::new(prev, curr));
        prev = curr;
        i += 1;
    }
    assert(chain[i + 1] == 1);
    stages.push(StageLayout::new(prev, 1));
    stages
}

/// Wiring law: in a rack whose slots have `workers` workers, slot `i` takes
/// from the `workers[i]` targets of stage `i` and sends into the `workers[i]`
/// canons of stage `i + 1`; the entry stage has one canon and the exit stage
/// one target.
pub proof fn lemma_slots_fit_stages(workers: Seq<usize>, i: int)
    requires
        all_staffed(workers),
        0 <= i < workers.len(),
    ensures
        ({
            let chain = worker_chain(workers);
            &&& StageLayout::spec_of(chain[i], chain[i + 1]).target_count() == workers[i]
            &&& StageLayout::spec_of(chain[i + 1], chain[i + 2]).canon_count() == workers[i]
            &&& StageLayout::spec_of(chain[0], chain[1]).canon_count() == 1
            &&& StageLayout::spec_of(chain[workers.len() as int], chain[workers.len() + 1int]).target_count() == 1
        }),
{
    let chain = worker_chain(workers);
    let n = workers.len() as int;
    assert(chain[i + 1] == workers[i]);
    assert(chain[0] == 1);
    assert(chain[n + 1] == 1);
    assert(chain[1] >= 1);
    assert(chain[n] >= 1);
    assert(chain[i] >= 1);
    assert(chain[i + 2] >= 1);
    assert(chain[i] <= usize::MAX);
    assert(chain[i + 2] <= usize::MAX);
    assert(chain[1] <= usize::MAX);
    assert(chain[n] <= usize::MAX);
    wiring::lemma_stage_counts(chain[i] as usize, chain[i + 1] as usize);
    wiring::lemma_stage_counts(chain[i + 1] as usize, chain[i + 2] as usize);
    wiring::lemma_stage_counts(chain[0] as usize, chain[1] as usize);
    wiring::lemma_stage_counts(chain[n] as usize, chain[n + 1] as usize);
}

/// A slot as the builder holds it.
struct SlotBox {
    slot: Box<dyn Slot>,
}

impl SlotBox {
    fn new<S: Slot>(slot: S) -> SlotBox {
        SlotBox { slot: Box::new(slot) }
    }
}

/// Builds a rack out of slots.
pub struct TunRackBuilder {
    slots: Vec<SlotBox>,
}

impl Default for TunRackBuilder {
    fn default() -> (builder: Self)
        ensures
            builder.slot_count() == 0,
    {
        TunRackBuilder { slots: Vec::new() }
    }
}

impl TunRackBuilder {
    /// How many slots the rack will have.
    pub closed spec fn slot_count(self) -> nat {
        self.slots.len() as nat
    }

    /// The configurations of the slots, in the order they were added.
    pub closed spec fn configs(self) -> Seq<SlotConfig> {
        self.slots@.map_values(|b: SlotBox| b.slot.config())
    }

    /// What each slot has been asked to start so far, slot by slot.
    pub closed spec fn started(self) -> Seq<StartLog> {
        self.slots@.map_values(|b: SlotBox| b.slot.started())
    }

    /// Starts the workers of every slot, in slot order: slot `s` starts one
    /// worker on each of `stations[s]`, in order, each given the station's
    /// target and canon and a clone of `exit_tx`. Stops at the first start
    /// that fails, with its error; on success, yields the workers in the order
    /// they were started.
    pub fn start_workers(
        &mut self,
        stations: Vec<Vec<(RotaryTarget, RotaryCanon)>>,
        exit_tx: &RotaryCanon,
    ) -> (handles: Result<Vec<SlotWorkerHandle>, TunRackError>)
        requires
            stations.len() == old(self).slot_count(),
        ensures
            final(self).slot_count() == old(self).slot_count(),
            handles matches Ok(h) ==> {
                &&& h.len() == total_workers(station_counts(stations@))
                &&& all_started(old(self).started(), final(self).started(), stations@, *exit_tx)
            },
            handles matches Err(e) ==> exists|s: int, m: int|
                stopped_at(old(self).started(), final(self).started(), stations@, *exit_tx, s, m, e),
    {
        let ghost all = stations@;
        let ghost before = self.started();
        let n = self.slots.len();
        let mut rest = stations;
        let mut handles: Vec<SlotWorkerHandle> = Vec::new();
        let mut s: usize = 0;
        while s < n
            invariant
                s <= n,
                n == self.slots.len(),
                n == old(self).slots.len(),
                all == stations@,
                all.len() == n,
                before == old(self).started(),
                before.len() == n,
                rest@ == all.skip(s as int),
                self.started().len() == n,
                forall|j: int|
                    #![trigger self.started()[j]]
                    0 <= j < s ==> started_on(before[j], self.started()[j], all[j]@, *exit_tx),
                forall|j: int|
                    #![trigger self.started()[j]]
                    s <= j < n ==> self.started()[j] == before[j],
                handles.len() == total_workers(station_counts(all).take(s as int)),
            decreases n - s,
        {
            let mut station = rest.remove(0);
            assert(station@ == all[s as int]@);
            let count = station.len();
            let mut w: usize = 0;
            proof {
                let b = before[s as int];
                assert(self.started()[s as int] == b);
                assert(b.subrange(0, b.len() as int) =~= b);
                assert(all[s as int]@.take(0) =~= Seq::<(RotaryTarget, RotaryCanon)>::empty());
                assert(started_on(b, b, all[s as int]@.take(0), *exit_tx));
            }
            while w < count
                invariant
                    s < n,
                    w <= count,
                    count == all[s as int].len(),
                    n == self.slots.len(),
                    n == old(self).slots.len(),
                    all == stations@,
                    all.len() == n,
                    before == old(self).started(),
                    before.len() == n,
                    station@ == all[s as int]@.skip(w as int),
                    self.started().len() == n,
                    forall|j: int|
                        #![trigger self.started()[j]]
                        0 <= j < s ==> started_on(before[j], self.started()[j], all[j]@, *exit_tx),
                    forall|j: int|
                        #![trigger self.started()[j]]
                        s < j < n ==> self.started()[j] == before[j],
                    started_on(before[s as int], self.started()[s as int], all[s as int]@.take(w as int), *exit_tx),
                    handles.len() == total_workers(station_counts(all).take(s as int)) + w,
                decreases count - w,
            {
                let ghost logs = self.started();
                let ghost slots_before = self.slots@;
                let (target, canon) = station.remove(0);
                let exit = exit_tx.clone();
                let ghost call_target = target;
                let ghost call_canon = canon;
                let ghost call_exit = exit;
                proof {
                    assert((call_target, call_canon) == all[s as int]@[w as int]);
                }
                let started = self.slots[s].slot.start_worker(target, canon, exit);
                let ghost call = WorkerStart {
                    entry_rx: call_target,
                    next_tx: call_canon,
                    exit_tx: call_exit,
                    error: if started is Ok {
                        None
                    } else {
                        Some(started->Err_0)
                    },
                };
                proof {
                    assert forall|j: int| 0 <= j < n && j != s implies #[trigger] self.started()[j] == logs[j] by {
                        assert(self.slots@[j] == slots_before[j]);
                    }
                    assert(self.started()[s as int] == logs[s as int].push(call));
                    let stage = all[s as int]@;
                    let b = before[s as int];
                    let a = self.started()[s as int];
                    assert(stage.take(w as int).push(stage[w as int]) =~= stage.take(w + 1));
                    assert(a.subrange(0, b.len() as int) =~= b) by {
                        assert(a.subrange(0, b.len() as int) =~= logs[s as int].subrange(0, b.len() as int));
                    }
                    assert(a.drop_last() =~= logs[s as int]);
                    assert(started_at(a.last(), stage[w as int], *exit_tx));
                }
                match started {
                    Ok(handle) => {
                        handles.push(handle);
                        proof {
                            let stage = all[s as int]@;
                            let b = before[s as int];
                            let a = self.started()[s as int];
                            assert forall|v: int| #![trigger stage.take(w + 1)[v]] 0 <= v < w + 1 implies {
                                &&& started_at(a[b.len() + v], stage.take(w + 1)[v], *exit_tx)
                                &&& a[b.len() + v].error is None
                            } by {
                                if v < w {
                                    assert(stage.take(w as int)[v] == stage.take(w + 1)[v]);
                                    assert(a[b.len() + v] == logs[s as int][b.len() + v]);
                                }
                            }
                            assert(started_on(b, a, stage.take(w + 1), *exit_tx));
                        }
                    },
                    Err(e) => {
                        proof {
                            assert(stopped_at(before, self.started(), all, *exit_tx, s as int, w as int, e));
                        }
                        return Err(e);
                    },
                }
                w += 1;
            }
            proof {
                let counts = station_counts(all);
                assert(all[s as int]@.take(count as int) =~= all[s as int]@);
                assert(counts.take(s + 1).drop_last() =~= counts.take(s as int));
                assert(counts[s as int] == count);
            }
            s += 1;
        }
        proof {
            assert(station_counts(all).take(n as int) =~= station_counts(all));
        }
        Ok(handles)
    }

    /// Adds a slot after the ones already added.
    pub fn add_slot<S>(self, slot: impl Into<S>) -> (builder: Self)
        where
            S: Slot,
        ensures
            builder.slot_count() == self.slot_count() + 1,
            builder.configs().len() == self.configs().len() + 1,
            builder.configs().drop_last() == self.configs(),
            builder.started().drop_last() == self.started(),
    {
        let slot: S = slot.into();
        let mut builder = self;
        builder.slots.push(SlotBox::new(slot));
        proof {
            assert(builder.slots@.drop_last() =~= self.slots@);
            assert(builder.configs().drop_last() =~= self.configs());
            assert(builder.started().drop_last() =~= self.started());
        }
        builder
    }

    /// One group of a stage: `rxs` fresh channels, one target on each, and
    /// `txs` canons that each fire into all of them.
    pub fn build_channels(txs: usize, rxs: usize) -> (built: (Vec<RotaryCanon>, Vec<RotaryTarget>))
        requires
            rxs >= 1 || txs == 0,
        ensures
            built.0.len() == txs,
            forall|k: int|
                #![trigger built.0[k]]
                0 <= k < txs ==> fresh_canon(built.0[k], rxs as nat),
            built.1.len() == rxs,
            forall|t: int| #![trigger built.1[t]] 0 <= t < rxs ==> fresh_target(built.1[t]),
            forall|k: int, j: int|
                #![trigger built.0[k].senders()[j], built.1[j]]
                0 <= k < txs && 0 <= j < rxs ==> same_channel(
                    built.0[k].senders()[j],
                    built.1[j].receivers()[0],
                ),
    {
        let mut ins: Vec<IntraSlotSender> = Vec::new();
        let mut outs: Vec<RotaryTarget> = Vec::new();
        let mut r: usize = 0;
        while r < rxs
            invariant
                r <= rxs,
                ins.len() == r,
                outs.len() == r,
                forall|t: int| #![trigger outs[t]] 0 <= t < r ==> fresh_target(outs[t]),
                forall|t: int|
                    #![trigger ins[t]]
                    0 <= t < r ==> sender_capacity(ins[t]) == INTRA_SLOT_CHANNEL_SIZE,
                forall|t: int|
                    #![trigger ins[t], outs[t]]
                    0 <= t < r ==> same_channel(ins[t], outs[t].receivers()[0]),
            decreases rxs - r,
        {
            let (tx, rx) = build_single_channel(INTRA_SLOT_CHANNEL_SIZE);
            ins.push(tx);
            outs.push(RotaryTarget::new(receiver_list_new(rx)));
            r += 1;
        }
        let mut canons: Vec<RotaryCanon> = Vec::new();
        let mut k: usize = 0;
        while k < txs
            invariant
                k <= txs,
                rxs >= 1 || txs == 0,
                ins.len() == rxs,
                forall|t: int|
                    #![trigger ins[t]]
                    0 <= t < rxs ==> sender_capacity(ins[t]) == INTRA_SLOT_CHANNEL_SIZE,
                canons.len() == k,
                forall|j: int| #![trigger canons[j]] 0 <= j < k ==> fresh_canon(canons[j], rxs as nat),
                outs.len() == rxs,
                forall|t: int|
                    #![trigger ins[t], outs[t]]
                    0 <= t < rxs ==> same_channel(ins[t], outs[t].receivers()[0]),
                forall|c: int, j: int|
                    #![trigger canons[c].senders()[j], outs[j]]
                    0 <= c < k && 0 <= j < rxs ==> same_channel(
                        canons[c].senders()[j],
                        outs[j].receivers()[0],
                    ),
            decreases txs - k,
        {
            let mut senders: Vec<IntraSlotSender> = Vec::new();
            let mut j: usize = 0;
            while j < rxs
                invariant
                    j <= rxs,
                    ins.len() == rxs,
                    forall|t: int|
                        #![trigger ins[t]]
                        0 <= t < rxs ==> sender_capacity(ins[t]) == INTRA_SLOT_CHANNEL_SIZE,
                    senders.len() == j,
                    forall|t: int|
                        #![trigger senders[t]]
                        0 <= t < j ==> sender_capacity(senders[t]) == INTRA_SLOT_CHANNEL_SIZE,
                    outs.len() == rxs,
                    forall|t: int|
                        #![trigger ins[t], outs[t]]
                        0 <= t < rxs ==> same_channel(ins[t], outs[t].receivers()[0]),
                    forall|t: int|
                        #![trigger senders[t], outs[t]]
                        0 <= t < j ==> same_channel(senders[t], outs[t].receivers()[0]),
                decreases rxs - j,
            {
                let copy = sender_clone(&ins[j]);
                proof {
                    assert(same_channel(ins[j as int], outs[j as int].receivers()[0]));
                    assert(same_channel(copy, outs[j as int].receivers()[0]));
                }
                senders.push(copy);
                j += 1;
            }
            let list = sender_list_from_vec(senders).unwrap();
            let canon = RotaryCanon::new(list);
            proof {
                assert forall|j: int| #![trigger outs[j]] 0 <= j < rxs implies same_channel(
                    canon.senders()[j],
                    outs[j].receivers()[0],
                ) by {
                    assert(canon.senders()[j] == senders[j]);
                }
            }
            canons.push(canon);
            k += 1;
        }
        (canons, outs)
    }

    /// All channels of one stage: `layout.groups` groups built one after the
    /// other, canons and targets in group order.
    pub fn build_stage(layout: &StageLayout) -> (built: (Vec<RotaryCanon>, Vec<RotaryTarget>))
        requires
            layout.targets_per_group >= 1,
            layout.canon_count() <= usize::MAX,
            layout.target_count() <= usize::MAX,
        ensures
            built.0.len() == layout.canon_count(),
            forall|k: int|
                #![trigger built.0[k]]
                0 <= k < built.0.len() ==> fresh_canon(built.0[k], layout.targets_per_group as nat),
            built.1.len() == layout.target_count(),
            forall|t: int| #![trigger built.1[t]] 0 <= t < built.1.len() ==> fresh_target(built.1[t]),
            forall|k: int, t: int|
                #![trigger built.0[k], built.1[t]]
                0 <= k && 0 <= t && layout.feeds(k as nat, t as nat) ==> same_channel(
                    built.0[k].senders()[t % (layout.targets_per_group as int)],
                    built.1[t].receivers()[0],
                ),
    {
        let ghost cpg = layout.canons_per_group as int;
        let ghost tpg = layout.targets_per_group as int;
        let mut canons: Vec<RotaryCanon> = Vec::new();
        let mut targets: Vec<RotaryTarget> = Vec::new();
        let mut g: usize = 0;
        while g < layout.groups
            invariant
                g <= layout.groups,
                layout.targets_per_group >= 1,
                layout.canon_count() <= usize::MAX,
                layout.target_count() <= usize::MAX,
                canons.len() == g * layout.canons_per_group,
                targets.len() == g * layout.targets_per_group,
                forall|k: int|
                    #![trigger canons[k]]
                    0 <= k < canons.len() ==> fresh_canon(canons[k], layout.targets_per_group as nat),
                forall|t: int| #![trigger targets[t]] 0 <= t < targets.len() ==> fresh_target(targets[t]),
                cpg == layout.canons_per_group,
                tpg == layout.targets_per_group,
                stage_wired(canons@, targets@, cpg, tpg),
            decreases layout.groups - g,
        {
            let (mut txs, mut rxs) = Self::build_channels(
                layout.canons_per_group,
                layout.targets_per_group,
            );
            let ghost before_canons = canons@;
            let ghost before_targets = targets@;
            let ghost group_canons = txs@;
            let ghost group_targets = rxs@;
            proof {
                vstd::arithmetic::mul::lemma_mul_is_distributive_add_other_way(
                    layout.canons_per_group as int, g as int, 1);
                vstd::arithmetic::mul::lemma_mul_is_distributive_add_other_way(
                    layout.targets_per_group as int, g as int, 1);
                vstd::arithmetic::mul::lemma_mul_inequality((g + 1) as int, layout.groups as int,
                    layout.canons_per_group as int);
                vstd::arithmetic::mul::lemma_mul_inequality((g + 1) as int, layout.groups as int,
                    layout.targets_per_group as int);
            }
            canons.append(&mut txs);
            targets.append(&mut rxs);
            proof {
                lemma_group_wired(before_canons, before_targets, group_canons, group_targets, g as int, cpg, tpg);
            }
            g += 1;
        }
        proof {
            assert forall|k: int, t: int|
                #![trigger canons[k], targets[t]]
                0 <= k && 0 <= t && layout.feeds(k as nat, t as nat) implies same_channel(
                    canons[k].senders()[t % tpg],
                    targets[t].receivers()[0],
                ) by {
                assert(k < canons.len() && t < targets.len());
            }
        }
        (canons, targets)
    }

    /// Starts every worker of every slot on the rack's channels. All stages
    /// are built first (`build_stages`) and dealt out (`deal_ends`); then each
    /// slot, in slot order, starts its workers in turn (`start_workers`), each
    /// on the target and canon dealt to it and a clone of one exit canon.
    /// The result is the rack's entry canon (the first stage's canon), the rack
    /// (its workers and the last stage's target), and the target on the exit
    /// channel. A slot that asks for no workers makes it fail with
    /// `InternalError`; a worker that fails to start makes it fail with that
    /// worker's error, and no later worker is started. Without slots it always
    /// succeeds.
    pub fn build(self) -> (built: Result<(RotaryCanon, TunRack, RotaryTarget), TunRackError>)
        ensures
            self.slot_count() == 0 ==> built is Ok,
            !all_staffed(worker_counts(self.configs())) ==> built matches Err(
                TunRackError::InternalError,
            ),
            built matches Ok((entry, rack, exit)) ==> {
                let workers = worker_counts(self.configs());
                &&& all_staffed(workers)
                &&& fresh_canon(entry, worker_chain(workers)[1])
                &&& fresh_target(exit)
                &&& fresh_target(rack.target())
                &&& rack.worker_count() == total_workers(workers)
                &&& exists|
                    canons: Seq<Vec<RotaryCanon>>,
                    targets: Seq<Vec<RotaryTarget>>,
                    stations: Seq<Vec<(RotaryTarget, RotaryCanon)>>,
                    exit_tx: RotaryCanon,
                    after: TunRackBuilder,
                |
                    {
                        &&& dealt_from(workers, canons, targets, stations)
                        &&& entry == canons[0][0]
                        &&& rack.target() == targets[workers.len() as int][0]
                        &&& feeds_target(exit_tx, exit)
                        &&& all_started(self.started(), after.started(), stations, exit_tx)
                    }
            },
            all_staffed(worker_counts(self.configs())) ==> (built matches Err(error) ==> exists|
                canons: Seq<Vec<RotaryCanon>>,
                targets: Seq<Vec<RotaryTarget>>,
                stations: Seq<Vec<(RotaryTarget, RotaryCanon)>>,
                exit_tx: RotaryCanon,
                after: TunRackBuilder,
                s: int,
                m: int,
            |
                {
                    &&& dealt_from(worker_counts(self.configs()), canons, targets, stations)
                    &&& exit_tx.senders().len() == 1
                    &&& stopped_at(self.started(), after.started(), stations, exit_tx, s, m, error)
                }),
    {
        let mut builder = self;
        let slot_count = builder.slots.len();
        let mut workers: Vec<usize> = Vec::new();
        let mut i: usize = 0;
        while i < slot_count
            invariant
                i <= slot_count,
                slot_count == builder.slots.len(),
                slot_count == self.slot_count(),
                builder == self,
                workers.len() == i,
                workers@ == worker_counts(self.configs()).take(i as int),
                all_staffed(workers@),
            decreases slot_count - i,
        {
            let count = builder.slots[i].slot.get_config().workers;
            assert(count == worker_counts(self.configs())[i as int]);
            if count == 0 {
                return Err(TunRackError::InternalError);
            }
            workers.push(count);
            assert(workers@ == worker_counts(self.configs()).take(i + 1));
            i += 1;
        }
        assert(workers@ == worker_counts(self.configs()));
        let ghost chain = worker_chain(workers@);
        let (canons, targets) = build_stages(&workers);
        let ghost all_canons = canons@;
        let ghost all_targets = targets@;
        let ends = deal_ends(&workers, canons, targets);
        proof {
            lemma_slots_fit_stages_ends(workers@);
            lemma_chain_link(workers@, 1);
            wiring::lemma_stage_counts(1, chain[1] as usize);
            assert(stage_built(StageLayout::spec_of(chain[0], chain[1]), all_canons[0]@, all_targets[0]@));
            let layout = StageLayout::spec_of(chain[0], chain[1]);
            assert(layout.groups * layout.canons_per_group == 1);
            lemma_unit_product(layout.groups as int, layout.canons_per_group as int);
            assert(layout.groups * layout.targets_per_group == chain[1]);
            assert(layout.targets_per_group == chain[1]) by (nonlinear_arith)
                requires
                    layout.groups == 1,
                    layout.groups * layout.targets_per_group == chain[1],
            ;
            assert(fresh_canon(ends.entry, chain[1]));
            let n = slot_count as int;
            assert(stage_built(StageLayout::spec_of(chain[n], chain[n + 1]), all_canons[n]@, all_targets[n]@));
            assert(fresh_target(ends.end));
        }
        let RackEnds { entry, stations, end } = ends;
        let ghost dealt = stations@;
        proof {
            assert(dealt_from(workers@, all_canons, all_targets, dealt));
            assert(station_counts(dealt) =~= workers@);
        }

        let (exit_tx, exit_rx) = build_single_channel(INTRA_SLOT_CHANNEL_SIZE);
        let exit_tx = RotaryCanon::new(sender_list_new(exit_tx));
        let exit_rx = RotaryTarget::new(receiver_list_new(exit_rx));
        assert(feeds_target(exit_tx, exit_rx));

        let handles = match builder.start_workers(stations, &exit_tx) {
            Ok(handles) => handles,
            Err(error) => {
                return Err(error);
            },
        };
        let rack = TunRack::new(handles, end);
        proof {
            assert(rack.worker_count() == total_workers(workers@));
            assert(workers@.len() == self.slot_count());
        }
        Ok((entry, rack, exit_rx))
    }
}

/// The ends of a rack's stages as `deal_ends` deals them out: slot `s` gets
/// one station per worker, and worker `w`'s station is target `w` of stage
/// `s` and canon `w` of stage `s + 1`, the stages being wired as
/// `rack_wired` says.
pub open spec fn dealt_from(
    workers: Seq<usize>,
    canons: Seq<Vec<RotaryCanon>>,
    targets: Seq<Vec<RotaryTarget>>,
    stations: Seq<Vec<(RotaryTarget, RotaryCanon)>>,
) -> bool {
    &&& rack_wired(workers, canons, targets)
    &&& stations.len() == workers.len()
    &&& forall|s: int| #![trigger stations[s]] 0 <= s < workers.len() ==> stations[s].len() == workers[s]
    &&& forall|s: int, w: int|
        #![trigger stations[s]@[w]]
        0 <= s < workers.len() && 0 <= w < workers[s] ==> stations[s]@[w] == (
            targets[s]@[w],
            canons[s + 1]@[w],
        )
}

/// `exit_tx` fires into the one channel that `exit` takes from.
pub open spec fn feeds_target(exit_tx: RotaryCanon, exit: RotaryTarget) -> bool {
    &&& exit_tx.senders().len() == 1
    &&& exit.receiver_count() == 1
    &&& same_channel(exit_tx.senders()[0], exit.receivers()[0])
}

/// Who gets which channel of a rack.
pub struct RackEnds {
    /// The canon that packets enter the rack by.
    pub entry: RotaryCanon,
    /// For each slot, for each of its workers in turn, the target it takes
    /// from and the canon it fires into.
    pub stations: Vec<Vec<(RotaryTarget, RotaryCanon)>>,
    /// The target that packets leave the rack by.
    pub end: RotaryTarget,
}

/// Deals out the stages of a rack whose slots have `workers` workers: the
/// first stage's one canon is the entry; worker `w` of slot `s` takes target
/// `w` of stage `s` and canon `w` of stage `s + 1`; the last stage's one
/// target is the end.
pub fn deal_ends(
    workers: &Vec<usize>,
    canons: Vec<Vec<RotaryCanon>>,
    targets: Vec<Vec<RotaryTarget>>,
) -> (ends: RackEnds)
    requires
        all_staffed(workers@),
        rack_wired(workers@, canons@, targets@),
    ensures
        ends.entry == canons@[0]@[0],
        ends.end == targets@[workers.len() as int]@[0],
        ends.stations.len() == workers.len(),
        forall|s: int|
            #![trigger ends.stations@[s]]
            0 <= s < workers.len() ==> ends.stations@[s].len() == workers@[s],
        forall|s: int, w: int|
            #![trigger ends.stations@[s]@[w]]
            0 <= s < workers.len() && 0 <= w < workers@[s] ==> ends.stations@[s]@[w] == (
                targets@[s]@[w],
                canons@[s + 1]@[w],
            ),
{
    let ghost all_canons = canons@;
    let ghost all_targets = targets@;
    let ghost chain = worker_chain(workers@);
    let ghost n = workers.len() as int;
    let mut canons = canons;
    let mut targets = targets;
    proof {
        lemma_slots_fit_stages_ends(workers@);
        assert(stage_built(StageLayout::spec_of(chain[0], chain[1]), all_canons[0]@, all_targets[0]@));
        assert(stage_built(StageLayout::spec_of(chain[n], chain[n + 1]), all_canons[n]@, all_targets[n]@));
    }
    let mut first = canons.remove(0);
    let entry = first.remove(0);
    let mut stations: Vec<Vec<(RotaryTarget, RotaryCanon)>> = Vec::new();
    let mut s: usize = 0;
    while s < workers.len()
        invariant
            s <= workers.len(),
            n == workers.len(),
            all_staffed(workers@),
            chain == worker_chain(workers@),
            rack_wired(workers@, all_canons, all_targets),
            canons@ == all_canons.skip(s as int + 1),
            targets@ == all_targets.skip(s as int),
            stations.len() == s,
            forall|j: int|
                #![trigger stations@[j]]
                0 <= j < s ==> stations@[j].len() == workers@[j],
            forall|j: int, w: int|
                #![trigger stations@[j]@[w]]
                0 <= j < s && 0 <= w < workers@[j] ==> stations@[j]@[w] == (
                    all_targets[j]@[w],
                    all_canons[j + 1]@[w],
                ),
        decreases workers.len() - s,
    {
        proof {
            lemma_slots_fit_stages(workers@, s as int);
            assert(stage_built(StageLayout::spec_of(chain[s + 1], chain[s + 2]), all_canons[s + 1]@, all_targets[s + 1]@));
            assert(stage_built(StageLayout::spec_of(chain[s as int], chain[s + 1]), all_canons[s as int]@, all_targets[s as int]@));
        }
        let mut slot_canons = canons.remove(0);
        let mut slot_targets = targets.remove(0);
        let ghost stage_canons = slot_canons@;
        let ghost stage_targets = slot_targets@;
        assert(stage_canons == all_canons[s + 1]@);
        assert(stage_targets == all_targets[s as int]@);
        let count = workers[s];
        let mut pairs: Vec<(RotaryTarget, RotaryCanon)> = Vec::new();
        let mut w: usize = 0;
        while w < count
            invariant
                w <= count,
                stage_canons.len() == count,
                stage_targets.len() == count,
                slot_canons@ == stage_canons.skip(w as int),
                slot_targets@ == stage_targets.skip(w as int),
                pairs.len() == w,
                forall|v: int|
                    #![trigger pairs@[v]]
                    0 <= v < w ==> pairs@[v] == (stage_targets[v], stage_canons[v]),
            decreases count - w,
        {
            let target = slot_targets.remove(0);
            let canon = slot_canons.remove(0);
            pairs.push((target, canon));
            assert(slot_canons@ =~= stage_canons.skip(w + 1));
            assert(slot_targets@ =~= stage_targets.skip(w + 1));
            w += 1;
        }
        stations.push(pairs);
        assert(canons@ =~= all_canons.skip(s + 2));
        assert(targets@ =~= all_targets.skip(s + 1));
        s += 1;
    }
    let mut last = targets.remove(0);
    let end = last.remove(0);
    RackEnds { entry, stations, end }
}

/// How many stations each slot has.
pub open spec fn station_counts(stations: Seq<Vec<(RotaryTarget, RotaryCanon)>>) -> Seq<usize> {
    stations.map_values(|station: Vec<(RotaryTarget, RotaryCanon)>| station.len())
}

/// `call` started a worker on `station`'s target and canon and on a clone of
/// `exit_tx`.
pub open spec fn started_at(call: WorkerStart, station: (RotaryTarget, RotaryCanon), exit_tx: RotaryCanon) -> bool {
    &&& call.entry_rx == station.0
    &&& call.next_tx == station.1
    &&& cloned_canon(call.exit_tx, exit_tx)
}

/// A slot whose log was `before` is now at `after`: it started one worker on
/// each of `stations`, in order, and each start succeeded.
pub open spec fn started_on(
    before: StartLog,
    after: StartLog,
    stations: Seq<(RotaryTarget, RotaryCanon)>,
    exit_tx: RotaryCanon,
) -> bool {
    &&& after.len() == before.len() + stations.len()
    &&& after.subrange(0, before.len() as int) == before
    &&& forall|w: int|
        #![trigger stations[w]]
        0 <= w < stations.len() ==> {
            &&& started_at(after[before.len() + w], stations[w], exit_tx)
            &&& after[before.len() + w].error is None
        }
}

/// Slots whose logs were `before` are now at `after`: each slot started one
/// worker on each of its stations, in order, with a clone of `exit_tx`, and
/// every start succeeded.
pub open spec fn all_started(
    before: Seq<StartLog>,
    after: Seq<StartLog>,
    stations: Seq<Vec<(RotaryTarget, RotaryCanon)>>,
    exit_tx: RotaryCanon,
) -> bool {
    &&& before.len() == stations.len()
    &&& after.len() == stations.len()
    &&& forall|j: int|
        #![trigger after[j]]
        0 <= j < stations.len() ==> started_on(before[j], after[j], stations[j]@, exit_tx)
}

/// Slots whose logs were `before` are now at `after`, and the starts stopped
/// at station `m` of slot `s` with `error`: the slots before `s` started all
/// their workers, slot `s` the first `m` and then the one whose start failed,
/// and the slots after `s` none.
pub open spec fn stopped_at(
    before: Seq<StartLog>,
    after: Seq<StartLog>,
    stations: Seq<Vec<(RotaryTarget, RotaryCanon)>>,
    exit_tx: RotaryCanon,
    s: int,
    m: int,
    error: TunRackError,
) -> bool {
    &&& before.len() == stations.len()
    &&& after.len() == stations.len()
    &&& 0 <= s < stations.len()
    &&& 0 <= m < stations[s].len()
    &&& forall|j: int|
        #![trigger after[j]]
        0 <= j < s ==> started_on(before[j], after[j], stations[j]@, exit_tx)
    &&& after[s].len() == before[s].len() + m + 1
    &&& started_on(before[s], after[s].drop_last(), stations[s]@.take(m), exit_tx)
    &&& started_at(after[s].last(), stations[s]@[m], exit_tx)
    &&& after[s].last().error == Some(error)
    &&& forall|j: int| #![trigger after[j]] s < j < stations.len() ==> after[j] == before[j]
}

/// A stage as `build_stage` builds it to `layout`: as many canons and targets
/// as the layout has, fresh, and each canon sending into every target of its
/// group, into target `t` through its sender `t % targets_per_group`.
pub open spec fn stage_built(layout: StageLayout, canons: Seq<RotaryCanon>, targets: Seq<RotaryTarget>) -> bool {
    &&& canons.len() == layout.canon_count()
    &&& targets.len() == layout.target_count()
    &&& forall|k: int|
        #![trigger canons[k]]
        0 <= k < canons.len() ==> fresh_canon(canons[k], layout.targets_per_group as nat)
    &&& forall|t: int| #![trigger targets[t]] 0 <= t < targets.len() ==> fresh_target(targets[t])
    &&& forall|k: int, t: int|
        #![trigger canons[k], targets[t]]
        0 <= k && 0 <= t && layout.feeds(k as nat, t as nat) ==> same_channel(
            canons[k].senders()[t % (layout.targets_per_group as int)],
            targets[t].receivers()[0],
        )
}

/// The channels of a rack whose slots have `workers` workers, stage by stage:
/// stage `i` is built to the layout between link `i` and link `i + 1` of the
/// worker chain. Slot `i` takes from the targets of stage `i` and fires into
/// the canons of stage `i + 1`.
pub open spec fn rack_wired(
    workers: Seq<usize>,
    canons: Seq<Vec<RotaryCanon>>,
    targets: Seq<Vec<RotaryTarget>>,
) -> bool {
    let chain = worker_chain(workers);
    &&& canons.len() == workers.len() + 1
    &&& targets.len() == workers.len() + 1
    &&& forall|i: int|
        #![trigger canons[i]]
        #![trigger targets[i]]
        0 <= i <= workers.len() ==> stage_built(
            StageLayout::spec_of(chain[i], chain[i + 1]),
            canons[i]@,
            targets[i]@,
        )
}

/// A rack without slots joins its entry straight to its end: the entry canon
/// has one channel, and the end target takes from it.
pub proof fn lemma_empty_rack_joins_entry_to_end(
    canons: Seq<Vec<RotaryCanon>>,
    targets: Seq<Vec<RotaryTarget>>,
)
    requires
        rack_wired(Seq::empty(), canons, targets),
    ensures
        canons[0]@[0].senders().len() == 1,
        same_channel(canons[0]@[0].senders()[0], targets[0]@[0].receivers()[0]),
{
    let workers = Seq::<usize>::empty();
    let chain = worker_chain(workers);
    assert(chain[0] == 1 && chain[1] == 1);
    let layout = StageLayout::spec_of(1, 1);
    assert(wiring::gcd(1, 1) == 1) by {
        assert(wiring::gcd(1, 0) == 1);
    }
    assert(layout.groups == 1 && layout.canons_per_group == 1 && layout.targets_per_group == 1);
    assert(stage_built(layout, canons[0]@, targets[0]@));
    assert(layout.feeds(0, 0));
    assert(canons[0]@[0] == canons[0][0]);
}

/// Every link of the worker chain of a staffed rack is a worker count that
/// fits in a `usize`.
pub proof fn lemma_chain_link(workers: Seq<usize>, i: int)
    requires
        all_staffed(workers),
        0 <= i <= workers.len() + 1,
    ensures
        1 <= worker_chain(workers)[i] <= usize::MAX,
{
    let chain = worker_chain(workers);
    if 1 <= i <= workers.len() {
        assert(chain[i] == workers[i - 1]);
    }
}

/// Every stage of a rack whose slots have `workers` workers, from the entry to
/// the exit, each as `build_stage` builds it.
pub fn build_stages(workers: &Vec<usize>) -> (built: (Vec<Vec<RotaryCanon>>, Vec<Vec<RotaryTarget>>))
    requires
        all_staffed(workers@),
    ensures
        rack_wired(workers@, built.0@, built.1@),
{
    let layouts = rack_layout(workers);
    let ghost chain = worker_chain(workers@);
    let mut canons: Vec<Vec<RotaryCanon>> = Vec::new();
    let mut targets: Vec<Vec<RotaryTarget>> = Vec::new();
    let mut i: usize = 0;
    while i < layouts.len()
        invariant
            i <= layouts.len(),
            layouts.len() == workers.len() + 1,
            all_staffed(workers@),
            chain == worker_chain(workers@),
            forall|j: int|
                #![trigger layouts[j]]
                0 <= j < layouts.len() ==> layouts[j] == StageLayout::spec_of(chain[j], chain[j + 1]),
            canons.len() == i,
            targets.len() == i,
            forall|j: int|
                #![trigger canons[j]]
                #![trigger targets[j]]
                0 <= j < i ==> stage_built(
                    StageLayout::spec_of(chain[j], chain[j + 1]),
                    canons[j]@,
                    targets[j]@,
                ),
        decreases layouts.len() - i,
    {
        proof {
            lemma_chain_link(workers@, i as int);
            lemma_chain_link(workers@, i + 1);
            wiring::lemma_stage_counts(chain[i as int] as usize, chain[i + 1] as usize);
        }
        let (stage_canons, stage_targets) = TunRackBuilder::build_stage(&layouts[i]);
        canons.push(stage_canons);
        targets.push(stage_targets);
        i += 1;
    }
    (canons, targets)
}

/// Canon `k` of a stage sends into target `t` whenever they are in the same
/// group: through its sender `t % tpg`.
pub open spec fn stage_wired(canons: Seq<RotaryCanon>, targets: Seq<RotaryTarget>, cpg: int, tpg: int) -> bool {
    forall|k: int, t: int|
        #![trigger canons[k], targets[t]]
        0 <= k < canons.len() && 0 <= t < targets.len() && k / cpg == t / tpg ==> same_channel(
            canons[k].senders()[t % tpg],
            targets[t].receivers()[0],
        )
}

/// Appending group `g` (built by `build_channels`) to the first `g` groups of a
/// stage keeps it wired.
proof fn lemma_group_wired(
    canons: Seq<RotaryCanon>,
    targets: Seq<RotaryTarget>,
    group_canons: Seq<RotaryCanon>,
    group_targets: Seq<RotaryTarget>,
    g: int,
    cpg: int,
    tpg: int,
)
    requires
        g >= 0,
        tpg >= 1,
        cpg >= 0,
        canons.len() == g * cpg,
        targets.len() == g * tpg,
        group_canons.len() == cpg,
        group_targets.len() == tpg,
        stage_wired(canons, targets, cpg, tpg),
        forall|c: int, j: int|
            #![trigger group_canons[c].senders()[j], group_targets[j]]
            0 <= c < cpg && 0 <= j < tpg ==> same_channel(
                group_canons[c].senders()[j],
                group_targets[j].receivers()[0],
            ),
    ensures
        stage_wired(canons + group_canons, targets + group_targets, cpg, tpg),
{
    let all_canons = canons + group_canons;
    let all_targets = targets + group_targets;
    assert forall|k: int, t: int|
        #![trigger all_canons[k], all_targets[t]]
        0 <= k < all_canons.len() && 0 <= t < all_targets.len() && k / cpg == t / tpg implies same_channel(
            all_canons[k].senders()[t % tpg],
            all_targets[t].receivers()[0],
        ) by {
        wiring::lemma_group_of(t as nat, g as nat, tpg as nat);
        if cpg > 0 {
            wiring::lemma_group_of(k as nat, g as nat, cpg as nat);
            if k < canons.len() && t < targets.len() {
                assert(all_canons[k] == canons[k]);
                assert(all_targets[t] == targets[t]);
            } else if k >= canons.len() && t >= targets.len() {
                let c = k - g * cpg;
                let j = t - g * tpg;
                assert(all_canons[k] == group_canons[c]);
                assert(all_targets[t] == group_targets[j]);
                assert(same_channel(group_canons[c].senders()[j], group_targets[j].receivers()[0]));
            }
        }
    }
}

proof fn lemma_unit_product(a: int, b: int)
    requires
        a >= 1,
        b >= 1,
        a * b == 1,
    ensures
        a == 1,
        b == 1,
{
    if a > 1 {
        assert(a * b >= 2) by (nonlinear_arith)
            requires
                a >= 2,
                b >= 1,
        ;
    }
    if b > 1 {
        assert(a * b >= 2) by (nonlinear_arith)
            requires
                a >= 1,
                b >= 2,
        ;
    }
}

/// Wiring law at the rack's ends: the entry stage has one canon, the exit
/// stage one target, whatever the slots' worker counts.
pub proof fn lemma_slots_fit_stages_ends(workers: Seq<usize>)
    requires
        all_staffed(workers),
    ensures
        ({
            let chain = worker_chain(workers);
            let n = workers.len() as int;
            &&& chain[1] >= 1
            &&& StageLayout::spec_of(chain[0], chain[1]).canon_count() == 1
            &&& StageLayout::spec_of(chain[n], chain[n + 1]).target_count() == 1
            &&& StageLayout::spec_of(chain[n], chain[n + 1]).targets_per_group == 1
        }),
{
    let chain = worker_chain(workers);
    let n = workers.len() as int;
    assert(chain[0] == 1);
    assert(chain[n + 1] == 1);
    assert(chain[1] >= 1 && chain[1] <= usize::MAX);
    assert(chain[n] >= 1 && chain[n] <= usize::MAX);
    wiring::lemma_stage_counts(chain[0] as usize, chain[1] as usize);
    wiring::lemma_stage_counts(chain[n] as usize, chain[n + 1] as usize);
    let layout = StageLayout::spec_of(chain[n], chain[n + 1]);
    assert(layout.groups * layout.targets_per_group == 1);
    vstd::arithmetic::mul::lemma_mul_ordering(layout.groups as int, layout.targets_per_group as int);
    if layout.targets_per_group > 1 {
        vstd::arithmetic::mul::lemma_mul_inequality(2, layout.targets_per_group as int, layout.groups as int);
        assert(layout.groups * layout.targets_per_group >= 2) by (nonlinear_arith)
            requires
                layout.groups >= 1,
                layout.targets_per_group >= 2,
        ;
    }
}

/// What a rack reports when one of its workers has ended: the worker's own
/// error, `SlotCrash` when it ended without one (workers run until their
/// channel closes, so ending at all is a crash), or the join error.
/// What a rack reports for a worker that ended with `result`.
pub open spec fn exit_error_of(result: Result<Result<(), SlotWorkerError>, tokio::task::JoinError>) -> TunRackError {
    match result {
        Ok(Ok(())) => TunRackError::SlotWorkerError(SlotWorkerError::SlotCrash),
        Ok(Err(e)) => TunRackError::SlotWorkerError(e),
        Err(e) => TunRackError::TokioJoinError(e),
    }
}

/// What a rack yields when its end answered `option`.
pub open spec fn end_item_of(option: Option<tun::TunPacket>) -> Result<tun::TunPacket, TunRackError> {
    match option {
        Some(packet) => Ok(packet),
        None => Err(TunRackError::SlotWorkerError(SlotWorkerError::SlotChannelClosed)),
    }
}

/// `poll_next` took a rack from `before` to `after` and returned `polled`:
/// its end target is polled first, and an answer from it is what the rack
/// yields; otherwise its workers are polled in order, and the first that has
/// ended is reported and dropped; `Pending` only when the end answered
/// pending and every worker was polled and found running.
pub open spec fn rack_polled_as(
    before: TunRack,
    after: TunRack,
    polled: Polled<Option<Result<tun::TunPacket, TunRackError>>>,
) -> bool {
    ||| exists|item: Option<tun::TunPacket>|
        {
            &&& target_polled_as(before.target(), after.target(), Polled::Ready(item))
            &&& after.workers() == before.workers()
            &&& polled == Polled::Ready(Some(end_item_of(item)))
        }
    ||| {
        &&& target_polled_as(before.target(), after.target(), Polled::Pending)
        &&& polled is Pending
        &&& after.workers() == before.workers()
        &&& forall|i: int| 0 <= i < before.workers().len() ==> worker_running(before.workers()[i])
    }
    ||| exists|ended: int, result: Result<Result<(), SlotWorkerError>, tokio::task::JoinError>|
        {
            &&& target_polled_as(before.target(), after.target(), Polled::Pending)
            &&& 0 <= ended < before.workers().len()
            &&& forall|i: int| 0 <= i < ended ==> worker_running(before.workers()[i])
            &&& worker_polled_as(before.workers()[ended], WorkerPolled::Ended(result))
            &&& after.workers() == before.workers().remove(ended)
            &&& polled == Polled::Ready(Some(Err::<tun::TunPacket, TunRackError>(exit_error_of(result))))
        }
}

/// Law of a rack's `poll_next`: it answers `Pending` only when its end was
/// polled and every channel of it answered pending, and every one of its
/// workers was polled and found running, keeping them all. When it drops a
/// worker, that worker was polled and found ended, every worker before it was
/// found running, and what it reports is that worker's exit error.
pub proof fn lemma_rack_poll_law(
    before: TunRack,
    after: TunRack,
    polled: Polled<Option<Result<tun::TunPacket, TunRackError>>>,
)
    requires
        before.target().position() < before.target().receiver_count(),
        rack_polled_as(before, after, polled),
    ensures
        polled is Pending ==> {
            &&& after.workers() == before.workers()
            &&& forall|i: int|
                0 <= i < before.workers().len() ==> worker_running(before.workers()[i])
            &&& forall|i: int|
                0 <= i < before.target().receiver_count() ==> polled_as(
                    before.target().receivers()[i],
                    Polled::Pending,
                )
        },
        after.workers().len() < before.workers().len() ==> exists|
            ended: int,
            result: Result<Result<(), SlotWorkerError>, tokio::task::JoinError>,
        |
            {
                &&& 0 <= ended < before.workers().len()
                &&& worker_polled_as(before.workers()[ended], WorkerPolled::Ended(result))
                &&& forall|i: int| 0 <= i < ended ==> worker_running(before.workers()[i])
                &&& after.workers() == before.workers().remove(ended)
                &&& polled == Polled::Ready(
                    Some(Err::<tun::TunPacket, TunRackError>(exit_error_of(result))),
                )
            },
{
    if polled is Pending {
        lemma_target_poll_law(before.target(), after.target(), Polled::Pending);
    }
}

pub fn worker_exit_error(
    result: Result<Result<(), SlotWorkerError>, tokio::task::JoinError>,
) -> (error: TunRackError)
    ensures
        error == exit_error_of(result),
        error == (match result {
            Ok(Ok(())) => TunRackError::SlotWorkerError(SlotWorkerError::SlotCrash),
            Ok(Err(e)) => TunRackError::SlotWorkerError(e),
            Err(e) => TunRackError::TokioJoinError(e),
        }),
{
    match result {
        Ok(item) => match item {
            Ok(()) => TunRackError::SlotWorkerError(SlotWorkerError::SlotCrash),
            Err(e) => TunRackError::SlotWorkerError(e),
        },
        Err(e) => TunRackError::TokioJoinError(e),
    }
}

/// Adds a link to a rack of chained slots whose end is `last_rx`: the new
/// slot takes from the old end and sends into a new channel with room for
/// `channel_size` packets, whose receiver becomes the rack's end. The result
/// is what the slot takes from and what it sends into.
pub fn chain_link(last_rx: &mut SlotReceiver, channel_size: usize) -> (link: (SlotReceiver, SlotSender))
    requires
        0 < channel_size <= usize::MAX / 8,
    ensures
        link.0 == *old(last_rx),
        same_channel(link.1, *final(last_rx)),
        sender_capacity(link.1) == channel_size,
        receiver_capacity(*final(last_rx)) == channel_size,
{
    let (slot_tx, new_last_rx) = build_tunrack_channel(channel_size);
    let mut slot_rx = new_last_rx;
    std::mem::swap(last_rx, &mut slot_rx);
    (slot_rx, slot_tx)
}

/// What a rack of chained slots reports for a slot task that ended: the
/// slot's own error, a crash if it ended without one, or why the task failed.
pub fn slot_exit_error(result: Result<Result<(), TunRackError>, tokio::task::JoinError>) -> (error: TunRackError)
    ensures
        error == (match result {
            Ok(Ok(())) => TunRackError::TunRackSlotCrash,
            Ok(Err(e)) => e,
            Err(e) => TunRackError::TokioJoinError(e),
        }),
{
    match result {
        Ok(Ok(())) => TunRackError::TunRackSlotCrash,
        Ok(Err(e)) => e,
        Err(e) => TunRackError::TokioJoinError(e),
    }
}

/// What a rack of chained slots yields from its last channel: the packet, or
/// a crash once the channel is closed.
pub fn chain_end_item(option: Option<tun::TunPacket>) -> (item: Result<tun::TunPacket, TunRackError>)
    ensures
        item == (match option {
            Some(packet) => Ok(packet),
            None => Err(TunRackError::TunRackSlotCrash),
        }),
{
    match option {
        Some(packet) => Ok(packet),
        None => Err(TunRackError::TunRackSlotCrash),
    }
}

/// What a rack reports of what its end yielded: the packet, or
/// `SlotChannelClosed` once the end has closed.
pub fn end_item(option: Option<tun::TunPacket>) -> (item: Result<tun::TunPacket, TunRackError>)
    ensures
        item == end_item_of(option),
        item == (match option {
            Some(packet) => Ok(packet),
            None => Err(TunRackError::SlotWorkerError(SlotWorkerError::SlotChannelClosed)),
        }),
{
    match option {
        Some(packet) => Ok(packet),
        None => Err(TunRackError::SlotWorkerError(SlotWorkerError::SlotChannelClosed)),
    }
}

/// A running rack: the workers of its slots, and the target at its end.
pub struct TunRack {
    handles: Vec<SlotWorkerHandle>,
    target: RotaryTarget,
}

impl TunRack {
    pub closed spec fn worker_count(self) -> nat {
        self.handles.len() as nat
    }

    pub closed spec fn target(self) -> RotaryTarget {
        self.target
    }

    /// The workers the rack still watches, in order.
    pub closed spec fn workers(self) -> Seq<SlotWorkerHandle> {
        self.handles@
    }

    pub fn new(handles: Vec<SlotWorkerHandle>, target: RotaryTarget) -> (rack: Self)
        ensures
            rack.worker_count() == handles.len(),
            rack.workers() == handles@,
            rack.target() == target,
    {
        Self { handles, target }
    }

    /// The next thing the rack has to report: a packet from its end, an error
    /// when its end has closed, or an error when a worker has ended (that
    /// worker is then dropped). Packets come first; workers are looked at in
    /// order. `Pending` when there is nothing to report; the rack never ends.
    pub fn poll_next(&mut self, cx: &mut std::task::Context<'_>) -> (polled: Polled<Option<Result<tun::TunPacket, TunRackError>>>)
        ensures
            polled matches Polled::Ready(item) ==> item is Some,
            polled matches Polled::Ready(Some(Err(e))) ==> (e is SlotWorkerError || e is TokioJoinError),
            polled matches Polled::Ready(Some(Ok(_))) ==> final(self).worker_count() == old(self).worker_count(),
            polled is Pending ==> final(self).worker_count() == old(self).worker_count(),
            final(self).worker_count() == old(self).worker_count()
                || final(self).worker_count() + 1 == old(self).worker_count(),
            final(self).worker_count() + 1 == old(self).worker_count() ==> polled matches Polled::Ready(
                Some(Err(_)),
            ),
            polled matches Polled::Ready(Some(Err(e))) ==> (final(self).worker_count()
                == old(self).worker_count() ==> e == TunRackError::SlotWorkerError(
                SlotWorkerError::SlotChannelClosed,
            )),
            final(self).target().receiver_count() == old(self).target().receiver_count(),
            forall|i: int, sender: IntraSlotSender|
                #![trigger same_channel(sender, final(self).target().receivers()[i])]
                0 <= i < final(self).target().receiver_count() ==> same_channel(
                    sender,
                    final(self).target().receivers()[i],
                ) == same_channel(sender, old(self).target().receivers()[i]),
            final(self).worker_count() == old(self).worker_count() ==> final(self).workers() == old(
                self,
            ).workers(),
            final(self).worker_count() + 1 == old(self).worker_count() ==> exists|ended: int|
                0 <= ended < old(self).worker_count() && final(self).workers() == old(
                    self,
                ).workers().remove(ended),
            rack_polled_as(*old(self), *final(self), polled),
    {
        match self.target.poll_next(cx) {
            Polled::Ready(option) => {
                proof {
                    assert(target_polled_as(old(self).target(), self.target(), Polled::Ready(option)));
                }
                return Polled::Ready(Some(end_item(option)));
            },
            Polled::Pending => {},
        }
        let ghost polled_target = self.target;
        assert(target_polled_as(old(self).target(), polled_target, Polled::Pending));
        let mut i: usize = 0;
        while i < self.handles.len()
            invariant
                i <= self.handles.len(),
                self.handles@ == old(self).handles@,
                self.target == polled_target,
                target_polled_as(old(self).target(), polled_target, Polled::Pending),
                forall|j: int| 0 <= j < i ==> worker_running(old(self).workers()[j]),
                self.target.receiver_count() == old(self).target.receiver_count(),
                forall|j: int, sender: IntraSlotSender|
                    #![trigger same_channel(sender, self.target.receivers()[j])]
                    0 <= j < self.target.receiver_count() ==> same_channel(
                        sender,
                        self.target.receivers()[j],
                    ) == same_channel(sender, old(self).target.receivers()[j]),
            decreases self.handles.len() - i,
        {
            let ghost held = self.handles@;
            let worker = self.handles.remove(i);
            let ghost polled_worker = worker;
            let outcome = poll_worker(worker, cx);
            proof {
                assert(polled_worker == old(self).workers()[i as int]);
                assert(exists|c: &mut std::task::Context<'_>| call_ensures(poll_worker, (polled_worker, c), outcome));
                lemma_worker_polled(polled_worker, outcome);
            }
            match outcome {
                WorkerPolled::Ended(result) => {
                    assert(self.handles@ =~= old(self).handles@.remove(i as int));
                    assert(old(self).workers().remove(i as int) == self.handles@);
                    return Polled::Ready(Some(Err(worker_exit_error(result))));
                },
                WorkerPolled::Running(worker) => {
                    proof {
                        assert(worker_running(old(self).workers()[i as int]));
                    }
                    self.handles.insert(i, worker);
                    assert(self.handles@ =~= held);
                },
            }
            i += 1;
        }
        Polled::Pending
    }
}

} // verus!

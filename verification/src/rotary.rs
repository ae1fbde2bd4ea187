use vstd::prelude::*;

use crate::task::Polled;

verus! {

/// The sending half of a bounded channel.
#[verifier::external_type_specification]
#[verifier::external_body]
#[verifier::reject_recursive_types(T)]
pub struct ExSender<T>(tokio::sync::mpsc::Sender<T>);

/// The receiving half of a bounded channel.
#[verifier::external_type_specification]
#[verifier::external_body]
#[verifier::reject_recursive_types(T)]
pub struct ExReceiver<T>(tokio::sync::mpsc::Receiver<T>);

/// A list with at least one element.
#[verifier::external_type_specification]
#[verifier::external_body]
#[verifier::reject_recursive_types(T)]
pub struct ExNonEmpty<T>(nonempty::NonEmpty<T>);

pub type IntraSlotSender = tokio::sync::mpsc::Sender<tun::TunPacket>;

pub type IntraSlotReceiver = tokio::sync::mpsc::Receiver<tun::TunPacket>;

/// The senders that a non-empty list of senders holds, in order.
pub uninterp spec fn sender_list(list: nonempty::NonEmpty<IntraSlotSender>) -> Seq<IntraSlotSender>;

/// The receivers that a non-empty list of receivers holds, in order.
pub uninterp spec fn receiver_list(list: nonempty::NonEmpty<IntraSlotReceiver>) -> Seq<IntraSlotReceiver>;

/// What `Sender::max_capacity` returns: the bound the sender's channel was
/// made with, which never changes.
pub uninterp spec fn sender_capacity(sender: IntraSlotSender) -> nat;

/// What `Receiver::max_capacity` returns: the bound the receiver's channel was
/// made with, which never changes.
pub uninterp spec fn receiver_capacity(receiver: IntraSlotReceiver) -> nat;

/// Whether `sender` and `receiver` are the two ends of one channel, so that
/// what the sender puts in is what the receiver takes out. Both handles hold
/// the channel they belong to, and never change it.
pub uninterp spec fn same_channel(sender: IntraSlotSender, receiver: IntraSlotReceiver) -> bool;

/// Wraps `tokio::sync::mpsc::channel`, which makes a bounded channel with room
/// for `channel_size` packets and hands out its two ends: both report that
/// bound as their `max_capacity`. It panics on a size of 0 and on one above
/// the semaphore's maximum (`usize::MAX >> 3`, that is `usize::MAX / 8`), so
/// those sizes are left out. That no other handle is on the new channel is not
/// stated.
#[verifier::external_body]
pub fn build_single_channel(channel_size: usize) -> (channel: (IntraSlotSender, IntraSlotReceiver))
    requires
        0 < channel_size <= usize::MAX / 8,
    ensures
        sender_capacity(channel.0) == channel_size,
        receiver_capacity(channel.1) == channel_size,
        same_channel(channel.0, channel.1),
{
    tokio::sync::mpsc::channel(channel_size)
}

/// Wraps `Sender::clone`: a second handle on the same channel, so with the
/// same bound and the same receiving end.
#[verifier::external_body]
pub(crate) fn sender_clone(sender: &IntraSlotSender) -> (copy: IntraSlotSender)
    ensures
        sender_capacity(copy) == sender_capacity(*sender),
        forall|receiver: IntraSlotReceiver|
            #![trigger same_channel(copy, receiver)]
            #![trigger same_channel(*sender, receiver)]
            same_channel(copy, receiver) == same_channel(*sender, receiver),
{
    sender.clone()
}

/// Wraps `NonEmpty::new`, which makes the list of the one element given.
#[verifier::external_body]
pub(crate) fn sender_list_new(sender: IntraSlotSender) -> (list: nonempty::NonEmpty<IntraSlotSender>)
    ensures
        sender_list(list) == seq![sender],
{
    nonempty::NonEmpty::new(sender)
}

/// Wraps `NonEmpty::from_vec`, which is `None` on an empty vector and otherwise
/// holds the vector's elements in order.
#[verifier::external_body]
pub(crate) fn sender_list_from_vec(senders: Vec<IntraSlotSender>) -> (list: Option<nonempty::NonEmpty<IntraSlotSender>>)
    ensures
        list is None <==> senders.len() == 0,
        list matches Some(l) ==> sender_list(l) == senders@,
{
    nonempty::NonEmpty::from_vec(senders)
}

/// Wraps `NonEmpty::get`: the element at `index`, if there is one.
#[verifier::external_body]
pub(crate) fn sender_list_get(list: &nonempty::NonEmpty<IntraSlotSender>, index: usize) -> (sender: Option<&IntraSlotSender>)
    ensures
        sender is Some <==> index < sender_list(*list).len(),
        sender matches Some(s) ==> *s == sender_list(*list)[index as int],
{
    list.get(index)
}

/// Wraps `NonEmpty::len`, the number of elements: the tail's length plus one,
/// so never 0.
#[verifier::external_body]
pub(crate) fn sender_list_len(list: &nonempty::NonEmpty<IntraSlotSender>) -> (len: usize)
    ensures
        len == sender_list(*list).len(),
        len >= 1,
{
    list.len()
}

/// Wraps `NonEmpty::clone`, which clones each sender in turn: as many
/// senders, each on the channel of the one it was cloned from (so with its
/// bound and its receiving end).
#[verifier::external_body]
pub(crate) fn sender_list_clone(list: &nonempty::NonEmpty<IntraSlotSender>) -> (copy: nonempty::NonEmpty<IntraSlotSender>)
    ensures
        sender_list(copy).len() == sender_list(*list).len(),
        forall|i: int|
            #![trigger sender_list(copy)[i]]
            0 <= i < sender_list(copy).len() ==> sender_capacity(sender_list(copy)[i])
                == sender_capacity(sender_list(*list)[i]),
        forall|i: int, receiver: IntraSlotReceiver|
            #![trigger same_channel(sender_list(copy)[i], receiver)]
            0 <= i < sender_list(copy).len() ==> same_channel(sender_list(copy)[i], receiver)
                == same_channel(sender_list(*list)[i], receiver),
{
    list.clone()
}

/// Wraps `NonEmpty::new` for a receiver.
#[verifier::external_body]
pub(crate) fn receiver_list_new(receiver: IntraSlotReceiver) -> (list: nonempty::NonEmpty<IntraSlotReceiver>)
    ensures
        receiver_list(list) == seq![receiver],
{
    nonempty::NonEmpty::new(receiver)
}

/// Wraps `Vec::from(NonEmpty)`, which lists the head and then the tail.
#[verifier::external_body]
pub(crate) fn receiver_list_into_vec(list: nonempty::NonEmpty<IntraSlotReceiver>) -> (receivers: Vec<IntraSlotReceiver>)
    ensures
        receivers@ == receiver_list(list),
        receivers.len() >= 1,
{
    list.into()
}

/// What one `try_send` came to.
pub enum TrySent {
    /// The packet is in the channel.
    Sent,
    /// The channel had no room; the packet comes back.
    Full(tun::TunPacket),
    /// The channel's receiver is gone; the packet comes back.
    Closed(tun::TunPacket),
}

/// Wraps `Sender::try_send`, which either puts the packet in the channel at
/// once or hands it back in `Full` (no room) or `Closed` (no receiver). Which
/// of the three it is depends on the channel's state and is not stated; the
/// packet handed back is the one given.
#[verifier::external_body]
pub(crate) fn try_send(sender: &IntraSlotSender, packet: tun::TunPacket) -> (sent: TrySent)
    ensures
        sent matches TrySent::Full(p) ==> p == packet,
        sent matches TrySent::Closed(p) ==> p == packet,
{
    match sender.try_send(packet) {
        Ok(()) => TrySent::Sent,
        Err(tokio::sync::mpsc::error::TrySendError::Full(p)) => TrySent::Full(p),
        Err(tokio::sync::mpsc::error::TrySendError::Closed(p)) => TrySent::Closed(p),
    }
}

/// Wraps `Receiver::poll_recv`: a packet, `None` once the channel is closed and
/// empty, or nothing yet. Which it is depends on the channel and is not stated;
/// the receiver stays on its channel, with its bound.
#[verifier::external_body]
pub(crate) fn poll_recv(receiver: &mut IntraSlotReceiver, cx: &mut std::task::Context<'_>) -> (polled: Polled<Option<tun::TunPacket>>)
    ensures
        receiver_capacity(*final(receiver)) == receiver_capacity(*old(receiver)),
        forall|sender: IntraSlotSender|
            #![trigger same_channel(sender, *final(receiver))]
            same_channel(sender, *final(receiver)) == same_channel(sender, *old(receiver)),
{
    match receiver.poll_recv(cx) {
        std::task::Poll::Ready(p) => Polled::Ready(p),
        std::task::Poll::Pending => Polled::Pending,
    }
}

#[derive(Debug)]
pub enum RotaryCanonError {
    ChannelClosed,
}

/// What one attempt of a canon came to, as far as the rotation is concerned.
pub enum Attempt {
    Sent,
    Full,
    Closed,
}

/// `attempts` is a run of `fire` over `len` channels: every attempt but the
/// last found its channel full, and a run that ends on a full channel has
/// tried every channel once.
pub open spec fn is_fire_run(len: nat, attempts: Seq<Attempt>) -> bool {
    &&& 1 <= attempts.len() <= len
    &&& forall|j: int| 0 <= j < attempts.len() - 1 ==> attempts[j] is Full
    &&& attempts.last() is Full ==> attempts.len() == len
}

/// What `fire` returns after the run `attempts`.
pub open spec fn fire_result(attempts: Seq<Attempt>) -> Result<bool, RotaryCanonError> {
    match attempts.last() {
        Attempt::Sent => Ok(true),
        Attempt::Full => Ok(false),
        Attempt::Closed => Err(RotaryCanonError::ChannelClosed),
    }
}

/// The channel `steps` places on from `start` in a ring of `len` channels.
pub open spec fn rotated(start: nat, steps: nat, len: nat) -> nat {
    (start + steps) % len
}

/// Where the canon points after the run `attempts` that started at `start`:
/// at the channel that took the packet or was closed, or back at the start
/// when all were full.
pub open spec fn fire_index(start: nat, len: nat, attempts: Seq<Attempt>) -> nat {
    if attempts.last() is Full {
        start
    } else {
        rotated(start, (attempts.len() - 1) as nat, len)
    }
}

/// The attempt that an answer of `try_send` stands for.
pub open spec fn attempt_of(sent: TrySent) -> Attempt {
    match sent {
        TrySent::Sent => Attempt::Sent,
        TrySent::Full(_) => Attempt::Full,
        TrySent::Closed(_) => Attempt::Closed,
    }
}

/// Offering `packet` to the channel of `sender` was answered with `attempt`:
/// a call of `try_send` on them returned it.
pub closed spec fn answered(sender: IntraSlotSender, packet: tun::TunPacket, attempt: Attempt) -> bool {
    exists|sent: TrySent| call_ensures(try_send, (&sender, packet), sent) && attempt_of(sent) == attempt
}

/// The attempts of a canon over `senders` that pointed at `start`, firing
/// `packet`: attempt `k` offered the packet to the channel `k` places on from
/// `start`, and was answered so.
pub open spec fn offered_in_turn(
    senders: Seq<IntraSlotSender>,
    start: nat,
    packet: tun::TunPacket,
    attempts: Seq<Attempt>,
) -> bool {
    forall|k: int|
        #![trigger attempts[k]]
        0 <= k < attempts.len() ==> answered(
            senders[rotated(start, k as nat, senders.len()) as int],
            packet,
            attempts[k],
        )
}

/// `fire` of `packet` took the canon from `before` to `after` and returned
/// `fired`: the canon keeps its channels and stays within them, records the
/// packet, and there is a run of attempts, each the answer of the channel it
/// was offered to in turn from where the canon pointed, that gives the
/// result and the new position.
pub open spec fn fired_as(
    before: RotaryCanon,
    after: RotaryCanon,
    packet: tun::TunPacket,
    fired: Result<bool, RotaryCanonError>,
) -> bool {
    &&& after.senders() == before.senders()
    &&& after.position() < after.senders().len()
    &&& after.fired_packets() == before.fired_packets().push(packet)
    &&& exists|attempts: Seq<Attempt>|
        #![trigger is_fire_run(before.senders().len(), attempts)]
        {
            &&& is_fire_run(before.senders().len(), attempts)
            &&& fired == fire_result(attempts)
            &&& after.position() == fire_index(before.position(), before.senders().len(), attempts)
            &&& offered_in_turn(before.senders(), before.position(), packet, attempts)
        }
}

/// Every channel of a ring of `len` is some number of places on from
/// `start`, fewer than `len`.
pub proof fn lemma_rotation_reaches(start: nat, j: nat, len: nat)
    requires
        start < len,
        j < len,
    ensures
        ({
            let k = if j >= start {
                (j - start) as nat
            } else {
                (j + len - start) as nat
            };
            k < len && rotated(start, k, len) == j
        }),
{
    if j >= start {
        vstd::arithmetic::div_mod::lemma_small_mod(j, len);
    } else {
        vstd::arithmetic::div_mod::lemma_mod_sub_multiples_vanish(j as int + len, len as int);
        vstd::arithmetic::div_mod::lemma_small_mod(j, len);
        assert(((j + len) as int) % (len as int) == j);
    }
}

/// One place on from `start` in a ring of `len`, fewer than `len` places: no
/// wrapping past the end, or one.
pub proof fn lemma_rotated_value(start: nat, steps: nat, len: nat)
    requires
        start < len,
        steps < len,
    ensures
        rotated(start, steps, len) == if start + steps < len {
            (start + steps) as int
        } else {
            start + steps - len
        },
{
    if start + steps < len {
        vstd::arithmetic::div_mod::lemma_small_mod(start + steps, len);
    } else {
        vstd::arithmetic::div_mod::lemma_mod_sub_multiples_vanish((start + steps) as int, len as int);
        vstd::arithmetic::div_mod::lemma_small_mod((start + steps - len) as nat, len);
    }
}

/// Polling the channel of `receiver` was answered with `polled`: a call of
/// `poll_recv` on it returned it.
pub closed spec fn polled_as(receiver: IntraSlotReceiver, polled: Polled<Option<tun::TunPacket>>) -> bool {
    exists|r: &mut IntraSlotReceiver, cx: &mut std::task::Context<'_>|
        *r == receiver && call_ensures(poll_recv, (r, cx), polled)
}

/// `poll_next` took a target from `before` to `after` and returned `polled`:
/// its channels were polled in turn from where it pointed; when one was
/// ready, its answer is the result and the target points past it; when none
/// was, every channel was polled and answered pending, and the target points
/// where it did.
pub open spec fn target_polled_as(
    before: RotaryTarget,
    after: RotaryTarget,
    polled: Polled<Option<tun::TunPacket>>,
) -> bool {
    let len = before.receiver_count();
    &&& after.receiver_count() == len
    &&& match polled {
        Polled::Pending => {
            &&& after.position() == before.position()
            &&& forall|i: int| 0 <= i < len ==> polled_as(before.receivers()[i], Polled::Pending)
        },
        Polled::Ready(item) => exists|offset: nat|
            {
                &&& offset < len
                &&& after.position() == rotated(before.position(), offset + 1, len)
                &&& polled_as(
                    before.receivers()[rotated(before.position(), offset, len) as int],
                    Polled::Ready(item),
                )
                &&& forall|d: nat|
                    d < offset ==> polled_as(
                        before.receivers()[rotated(before.position(), d, len) as int],
                        Polled::Pending,
                    )
            },
    }
}

/// Law of a target's `poll_next`: it answers `Pending` only after polling
/// every one of its channels and hearing pending from each, and it stays where
/// it pointed; when it answers with an item, that is the answer of one of its
/// channels, `m` places on from where it pointed, every channel before that
/// one answered pending, and it now points at the channel after that one.
pub proof fn lemma_target_poll_law(
    before: RotaryTarget,
    after: RotaryTarget,
    polled: Polled<Option<tun::TunPacket>>,
)
    requires
        before.position() < before.receiver_count(),
        target_polled_as(before, after, polled),
    ensures
        polled is Pending ==> {
            &&& after.position() == before.position()
            &&& forall|i: int|
                0 <= i < before.receiver_count() ==> polled_as(before.receivers()[i], Polled::Pending)
        },
        polled matches Polled::Ready(item) ==> exists|m: nat|
            #![trigger rotated(before.position(), m, before.receiver_count())]
            {
                let len = before.receiver_count();
                let j = rotated(before.position(), m, len) as int;
                &&& m < len
                &&& polled_as(before.receivers()[j], Polled::Ready(item))
                &&& after.position() == (j + 1) % (len as int)
                &&& forall|d: nat|
                    d < m ==> polled_as(
                        before.receivers()[rotated(before.position(), d, len) as int],
                        Polled::Pending,
                    )
            },
{
    let len = before.receiver_count();
    let start = before.position();
    if let Polled::Ready(item) = polled {
        let offset = choose|offset: nat|
            {
                &&& offset < len
                &&& after.position() == rotated(start, offset + 1, len)
                &&& polled_as(before.receivers()[rotated(start, offset, len) as int], Polled::Ready(item))
                &&& forall|d: nat|
                    d < offset ==> polled_as(
                        before.receivers()[rotated(start, d, len) as int],
                        Polled::Pending,
                    )
            };
        lemma_mod_step(start as int, offset as int, len as int);
        assert(after.position() == ((rotated(start, offset, len) + 1) as int) % (len as int));
    }
}

/// Law of `fire`: a packet it drops was offered to every channel of the
/// canon, and each answered that it was full, and the canon is back where it
/// pointed; a packet it reports sent was taken by the channel the canon now
/// points at, after every channel from where it pointed up to that one
/// answered full; an error is the answer of a closed channel, the one the
/// canon now points at, after the same full ones.
pub proof fn lemma_fire_law(
    before: RotaryCanon,
    after: RotaryCanon,
    packet: tun::TunPacket,
    fired: Result<bool, RotaryCanonError>,
)
    requires
        before.position() < before.senders().len(),
        fired_as(before, after, packet, fired),
    ensures
        fired == Ok::<bool, RotaryCanonError>(false) ==> {
            &&& after.position() == before.position()
            &&& forall|j: int|
                0 <= j < before.senders().len() ==> answered(
                    before.senders()[j],
                    packet,
                    Attempt::Full,
                )
        },
        fired != Ok::<bool, RotaryCanonError>(false) ==> exists|m: nat|
            {
                &&& m < before.senders().len()
                &&& after.position() == rotated(before.position(), m, before.senders().len())
                &&& forall|k: nat|
                    k < m ==> answered(
                        before.senders()[rotated(before.position(), k, before.senders().len()) as int],
                        packet,
                        Attempt::Full,
                    )
                &&& answered(
                    before.senders()[after.position() as int],
                    packet,
                    if fired is Ok {
                        Attempt::Sent
                    } else {
                        Attempt::Closed
                    },
                )
            },
{
    let len = before.senders().len();
    let start = before.position();
    let attempts = choose|attempts: Seq<Attempt>|
        #![trigger is_fire_run(len, attempts)]
        {
            &&& is_fire_run(len, attempts)
            &&& fired == fire_result(attempts)
            &&& after.position() == fire_index(start, len, attempts)
            &&& offered_in_turn(before.senders(), start, packet, attempts)
        };
    let n = attempts.len();
    if fired == Ok::<bool, RotaryCanonError>(false) {
        assert(attempts.last() is Full);
        assert forall|j: int| 0 <= j < len implies answered(before.senders()[j], packet, Attempt::Full) by {
            lemma_rotation_reaches(start, j as nat, len);
            let k: int = if j >= start {
                j - start
            } else {
                j + len - start
            };
            assert(attempts[k] is Full);
            assert(answered(before.senders()[rotated(start, k as nat, len) as int], packet, attempts[k]));
        }
    } else {
        let m = (n - 1) as nat;
        assert(!(attempts.last() is Full));
        assert forall|k: nat| k < m implies answered(
            before.senders()[rotated(start, k, len) as int],
            packet,
            Attempt::Full,
        ) by {
            assert(attempts[k as int] is Full);
            assert(answered(before.senders()[rotated(start, k, len) as int], packet, attempts[k as int]));
        }
        assert(answered(before.senders()[rotated(start, m, len) as int], packet, attempts[m as int]));
    }
}

/// A fire that drops its packet leaves the canon where it was, and every
/// fire leaves it on one of its channels.
pub proof fn lemma_fire_position(start: nat, len: nat, attempts: Seq<Attempt>)
    requires
        start < len,
        is_fire_run(len, attempts),
    ensures
        fire_index(start, len, attempts) < len,
        fire_result(attempts) == Ok::<bool, RotaryCanonError>(false) ==> fire_index(
            start,
            len,
            attempts,
        ) == start,
        fire_result(attempts) == Ok::<bool, RotaryCanonError>(true) ==> fire_index(
            start,
            len,
            attempts,
        ) == rotated(start, (attempts.len() - 1) as nat, len),
{
}

/// Hands packets to a set of channels in turn, moving on from a channel only
/// when it is full.
pub struct RotaryCanon {
    canons: nonempty::NonEmpty<IntraSlotSender>,
    index: usize,
    fired: Ghost<Seq<tun::TunPacket>>,
}

impl RotaryCanon {
    #[verifier::type_invariant]
    spec fn inv(self) -> bool {
        self.index < sender_list(self.canons).len()
    }

    /// The channels this canon fires into, in order.
    pub closed spec fn senders(self) -> Seq<IntraSlotSender> {
        sender_list(self.canons)
    }

    /// The channel the next packet is tried on first.
    pub closed spec fn position(self) -> nat {
        self.index as nat
    }

    /// The packets handed to this canon to fire, in order.
    pub closed spec fn fired_packets(self) -> Seq<tun::TunPacket> {
        self.fired@
    }

    pub fn new(canons: nonempty::NonEmpty<IntraSlotSender>) -> (canon: Self)
        ensures
            canon.senders() == sender_list(canons),
            canon.position() == 0,
            canon.position() < canon.senders().len(),
            canon.fired_packets() == Seq::<tun::TunPacket>::empty(),
    {
        let _ = sender_list_len(&canons);
        Self { canons, index: 0, fired: Ghost(Seq::empty()) }
    }

    /// Tries the channels in turn from the current one: the first that has
    /// room takes the packet (`Ok(true)`) and stays current; a closed one ends
    /// the attempt (`Err`); when every channel is full, the packet is dropped
    /// (`Ok(false)`) and the current channel is where it was.
    pub fn fire(&mut self, packet: tun::TunPacket) -> (fired: Result<bool, RotaryCanonError>)
        ensures
            final(self).senders() == old(self).senders(),
            final(self).position() < final(self).senders().len(),
            final(self).fired_packets() == old(self).fired_packets().push(packet),
            exists|attempts: Seq<Attempt>|
                #![trigger is_fire_run(old(self).senders().len(), attempts)]
                {
                    &&& is_fire_run(old(self).senders().len(), attempts)
                    &&& fired == fire_result(attempts)
                    &&& final(self).position() == fire_index(
                        old(self).position(),
                        old(self).senders().len(),
                        attempts,
                    )
                },
            fired_as(*old(self), *final(self), packet, fired),
    {
        proof {
            use_type_invariant(&*self);
        }
        let ghost start = self.index as nat;
        let ghost len = sender_list(self.canons).len();
        let ghost given = packet;
        let mut pending = packet;
        let index_start = self.index;
        let canon_count = sender_list_len(&self.canons);
        let ghost mut attempts: Seq<Attempt> = Seq::empty();
        proof {
            vstd::arithmetic::div_mod::lemma_small_mod(start, len);
        }
        loop
            invariant
                self.canons == old(self).canons,
                self.fired@ == old(self).fired@,
                given == packet,
                pending == given,
                offered_in_turn(old(self).senders(), start, given, attempts),
                start == old(self).index,
                start < len,
                index_start == start,
                len == sender_list(self.canons).len(),
                canon_count == len,
                self.index < len,
                attempts.len() < len,
                self.index == (start as int + attempts.len()) % (len as int),
                forall|j: int| 0 <= j < attempts.len() ==> attempts[j] is Full,
            decreases len - attempts.len(),
        {
            let canon = sender_list_get(&self.canons, self.index).unwrap();
            let sent = try_send(canon, pending);
            proof {
                assert(answered(old(self).senders()[self.index as int], given, attempt_of(sent)));
            }
            let (outcome, returned) = match sent {
                TrySent::Sent => (Attempt::Sent, None),
                TrySent::Closed(_) => (Attempt::Closed, None),
                TrySent::Full(p) => (Attempt::Full, Some(p)),
            };
            let (next, done) = fire_step(self.index, index_start, canon_count, &outcome);
            self.index = next;
            proof {
                let k = attempts.len();
                let before_attempts = attempts;
                attempts = attempts.push(outcome);
                assert forall|j: int| #![trigger attempts[j]] 0 <= j < attempts.len() implies answered(
                    old(self).senders()[rotated(start, j as nat, len) as int],
                    given,
                    attempts[j],
                ) by {
                    if j < k {
                        assert(attempts[j] == before_attempts[j]);
                    }
                }
                if outcome is Full {
                    assert(self.index == (start as int + k + 1) % (len as int)) by {
                        lemma_mod_step(start as int, k as int, len as int);
                    }
                }
            }
            match done {
                Some(fired) => {
                    proof {
                        if outcome is Full {
                            lemma_mod_back_to_start(start as int, attempts.len() as int, len as int);
                        }
                        assert(is_fire_run(len, attempts));
                        assert(fire_index(start, len, attempts) == self.index);
                        assert(fire_result(attempts) == fired);
                        assert(is_fire_run(old(self).senders().len(), attempts));
                    }
                    self.fired = Ghost(self.fired@.push(given));
                    return fired;
                },
                None => {},
            }
            pending = returned.unwrap();
            proof {
                if attempts.len() == len {
                    vstd::arithmetic::div_mod::lemma_mod_add_multiples_vanish(start as int, len as int);
                    vstd::arithmetic::div_mod::lemma_small_mod(start, len);
                }
            }
        }
    }
}

/// One step of `fire`: after an attempt on channel `index` of `len` channels,
/// in a turn that began at `start`, where the canon points next and whether
/// the turn is over. A channel that took the packet, or was closed, ends the
/// turn there; a full one moves the canon on, and ends the turn (the packet
/// dropped) when that brings it back to `start`.
pub fn fire_step(index: usize, start: usize, len: usize, outcome: &Attempt) -> (step: (usize, Option<Result<bool, RotaryCanonError>>))
    requires
        index < len,
        start < len,
    ensures
        match outcome {
            Attempt::Sent => step == (index, Some(Ok::<bool, RotaryCanonError>(true))),
            Attempt::Closed => step == (index, Some(Err::<bool, RotaryCanonError>(RotaryCanonError::ChannelClosed))),
            Attempt::Full => {
                &&& step.0 == (index + 1) % (len as int)
                &&& step.1 == if step.0 == start {
                    Some(Ok::<bool, RotaryCanonError>(false))
                } else {
                    None
                }
            },
        },
{
    match outcome {
        Attempt::Sent => (index, Some(Ok(true))),
        Attempt::Closed => (index, Some(Err(RotaryCanonError::ChannelClosed))),
        Attempt::Full => {
            let next = (index + 1) % len;
            if next == start {
                (next, Some(Ok(false)))
            } else {
                (next, None)
            }
        },
    }
}

/// One step of a target's poll: after polling channel `current` of `len`, a
/// ready channel ends the poll with what it gave, and the channel after it
/// becomes current; a pending one lets the poll go on.
pub fn poll_step(current: usize, len: usize, polled: Polled<Option<tun::TunPacket>>) -> (step: Option<(usize, Option<tun::TunPacket>)>)
    requires
        current < len,
    ensures
        match polled {
            Polled::Ready(item) => step == Some((((current + 1) % (len as int)) as usize, item)),
            Polled::Pending => step is None,
        },
{
    match polled {
        Polled::Ready(item) => Some(((current + 1) % len, item)),
        Polled::Pending => None,
    }
}

/// Stepping once past `(start + k) % len` lands on `(start + k + 1) % len`.
proof fn lemma_mod_step(start: int, k: int, len: int)
    requires
        0 <= start < len,
        0 <= k,
    ensures
        ((start + k) % len + 1) % len == (start + k + 1) % len,
{
    vstd::arithmetic::div_mod::lemma_add_mod_noop(start + k, 1, len);
    vstd::arithmetic::div_mod::lemma_mod_twice(start + k, len);
    if len > 1 {
        vstd::arithmetic::div_mod::lemma_small_mod(1nat, len as nat);
    }
}

/// After `k` steps (`1 <= k <= len`) a rotation is back at its start only when
/// it has made a full turn.
proof fn lemma_mod_back_to_start(start: int, k: int, len: int)
    requires
        0 <= start < len,
        1 <= k <= len,
        (start + k) % len == start,
    ensures
        k == len,
{
    if k < len {
        if start + k < len {
            vstd::arithmetic::div_mod::lemma_small_mod((start + k) as nat, len as nat);
        } else {
            vstd::arithmetic::div_mod::lemma_mod_sub_multiples_vanish(start + k, len);
            vstd::arithmetic::div_mod::lemma_small_mod((start + k - len) as nat, len as nat);
        }
    }
}

impl Clone for RotaryCanon {
    /// A second canon on the same channels, pointing where this one points,
    /// with nothing fired through it yet.
    fn clone(&self) -> (copy: Self)
        ensures
            cloned_canon(copy, *self),
    {
        proof {
            use_type_invariant(self);
        }
        Self { canons: sender_list_clone(&self.canons), index: self.index, fired: Ghost(Seq::empty()) }
    }
}

/// `copy` is a clone of `original`: as many senders, each on the channel of
/// the one it was cloned from and with its bound, pointing where `original`
/// points, within its channels, and with nothing fired through it yet.
pub open spec fn cloned_canon(copy: RotaryCanon, original: RotaryCanon) -> bool {
    &&& copy.senders().len() == original.senders().len()
    &&& copy.position() == original.position()
    &&& copy.position() < copy.senders().len()
    &&& copy.fired_packets() == Seq::<tun::TunPacket>::empty()
    &&& forall|i: int|
        #![trigger copy.senders()[i]]
        0 <= i < copy.senders().len() ==> sender_capacity(copy.senders()[i]) == sender_capacity(
            original.senders()[i],
        )
    &&& forall|i: int, receiver: IntraSlotReceiver|
        #![trigger same_channel(copy.senders()[i], receiver)]
        0 <= i < copy.senders().len() ==> same_channel(copy.senders()[i], receiver)
            == same_channel(original.senders()[i], receiver)
}

/// Takes packets from a set of channels in turn, moving past a channel once
/// it has yielded.
pub struct RotaryTarget {
    targets: Vec<IntraSlotReceiver>,
    index: usize,
}

impl RotaryTarget {
    #[verifier::type_invariant]
    spec fn inv(self) -> bool {
        self.index < self.targets.len()
    }

    /// The receivers this target takes from, in turn.
    pub closed spec fn receivers(self) -> Seq<IntraSlotReceiver> {
        self.targets@
    }

    /// How many channels this target takes from.
    pub open spec fn receiver_count(self) -> nat {
        self.receivers().len()
    }

    /// The channel that is polled first next time.
    pub closed spec fn position(self) -> nat {
        self.index as nat
    }

    pub fn new(targets: nonempty::NonEmpty<IntraSlotReceiver>) -> (target: Self)
        ensures
            target.receivers() == receiver_list(targets),
            target.position() == 0,
    {
        Self { targets: receiver_list_into_vec(targets), index: 0 }
    }

    /// Polls the channels in turn from the current one. The first that is
    /// ready gives the result, and the channel after it becomes current; when
    /// none is ready, the result is `Pending` and the current channel stays.
    pub fn poll_next(&mut self, cx: &mut std::task::Context<'_>) -> (polled: Polled<Option<tun::TunPacket>>)
        ensures
            final(self).receiver_count() == old(self).receiver_count(),
            forall|i: int|
                #![trigger final(self).receivers()[i]]
                0 <= i < final(self).receiver_count() ==> receiver_capacity(final(self).receivers()[i])
                    == receiver_capacity(old(self).receivers()[i]),
            forall|i: int, sender: IntraSlotSender|
                #![trigger same_channel(sender, final(self).receivers()[i])]
                0 <= i < final(self).receiver_count() ==> same_channel(sender, final(self).receivers()[i])
                    == same_channel(sender, old(self).receivers()[i]),
            polled is Pending ==> final(self).position() == old(self).position(),
            polled is Ready ==> exists|offset: nat|
                #![trigger rotated(old(self).position(), offset + 1, old(self).receiver_count())]
                offset < old(self).receiver_count() && final(self).position() == rotated(
                    old(self).position(),
                    offset + 1,
                    old(self).receiver_count(),
                ),
            target_polled_as(*old(self), *final(self), polled),
    {
        proof {
            use_type_invariant(&*self);
        }
        let len = self.targets.len();
        let index = self.index;
        let mut offset: usize = 0;
        while offset < len
            invariant
                len == self.targets.len(),
                len == old(self).targets.len(),
                index == self.index,
                index == old(self).index,
                index < len,
                offset <= len,
                forall|i: int|
                    #![trigger self.targets@[i]]
                    0 <= i < len ==> receiver_capacity(self.targets@[i]) == receiver_capacity(
                        old(self).targets@[i],
                    ),
                forall|i: int, sender: IntraSlotSender|
                    #![trigger same_channel(sender, self.targets@[i])]
                    0 <= i < len ==> same_channel(sender, self.targets@[i]) == same_channel(
                        sender,
                        old(self).targets@[i],
                    ),
                forall|d: nat|
                    offset <= d < len ==> self.targets@[rotated(index as nat, d, len as nat) as int]
                        == old(self).targets@[rotated(index as nat, d, len as nat) as int],
                forall|d: nat|
                    d < offset ==> polled_as(
                        old(self).targets@[rotated(index as nat, d, len as nat) as int],
                        Polled::Pending,
                    ),
            decreases len - offset,
        {
            let current = if offset < len - index {
                index + offset
            } else {
                offset - (len - index)
            };
            proof {
                if offset < len - index {
                    vstd::arithmetic::div_mod::lemma_small_mod((index + offset) as nat, len as nat);
                } else {
                    vstd::arithmetic::div_mod::lemma_mod_sub_multiples_vanish(index + offset, len as int);
                    vstd::arithmetic::div_mod::lemma_small_mod((index + offset - len) as nat, len as nat);
                }
                assert(current == (index + offset) % (len as int));
            }
            let ghost was = self.targets@;
            proof {
                assert(rotated(index as nat, offset as nat, len as nat) == current);
                assert(self.targets@[rotated(index as nat, offset as nat, len as nat) as int]
                    == old(self).targets@[rotated(index as nat, offset as nat, len as nat) as int]);
                assert(was[current as int] == old(self).targets@[current as int]);
            }
            let polled = poll_recv(&mut self.targets[current], cx);
            proof {
                assert(polled_as(old(self).targets@[current as int], polled));
                assert forall|d: nat| offset + 1 <= d < len implies self.targets@[rotated(
                    index as nat,
                    d,
                    len as nat,
                ) as int] == old(self).targets@[rotated(index as nat, d, len as nat) as int] by {
                    lemma_rotated_value(index as nat, d, len as nat);
                    lemma_rotated_value(index as nat, offset as nat, len as nat);
                    assert(was[rotated(index as nat, d, len as nat) as int] == old(self).targets@[rotated(index as nat, d, len as nat) as int]);
                }
            }
            match poll_step(current, len, polled) {
                Some((next, packet)) => {
                    proof {
                        lemma_mod_step(index as int, offset as int, len as int);
                        assert(next == rotated(index as nat, (offset + 1) as nat, len as nat));
                    }
                    self.index = next;
                    proof {
                        assert(polled == Polled::Ready(packet));
                        assert(rotated(index as nat, offset as nat, len as nat) == current);
                        assert(polled_as(
                            old(self).receivers()[rotated(old(self).position(), offset as nat, len as nat) as int],
                            Polled::Ready(packet),
                        ));
                    }
                    assert(self.position() == rotated(
                        old(self).position(),
                        (offset + 1) as nat,
                        old(self).receiver_count(),
                    ));
                    return Polled::Ready(packet);
                },
                None => {},
            }
            proof {
                assert forall|d: nat| d < offset + 1 implies polled_as(
                    old(self).targets@[rotated(index as nat, d, len as nat) as int],
                    Polled::Pending,
                ) by {
                    if d == offset {
                        assert(polled is Pending);
                    }
                }
            }
            offset += 1;
        }
        proof {
            assert forall|i: int| 0 <= i < len implies polled_as(old(self).receivers()[i], Polled::Pending) by {
                lemma_rotation_reaches(index as nat, i as nat, len as nat);
            }
        }
        Polled::Pending
    }
}

} // verus!

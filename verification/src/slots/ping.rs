use vstd::prelude::*;

use packet::builder::Builder as _;
use packet::Packet as _;

use crate::packet::{tun_packet_bytes, tun_packet_get_bytes, tun_packet_new};

verus! {

/// The parts of an IPv4 packet that an echo reply needs.
pub struct Ipv4Parts {
    pub source: [u8; 4],
    pub destination: [u8; 4],
    pub payload: Vec<u8>,
}

/// The parts of an ICMP echo message that a reply repeats.
pub struct EchoParts {
    pub identifier: u16,
    pub sequence: u16,
    pub payload: Vec<u8>,
}

/// The big-endian 16-bit number in two bytes.
pub open spec fn be_u16(high: u8, low: u8) -> u16 {
    (high * 256 + low) as u16
}

/// What `packet::ip::Packet::new` makes of bytes that it reads as IPv4: the
/// source address (bytes 12 to 15), the destination address (bytes 16 to 19)
/// and the payload, which runs from the end of the header (its length in
/// 32-bit words is the low half of the first byte) to the total length
/// (bytes 2 and 3), or is empty when that is shorter. `None` when the bytes
/// are fewer than 20, do not say version 4 in the high half of the first byte,
/// or are fewer than the header or the total length.
pub open spec fn ipv4_parse(bytes: Seq<u8>) -> Option<(Seq<u8>, Seq<u8>, Seq<u8>)> {
    if bytes.len() < 20 || bytes[0] / 16 != 4 {
        None
    } else {
        let header = (bytes[0] % 16) as int * 4;
        let total = be_u16(bytes[2], bytes[3]) as int;
        if bytes.len() < header || bytes.len() < total {
            None
        } else {
            let end = if total > header {
                total
            } else {
                header
            };
            Some((bytes.subrange(12, 16), bytes.subrange(16, 20), bytes.subrange(header, end)))
        }
    }
}

/// What `packet::icmp::Packet::new` and then `echo` make of bytes: an echo
/// message (at least 8 bytes, of type 0, a reply, or 8, a request) gives its
/// identifier (bytes 4 and 5), sequence number (bytes 6 and 7) and payload
/// (the rest); anything else `None`.
pub open spec fn echo_parse(bytes: Seq<u8>) -> Option<(u16, u16, Seq<u8>)> {
    if bytes.len() >= 8 && (bytes[0] == 0 || bytes[0] == 8) {
        Some((be_u16(bytes[4], bytes[5]), be_u16(bytes[6], bytes[7]), bytes.subrange(8, bytes.len() as int)))
    } else {
        None
    }
}

/// What `packet::ip::v4::Builder` builds for an ICMP echo reply with the given
/// IP id, TTL, addresses, identifier, sequence number and payload; `None` when
/// the builder reports an error.
pub uninterp spec fn echo_reply_build(
    id: u16,
    ttl: u8,
    source: Seq<u8>,
    destination: Seq<u8>,
    identifier: u16,
    sequence: u16,
    payload: Seq<u8>,
) -> Option<Seq<u8>>;

/// Wraps `packet::ip::Packet::new`, reading an IPv4 packet's addresses and
/// payload as `ipv4_parse` says; an IPv6 packet or an error gives `None`. It
/// reads the first byte for the IP version, so it needs at least one.
#[verifier::external_body]
fn parse_ipv4(bytes: &[u8]) -> (parts: Option<Ipv4Parts>)
    requires
        bytes.len() > 0,
    ensures
        match ipv4_parse(bytes@) {
            Some((source, destination, payload)) => parts matches Some(p) && p.source@ == source
                && p.destination@ == destination && p.payload@ == payload,
            None => parts is None,
        },
{
    match packet::ip::Packet::new(bytes) {
        Ok(packet::ip::Packet::V4(ip)) => Some(Ipv4Parts {
            source: ip.source().octets(),
            destination: ip.destination().octets(),
            payload: ip.payload().to_vec(),
        }),
        _ => None,
    }
}

/// Wraps `packet::icmp::Packet::new` followed by `echo`, reading an echo
/// message's identifier, sequence number and payload as `echo_parse`
/// says; an error of either gives `None`.
#[verifier::external_body]
fn parse_icmp_echo(bytes: &[u8]) -> (parts: Option<EchoParts>)
    ensures
        match echo_parse(bytes@) {
            Some((identifier, sequence, payload)) => parts matches Some(p) && p.identifier
                == identifier && p.sequence == sequence && p.payload@ == payload,
            None => parts is None,
        },
{
    match packet::icmp::Packet::new(bytes) {
        Ok(icmp) => match icmp.echo() {
            Ok(echo) => Some(EchoParts {
                identifier: echo.identifier(),
                sequence: echo.sequence(),
                payload: echo.payload().to_vec(),
            }),
            Err(_) => None,
        },
        Err(_) => None,
    }
}

/// Wraps the `packet::ip::v4::Builder` chain that builds an ICMP echo reply:
/// IP id and TTL, source and destination, then identifier, sequence number
/// and payload; any step's error would give `None`. No step of this chain can
/// fail: the dynamic buffer grows on demand, and every setter and finaliser
/// writes within the 20-byte IPv4 header and the 8-byte echo header that the
/// chain has laid out; so the reply is always built, as those two headers and
/// the payload.
#[verifier::external_body]
fn build_echo_reply(
    id: u16,
    ttl: u8,
    source: [u8; 4],
    destination: [u8; 4],
    identifier: u16,
    sequence: u16,
    payload: &[u8],
) -> (reply: Option<Vec<u8>>)
    ensures
        match echo_reply_build(id, ttl, source@, destination@, identifier, sequence, payload@) {
            Some(bytes) => reply matches Some(r) && r@ == bytes,
            None => reply is None,
        },
        reply is Some,
        reply matches Some(r) ==> r.len() == 20 + 8 + payload.len(),
{
    packet::ip::v4::Builder::default()
        .id(id)
        .and_then(|b| b.ttl(ttl))
        .and_then(|b| b.source(source.into()))
        .and_then(|b| b.destination(destination.into()))
        .and_then(|b| b.icmp())
        .and_then(|b| b.echo())
        .and_then(|b| b.reply())
        .and_then(|b| b.identifier(identifier))
        .and_then(|b| b.sequence(sequence))
        .and_then(|b| b.payload(payload))
        .and_then(|b| b.build())
        .ok()
}

/// The IP id of the replies.
pub const REPLY_ID: u16 = 0x42;

/// The TTL of the replies.
pub const REPLY_TTL: u8 = 64;

/// The reply to a packet: for an IPv4 packet whose payload is an ICMP echo
/// message, an echo reply from its destination to its source that repeats its
/// identifier, sequence number and payload; for anything else, none.
pub open spec fn ping_reply_spec(bytes: Seq<u8>) -> Option<Seq<u8>> {
    match ipv4_parse(bytes) {
        Some((source, destination, payload)) => match echo_parse(payload) {
            Some((identifier, sequence, data)) => echo_reply_build(
                REPLY_ID,
                REPLY_TTL,
                destination,
                source,
                identifier,
                sequence,
                data,
            ),
            None => None,
        },
        None => None,
    }
}

/// `bytes` are an IPv4 packet that carries an ICMP echo message.
pub open spec fn is_echo_message(bytes: Seq<u8>) -> bool {
    ipv4_parse(bytes) matches Some((_, _, payload)) && echo_parse(payload) is Some
}

/// The echo reply to the packet `bytes`, if it is an echo message.
pub fn echo_reply(bytes: &[u8]) -> (reply: Option<Vec<u8>>)
    requires
        bytes.len() > 0,
    ensures
        match ping_reply_spec(bytes@) {
            Some(r) => reply matches Some(v) && v@ == r,
            None => reply is None,
        },
        is_echo_message(bytes@) ==> (reply matches Some(v) && v.len() > 0),
{
    match parse_ipv4(bytes) {
        Some(ip) => match parse_icmp_echo(ip.payload.as_slice()) {
            Some(echo) => build_echo_reply(
                REPLY_ID,
                REPLY_TTL,
                ip.destination,
                ip.source,
                echo.identifier,
                echo.sequence,
                echo.payload.as_slice(),
            ),
            None => None,
        },
        None => None,
    }
}

/// Where a ping slot sends a packet.
pub enum PingAction {
    /// Out of the rack: the reply to an echo message.
    Reply(tun::TunPacket),
    /// On to the next slot: the packet itself.
    Forward(tun::TunPacket),
}

/// `action` is what a ping slot does with `packet`: the reply, when the packet
/// is an echo message whose reply could be built, and otherwise the packet
/// itself, passed on.
pub open spec fn is_ping_action(packet: tun::TunPacket, action: PingAction) -> bool {
    match ping_reply_spec(tun_packet_bytes(packet)) {
        Some(r) => if r.len() > 0 {
            action matches PingAction::Reply(p) && tun_packet_bytes(p) == r
        } else {
            action == PingAction::Forward(packet)
        },
        None => action == PingAction::Forward(packet),
    }
}

/// What a ping slot does with a packet: answers an echo message out of the
/// rack, and passes anything else on.
pub fn ping(packet: tun::TunPacket) -> (action: PingAction)
    requires
        tun_packet_bytes(packet).len() > 0,
    ensures
        is_ping_action(packet, action),
        is_echo_message(tun_packet_bytes(packet)) ==> action is Reply,
{
    let reply = echo_reply(tun_packet_get_bytes(&packet));
    match reply {
        Some(bytes) => {
            if bytes.len() > 0 {
                PingAction::Reply(tun_packet_new(bytes))
            } else {
                PingAction::Forward(packet)
            }
        },
        None => PingAction::Forward(packet),
    }
}

/// `ping` on any packet: a packet without bytes (whose IP version cannot be
/// read) comes back unchanged as `Err`.
pub fn ping_checked(packet: tun::TunPacket) -> (action: Result<PingAction, tun::TunPacket>)
    ensures
        tun_packet_bytes(packet).len() == 0 ==> action == Err::<PingAction, tun::TunPacket>(packet),
        tun_packet_bytes(packet).len() > 0 ==> (action matches Ok(a) && is_ping_action(packet, a)),
        tun_packet_bytes(packet).len() > 0 && is_echo_message(tun_packet_bytes(packet)) ==> action matches Ok(
            PingAction::Reply(_),
        ),
{
    if tun_packet_get_bytes(&packet).len() == 0 {
        Err(packet)
    } else {
        Ok(ping(packet))
    }
}

/// Builds ping slots.
pub struct PingSlotBuilder {}

impl PingSlotBuilder {
    pub fn new() -> (builder: Self) {
        Self {}
    }
}

} // verus!

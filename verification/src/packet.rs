use vstd::prelude::*;

verus! {

/// A packet as it travels through a rack.
#[verifier::external_type_specification]
#[verifier::external_body]
pub struct ExTunPacket(tun::TunPacket);

/// The bytes that a packet holds.
pub uninterp spec fn tun_packet_bytes(packet: tun::TunPacket) -> Seq<u8>;

/// Wraps `tun::TunPacket::new`, which infers the protocol from the first byte
/// (it indexes byte 0, so it needs at least one byte) and keeps the bytes as
/// they are.
#[verifier::external_body]
pub(crate) fn tun_packet_new(bytes: Vec<u8>) -> (packet: tun::TunPacket)
    requires
        bytes.len() > 0,
    ensures
        tun_packet_bytes(packet) == bytes@,
{
    tun::TunPacket::new(bytes)
}

/// Wraps `tun::TunPacket::get_bytes`, which hands out the bytes the packet holds.
#[verifier::external_body]
pub(crate) fn tun_packet_get_bytes(packet: &tun::TunPacket) -> (bytes: &[u8])
    ensures
        bytes@ == tun_packet_bytes(*packet),
{
    packet.get_bytes()
}

} // verus!

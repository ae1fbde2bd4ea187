use argon::slots::ping::{echo_reply, ping, PingAction};
use packet::builder::Builder as _;
use packet::Packet as _;

fn echo_request(identifier: u16, sequence: u16, payload: &[u8]) -> Vec<u8> {
    packet::ip::v4::Builder::default()
        .id(1)
        .unwrap()
        .ttl(32)
        .unwrap()
        .source([192, 168, 1, 2].into())
        .unwrap()
        .destination([10, 0, 0, 1].into())
        .unwrap()
        .icmp()
        .unwrap()
        .echo()
        .unwrap()
        .request()
        .unwrap()
        .identifier(identifier)
        .unwrap()
        .sequence(sequence)
        .unwrap()
        .payload(payload)
        .unwrap()
        .build()
        .unwrap()
}

#[test]
fn echo_request_gets_a_reply() {
    let request = echo_request(7, 9, b"hello");
    let reply = echo_reply(&request).expect("a reply");
    let ip = match packet::ip::Packet::new(&reply[..]).unwrap() {
        packet::ip::Packet::V4(ip) => ip,
        _ => panic!("expected IPv4"),
    };
    assert_eq!(ip.source().octets(), [10, 0, 0, 1]);
    assert_eq!(ip.destination().octets(), [192, 168, 1, 2]);
    assert_eq!(ip.id(), 0x42);
    assert_eq!(ip.ttl(), 64);
    let icmp = packet::icmp::Packet::new(ip.payload()).unwrap();
    assert_eq!(icmp.kind(), packet::icmp::Kind::EchoReply);
    let echo = icmp.echo().unwrap();
    assert_eq!(echo.identifier(), 7);
    assert_eq!(echo.sequence(), 9);
    assert_eq!(echo.payload(), b"hello");
}

#[test]
fn other_packets_get_no_reply() {
    assert!(echo_reply(&[0x45]).is_none());
    assert!(echo_reply(&[0x60, 0, 0, 0]).is_none());
    let mut request = echo_request(1, 1, b"x");
    // An ICMP message that is not an echo: destination unreachable (type 3).
    request[20] = 3;
    assert!(echo_reply(&request).is_none());
}

#[test]
fn ping_answers_echoes_and_forwards_the_rest() {
    let request = echo_request(3, 4, b"abc");
    match ping(tun::TunPacket::new(request.clone())) {
        PingAction::Reply(reply) => assert_eq!(reply.get_bytes(), &echo_reply(&request).unwrap()[..]),
        PingAction::Forward(_) => panic!("expected a reply"),
    }
    match ping(tun::TunPacket::new(vec![0x45, 1, 2])) {
        PingAction::Forward(p) => assert_eq!(p.get_bytes(), &[0x45, 1, 2]),
        PingAction::Reply(_) => panic!("expected a forward"),
    }
}

#[test]
fn every_echo_request_is_answered_whatever_its_payload() {
    for payload in [&b""[..], &b"a"[..], &[0u8; 300][..]] {
        let request = echo_request(11, 12, payload);
        let reply = echo_reply(&request).expect("a reply");
        assert_eq!(reply.len(), 20 + 8 + payload.len());
        assert!(matches!(ping(tun::TunPacket::new(request)), PingAction::Reply(_)));
    }
}

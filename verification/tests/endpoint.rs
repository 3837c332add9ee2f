use bluefin::addr::SocketAddr;
use bluefin::context::BluefinHost;
use bluefin::endpoint::{
    is_client_ack_packet, is_hello_packet, Endpoint, HelloOutcome, MAX_QUEUED_HELLOS,
};
use bluefin::wire::header::{BluefinHeader, BluefinSecurityFields, PacketType};
use bluefin::wire::packet::BluefinPacket;

fn hello_packet(src: u32, dst: u32, ty: PacketType) -> BluefinPacket {
    let sec = BluefinSecurityFields::new(false, 0);
    let mut hdr = BluefinHeader::new(src, dst, ty, 0, sec);
    hdr.with_packet_number(42);
    BluefinPacket::builder().header(hdr).build()
}

fn addr() -> SocketAddr {
    SocketAddr::V4 { octets: [127, 0, 0, 1], port: 1234 }
}

#[test]
fn is_hello_packet_server_accepts_client_hello() {
    let p = hello_packet(0xaaaa, 0, PacketType::UnencryptedClientHello);
    assert!(is_hello_packet(BluefinHost::PackLeader, &p));
}

#[test]
fn is_hello_packet_server_rejects_zero_src() {
    let p = hello_packet(0, 0, PacketType::UnencryptedClientHello);
    assert!(!is_hello_packet(BluefinHost::PackLeader, &p));
}

#[test]
fn is_hello_packet_client_requires_both_ids() {
    let good = hello_packet(0xbbbb, 0xcccc, PacketType::UnencryptedServerHello);
    let bad = hello_packet(0xbbbb, 0, PacketType::UnencryptedServerHello);
    assert!(is_hello_packet(BluefinHost::Client, &good));
    assert!(!is_hello_packet(BluefinHost::Client, &bad));
}

#[test]
fn queued_hello_is_returned_to_accept() {
    let mut ep = Endpoint::new(BluefinHost::PackLeader);
    let mut pkts = vec![hello_packet(0xaaaa, 0, PacketType::UnencryptedClientHello)];

    // Hello arrives first, no accept slot ready.
    match ep.classify_hello(&mut pkts, addr()) {
        HelloOutcome::Queued => {}
        other => panic!("expected Queued, got {other:?}"),
    }
    assert!(pkts.is_empty(), "queued packet must leave caller's vec empty");

    // accept() comes along and drains the queue.
    let drained = ep.take_queued_hello_or_register(0x1234);
    assert!(drained.is_some());
}

#[test]
fn accept_then_hello_routes_to_slot() {
    let mut ep = Endpoint::new(BluefinHost::PackLeader);

    // accept() registers a slot first.
    assert!(ep.take_queued_hello_or_register(0x1234).is_none());

    // Hello arrives second — routed to the registered slot.
    let mut pkts = vec![hello_packet(0xaaaa, 0, PacketType::UnencryptedClientHello)];
    match ep.classify_hello(&mut pkts, addr()) {
        HelloOutcome::Routed { our_id } => assert_eq!(our_id, 0x1234),
        other => panic!("expected Routed, got {other:?}"),
    }
    assert_eq!(pkts.len(), 1, "routed packet must stay in caller's vec");
}

#[test]
fn hello_queue_caps_at_max_queued_hellos() {
    let mut ep = Endpoint::new(BluefinHost::PackLeader);
    // Fill the queue.
    for _ in 0..MAX_QUEUED_HELLOS {
        let mut pkts = vec![hello_packet(1, 0, PacketType::UnencryptedClientHello)];
        assert!(matches!(
            ep.classify_hello(&mut pkts, addr()),
            HelloOutcome::Queued
        ));
    }
    // One more is dropped.
    let mut pkts = vec![hello_packet(1, 0, PacketType::UnencryptedClientHello)];
    assert!(matches!(
        ep.classify_hello(&mut pkts, addr()),
        HelloOutcome::Dropped
    ));
    assert!(pkts.is_empty());
}

#[test]
fn client_classifies_server_hello_with_our_id() {
    let mut ep = Endpoint::new(BluefinHost::Client);
    let mut pkts = vec![hello_packet(0xbbbb, 0xcccc, PacketType::UnencryptedServerHello)];
    match ep.classify_hello(&mut pkts, addr()) {
        HelloOutcome::Routed { our_id } => assert_eq!(our_id, 0xcccc),
        other => panic!("expected Routed, got {other:?}"),
    }
}

#[test]
fn non_hello_is_passthrough() {
    let mut ep = Endpoint::new(BluefinHost::PackLeader);
    // A data packet (not a hello).
    let sec = BluefinSecurityFields::new(false, 0);
    let hdr = BluefinHeader::new(1, 2, PacketType::UnencryptedData, 8, sec);
    let mut pkts = vec![BluefinPacket::builder().header(hdr).build()];
    match ep.classify_hello(&mut pkts, addr()) {
        HelloOutcome::NotHello => {}
        other => panic!("expected NotHello, got {other:?}"),
    }
    assert_eq!(pkts.len(), 1, "non-hello must not be consumed");
}

#[test]
fn is_client_ack_requires_both_ids_and_server_role() {
    let sec = BluefinSecurityFields::new(false, 0);
    let mut hdr = BluefinHeader::new(0xaaaa, 0xbbbb, PacketType::ClientAck, 0, sec);
    hdr.with_packet_number(99);
    let p = BluefinPacket::builder().header(hdr).build();
    assert!(is_client_ack_packet(BluefinHost::PackLeader, &p));
    assert!(!is_client_ack_packet(BluefinHost::Client, &p));

    let mut hdr2 = BluefinHeader::new(0xaaaa, 0, PacketType::ClientAck, 0, sec);
    hdr2.with_packet_number(99);
    let p2 = BluefinPacket::builder().header(hdr2).build();
    assert!(!is_client_ack_packet(BluefinHost::PackLeader, &p2));
}

#[test]
fn hellos_are_handed_out_oldest_first() {
    let mut ep = Endpoint::new(BluefinHost::PackLeader);
    for src in [5u32, 6, 7] {
        let mut pkts = vec![hello_packet(src, 0, PacketType::UnencryptedClientHello)];
        ep.classify_hello(&mut pkts, addr());
    }
    for src in [5u32, 6, 7] {
        let (packet, from) = ep.take_queued_hello_or_register(0x1).unwrap();
        assert_eq!(packet.header.source_connection_id, src);
        assert_eq!(from, addr());
    }
    assert!(ep.take_queued_hello_or_register(0x1).is_none());
    assert_eq!(ep.host_type(), BluefinHost::PackLeader);
}

#[test]
fn pack_follower_has_no_hellos() {
    let mut ep = Endpoint::new(BluefinHost::PackFollower);
    let mut pkts = vec![hello_packet(1, 0, PacketType::UnencryptedClientHello)];
    assert!(matches!(ep.classify_hello(&mut pkts, addr()), HelloOutcome::NotHello));
    assert_eq!(pkts.len(), 1);
}

use bluefin::connection::close::{CloseEvent, CloseFsm, CloseState};
use bluefin::wire::header::{BluefinHeader, BluefinSecurityFields, PacketType};
use bluefin::wire::packet::BluefinPacket;

fn fin_packet(pn: u64) -> BluefinPacket {
    let mut header = BluefinHeader::new(
        0x1111_2222,
        0x3333_4444,
        PacketType::Fin,
        0x0,
        BluefinSecurityFields::default(),
    );
    header.with_packet_number(pn);
    BluefinPacket::builder().header(header).build()
}

fn fin_ack_packet(pn: u64) -> BluefinPacket {
    let mut header = BluefinHeader::new(
        0x1111_2222,
        0x3333_4444,
        PacketType::FinAck,
        0x0,
        BluefinSecurityFields::default(),
    );
    header.with_packet_number(pn);
    BluefinPacket::builder().header(header).build()
}

#[test]
fn fresh_fsm_is_active() {
    let fsm = CloseFsm::new();
    assert_eq!(fsm.state(), CloseState::Active);
    assert_eq!(fsm.pending_fin_ack_send(), None);
    assert_eq!(fsm.received_fin_ack_for(), None);
}

#[test]
fn fin_transitions_to_peer_fin_received_and_emits_event() {
    let mut fsm = CloseFsm::new();
    let ev = fsm.buffer_in_fin(&fin_packet(1234));
    assert_eq!(ev, CloseEvent::PeerFinObserved { fin_packet_num: 1234 });
    assert_eq!(fsm.state(), CloseState::PeerFinReceived { fin_packet_num: 1234 });
    assert_eq!(fsm.pending_fin_ack_send(), Some(1234));
}

#[test]
fn duplicate_fin_re_arms_ack_but_does_not_re_emit_event() {
    let mut fsm = CloseFsm::new();
    assert!(matches!(
        fsm.buffer_in_fin(&fin_packet(7)),
        CloseEvent::PeerFinObserved { .. }
    ));
    let _ = fsm.take_pending_fin_ack_send(); // simulate FinAck emitted
    let ev = fsm.buffer_in_fin(&fin_packet(7));
    assert_eq!(ev, CloseEvent::Nothing);
    assert_eq!(fsm.pending_fin_ack_send(), Some(7));
}

#[test]
fn mismatched_fin_pn_after_first_is_dropped() {
    let mut fsm = CloseFsm::new();
    fsm.buffer_in_fin(&fin_packet(7));
    let _ = fsm.take_pending_fin_ack_send();
    let ev = fsm.buffer_in_fin(&fin_packet(99));
    assert_eq!(ev, CloseEvent::Nothing);
    assert_eq!(fsm.state(), CloseState::PeerFinReceived { fin_packet_num: 7 });
    assert_eq!(fsm.pending_fin_ack_send(), None);
}

#[test]
fn fin_ack_records_packet_number_and_emits_event() {
    let mut fsm = CloseFsm::new();
    let ev = fsm.buffer_in_fin_ack(&fin_ack_packet(42));
    assert_eq!(ev, CloseEvent::PeerFinAckObserved { fin_packet_num: 42 });
    assert_eq!(fsm.received_fin_ack_for(), Some(42));
}

#[test]
fn record_local_fin_then_peer_fin_keeps_pn() {
    // Crossed FINs: local close() sets LocalFinSent, then the peer's FIN arrives
    // and transitions to PeerFinReceived. The local pn remains tracked via
    // received_fin_ack_for once the FinAck lands.
    let mut fsm = CloseFsm::new();
    fsm.record_local_fin_sent(500);
    assert_eq!(fsm.state(), CloseState::LocalFinSent { fin_packet_num: 500 });
    let ev = fsm.buffer_in_fin(&fin_packet(501));
    assert!(matches!(ev, CloseEvent::PeerFinObserved { .. }));
    assert_eq!(fsm.state(), CloseState::PeerFinReceived { fin_packet_num: 501 });

    // Now the peer's FinAck for our 500 arrives.
    let ev = fsm.buffer_in_fin_ack(&fin_ack_packet(500));
    assert_eq!(ev, CloseEvent::PeerFinAckObserved { fin_packet_num: 500 });
    assert_eq!(fsm.received_fin_ack_for(), Some(500));
}

#[test]
fn mark_closed_is_idempotent_and_blocks_further_local_fin() {
    let mut fsm = CloseFsm::new();
    fsm.mark_closed();
    assert_eq!(fsm.state(), CloseState::Closed);
    fsm.record_local_fin_sent(123);
    assert_eq!(fsm.state(), CloseState::Closed);
    fsm.mark_closed();
    assert_eq!(fsm.state(), CloseState::Closed);
}

#[test]
fn closed_machine_ignores_fins() {
    let mut fsm = CloseFsm::new();
    fsm.mark_closed();
    assert_eq!(fsm.buffer_in_fin(&fin_packet(3)), CloseEvent::Nothing);
    assert_eq!(fsm.state(), CloseState::Closed);
    assert_eq!(fsm.take_pending_fin_ack_send(), None);
}

#[test]
fn second_local_fin_keeps_the_first_number() {
    let mut fsm = CloseFsm::new();
    fsm.record_local_fin_sent(10);
    fsm.record_local_fin_sent(11);
    assert_eq!(fsm.state(), CloseState::LocalFinSent { fin_packet_num: 10 });
}

#[test]
fn first_peer_fin_is_remembered_across_a_local_fin() {
    let mut fsm = CloseFsm::new();
    fsm.buffer_in_fin(&fin_packet(7));
    assert_eq!(fsm.take_pending_fin_ack_send(), Some(7));
    fsm.record_local_fin_sent(8);
    assert_eq!(fsm.buffer_in_fin(&fin_packet(99)), CloseEvent::Nothing);
    assert_eq!(fsm.state(), CloseState::LocalFinSent { fin_packet_num: 8 });
    assert_eq!(fsm.pending_fin_ack_send(), None);
    assert_eq!(fsm.buffer_in_fin(&fin_packet(7)), CloseEvent::Nothing);
    assert_eq!(fsm.state(), CloseState::LocalFinSent { fin_packet_num: 8 });
    assert_eq!(fsm.pending_fin_ack_send(), Some(7));
    fsm.buffer_in_fin_ack(&fin_ack_packet(8));
    fsm.mark_closed();
    assert_eq!(fsm.buffer_in_fin(&fin_packet(7)), CloseEvent::Nothing);
    assert_eq!(fsm.state(), CloseState::Closed);
}

use std::sync::Arc;
use std::sync::atomic::{AtomicBool, Ordering};
use std::task::{Context, Wake, Waker};

use bluefin::addr::SocketAddr;
use bluefin::connection::close::CloseState;
use bluefin::context::BluefinHost;
use bluefin::error::BluefinError;
use bluefin::net::DiagnosticEvent;
use bluefin::net::close_handler::CloseBuffer;
use bluefin::net::connection::ConnectionManagedBuffers;
use bluefin::utils::cpu_affinity::Platform;
use bluefin::wire::header::{BluefinHeader, BluefinSecurityFields, PacketType};
use bluefin::wire::packet::BluefinPacket;
use bluefin::worker::conn_reader::{ConnReaderHandler, Received};
use bluefin::worker::reader::ReaderRxChannel;

/// Test waker that records whether it was invoked.
struct CountingWaker {
    woken: AtomicBool,
}

impl Wake for CountingWaker {
    fn wake(self: Arc<Self>) {
        self.woken.store(true, Ordering::Release);
    }
    fn wake_by_ref(self: &Arc<Self>) {
        self.woken.store(true, Ordering::Release);
    }
}

fn counting_waker() -> (Arc<CountingWaker>, Waker) {
    let counter = Arc::new(CountingWaker {
        woken: AtomicBool::new(false),
    });
    let waker: Waker = counter.clone().into();
    (counter, waker)
}

fn packet(kind: PacketType, src: u32, dst: u32, pn: u64, field: u16, payload: Vec<u8>) -> BluefinPacket {
    let mut header = BluefinHeader::new(src, dst, kind, field, BluefinSecurityFields::default());
    header.with_packet_number(pn);
    BluefinPacket::builder().header(header).payload(payload).build()
}

fn fin_packet(src: u32, dst: u32, pn: u64) -> BluefinPacket {
    packet(PacketType::Fin, src, dst, pn, 0, vec![])
}

fn fin_ack_packet(src: u32, dst: u32, pn: u64) -> BluefinPacket {
    packet(PacketType::FinAck, src, dst, pn, 0, vec![])
}

fn data_packet(pn: u64, payload: Vec<u8>) -> BluefinPacket {
    let len = payload.len() as u16;
    packet(PacketType::UnencryptedData, 1, 2, pn, len, payload)
}

fn ack_packet(pn: u64, count: u16) -> BluefinPacket {
    packet(PacketType::Ack, 1, 2, pn, count, vec![])
}

fn make_managed_bufs() -> ConnectionManagedBuffers {
    let mut bufs = ConnectionManagedBuffers::new(0xaaaa_bbbb, BluefinHost::Client, 0);
    let _ = bufs.conn_buff.buffer_in_addr(SocketAddr::V4 {
        octets: [127, 0, 0, 1],
        port: 1,
    });
    bufs
}

#[test]
fn buffer_in_packets_routes_fin_to_close_buffer_and_wakes_data_waker() {
    let mut bufs = make_managed_bufs();

    let (counter, waker) = counting_waker();
    bufs.conn_buff.set_waker_if_changed(&waker);
    let _cx = Context::from_waker(&waker);

    let mut packets = vec![fin_packet(0x1, 0x2, 9_999)];
    let res = ConnReaderHandler::buffer_in_packets(&mut packets, &mut bufs);
    assert!(res.result.is_ok());
    res.wake.unwrap().wake();

    assert!(bufs.close_buff.peer_fin_observed());
    let close_state = bufs.close_buff.state();
    assert_eq!(
        close_state,
        CloseState::PeerFinReceived {
            fin_packet_num: 9_999,
        }
    );
    assert!(counter.woken.load(Ordering::Acquire));
    assert!(packets.is_empty());
    assert_eq!(res.fin_ack, Some(9_999));
    assert!(bufs.close_buff.pending_fin_ack_send().is_none());
    assert_eq!(res.events, vec![DiagnosticEvent::FinReceived { packet_num: 9_999 }]);
}

#[test]
fn buffer_in_packets_routes_fin_ack_to_close_buffer_without_setting_peer_fin_flag() {
    let mut bufs = make_managed_bufs();

    let mut packets = vec![fin_ack_packet(0x1, 0x2, 1234)];
    let res = ConnReaderHandler::buffer_in_packets(&mut packets, &mut bufs);
    res.result.unwrap();

    assert!(!bufs.close_buff.peer_fin_observed());
    assert_eq!(bufs.close_buff.received_fin_ack_for(), Some(1234));
    assert_eq!(bufs.close_buff.state(), CloseState::Active);
    assert!(res.notify_closer);
    assert!(res.fin_ack.is_none());
}

#[test]
fn fin_with_no_data_waker_registered_is_still_ok() {
    let mut bufs = make_managed_bufs();

    let mut packets = vec![fin_packet(0x1, 0x2, 5)];
    let res = ConnReaderHandler::buffer_in_packets(&mut packets, &mut bufs);
    res.result.unwrap();
    assert!(res.wake.is_none());
    assert!(bufs.close_buff.peer_fin_observed());
}

#[test]
fn future_resolves_when_peer_fin_observed_with_empty_buffer() {
    let mut bufs = make_managed_bufs();
    let (_counter, waker) = counting_waker();

    assert!(bufs.conn_buff.peek().is_err());
    assert!(!bufs.close_buff.peer_fin_observed());
    assert!(!ReaderRxChannel::poll_ready(
        &mut bufs.conn_buff,
        bufs.close_buff.peer_fin_observed(),
        &waker
    ));

    let mut packets = vec![fin_packet(0x1, 0x2, 1)];
    ConnReaderHandler::buffer_in_packets(&mut packets, &mut bufs).result.unwrap();
    assert!(bufs.close_buff.peer_fin_observed());
    assert!(bufs.conn_buff.peek().is_err());
    assert!(bufs.conn_buff.addr().is_some());
    assert!(ReaderRxChannel::poll_ready(
        &mut bufs.conn_buff,
        bufs.close_buff.peer_fin_observed(),
        &waker
    ));
    let mut reader = ReaderRxChannel::new();
    let mut buf = [0u8; 4];
    let outcome = reader.read(&mut bufs.conn_buff, true, 4, &mut buf);
    assert_eq!(outcome.result.unwrap().0, 0);
}

#[test]
fn buffer_in_fin_sets_peer_fin_observed_flag() {
    let mut buf = CloseBuffer::new();
    assert!(!buf.peer_fin_observed());
    buf.buffer_in_fin(&fin_packet(0x1111_2222, 0x3333_4444, 1));
    assert!(buf.peer_fin_observed());
    assert_eq!(buf.state(), CloseState::PeerFinReceived { fin_packet_num: 1 });
    assert_eq!(buf.pending_fin_ack_send(), Some(1));
}

#[test]
fn buffer_in_fin_ack_wakes_notify_waiter() {
    let mut buf = CloseBuffer::new();
    assert!(buf.buffer_in_fin_ack(&fin_ack_packet(0x1111_2222, 0x3333_4444, 7)));
    assert_eq!(buf.received_fin_ack_for(), Some(7));
}

#[test]
fn close_buffer_keeps_a_waker() {
    let mut buf = CloseBuffer::new();
    assert!(buf.take_waker_clone().is_none());
    let (counter, waker) = counting_waker();
    buf.set_waker_if_changed(&waker);
    buf.set_waker_if_changed(&waker);
    buf.take_waker_clone().unwrap().wake();
    assert!(counter.woken.load(Ordering::Acquire));
    let (other, other_waker) = counting_waker();
    buf.set_waker_if_changed(&other_waker);
    buf.take_waker_clone().unwrap().wake();
    assert!(other.woken.load(Ordering::Acquire));
}

#[test]
fn data_is_buffered_and_the_last_error_is_told() {
    let mut bufs = make_managed_bufs();
    let mut packets = vec![data_packet(0, vec![1, 2]), data_packet(1, vec![3])];
    let res = ConnReaderHandler::buffer_in_packets(&mut packets, &mut bufs);
    assert_eq!(res.result, Err(BluefinError::NoSuchWakerError));
    assert!(packets.is_empty());

    let (counter, waker) = counting_waker();
    bufs.conn_buff.set_waker(waker);
    assert!(bufs.conn_buff.get_waker().is_some());
    let mut packets = vec![data_packet(1, vec![9]), data_packet(30_000, vec![9]), data_packet(2, vec![4])];
    let res = ConnReaderHandler::buffer_in_packets(&mut packets, &mut bufs);
    assert_eq!(
        res.result,
        Err(BluefinError::BufferFullError(
            "Packet number is too far ahead of what can be buffered.".to_string()
        ))
    );
    res.wake.unwrap().wake();
    assert!(counter.woken.load(Ordering::Acquire));

    let mut buf = [0u8; 10];
    let (consumed, _) = bufs.conn_buff.consume(10, &mut buf).unwrap();
    assert_eq!(consumed.get_bytes_consumed(), 4);
    assert_eq!(consumed.get_num_packets_consumed(), 3);
    assert_eq!(&buf[..5], &[1, 2, 3, 4, 0]);
}

#[test]
fn acks_are_buffered_and_told() {
    let mut bufs = make_managed_bufs();
    let (_counter, waker) = counting_waker();
    bufs.ack_buff.set_waker_if_changed(&waker);
    let mut packets = vec![ack_packet(5, 3), fin_packet(1, 2, 4), ack_packet(8, 1)];
    let res = ConnReaderHandler::buffer_in_packets(&mut packets, &mut bufs);
    assert_eq!(
        res.result,
        Err(BluefinError::Unexpected(
            "Cannot buffer a packet that is not an ack".to_string()
        ))
    );
    assert_eq!(
        res.events,
        vec![
            DiagnosticEvent::AckReceived { base_packet_num: 5, count: 3 },
            DiagnosticEvent::AckReceived { base_packet_num: 8, count: 1 },
        ]
    );
    assert!(res.wake.is_some());
    let first = bufs.ack_buff.take().unwrap();
    assert_eq!((first.base_packet_num, first.num_packets_consumed), (5, 3));
    assert_eq!(bufs.ack_buff.take().unwrap().base_packet_num, 8);
    assert!(bufs.ack_buff.take().is_none());
}

#[test]
fn a_repeated_fin_is_answered_again() {
    let mut bufs = make_managed_bufs();
    let mut packets = vec![fin_packet(1, 2, 40)];
    assert_eq!(
        ConnReaderHandler::buffer_in_packets(&mut packets, &mut bufs).fin_ack,
        Some(40)
    );
    let mut packets = vec![fin_packet(1, 2, 40), fin_ack_packet(1, 2, 3)];
    let res = ConnReaderHandler::buffer_in_packets(&mut packets, &mut bufs);
    assert_eq!(res.fin_ack, Some(40));
    assert!(res.notify_closer);
    assert_eq!(
        res.events,
        vec![
            DiagnosticEvent::FinReceived { packet_num: 40 },
            DiagnosticEvent::FinAckReceived { packet_num: 3 },
        ]
    );
}

#[test]
fn datagrams_are_read_and_buffered() {
    let mut bufs = make_managed_bufs();
    let mut packets = Vec::new();
    assert!(matches!(
        ConnReaderHandler::receive(&[1, 2, 3], &mut packets, &mut bufs),
        Received::NotPackets
    ));
    let mut mixed = Vec::new();
    let mut bytes = [0u8; 20];
    fin_packet(1, 2, 4).serialise_into(&mut bytes);
    mixed.extend_from_slice(&bytes);
    ack_packet(1, 1).serialise_into(&mut bytes);
    mixed.extend_from_slice(&bytes);
    assert!(matches!(
        ConnReaderHandler::receive(&mixed, &mut packets, &mut bufs),
        Received::Mixed
    ));
    assert!(!bufs.close_buff.peer_fin_observed());
    match ConnReaderHandler::receive(&mixed[..20], &mut packets, &mut bufs) {
        Received::Buffered(buffered) => assert_eq!(buffered.fin_ack, Some(4)),
        _ => panic!("expected the fin to be buffered"),
    }
    let mut empty = Vec::new();
    let nothing = ConnReaderHandler::buffer_in_packets(&mut empty, &mut bufs);
    assert!(nothing.result.is_ok());
    assert!(nothing.wake.is_none());
}

#[test]
fn number_of_reader_tasks_depends_on_the_platform() {
    assert_eq!(ConnReaderHandler::get_number_of_tx_tasks(Platform::Linux, Some(12)), 12);
    assert_eq!(ConnReaderHandler::get_number_of_tx_tasks(Platform::Linux, None), 3);
    assert_eq!(ConnReaderHandler::get_number_of_tx_tasks(Platform::MacOs, Some(12)), 1);
    assert_eq!(ConnReaderHandler::get_number_of_tx_tasks(Platform::Other, Some(12)), 3);
}

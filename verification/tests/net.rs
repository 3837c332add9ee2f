use std::sync::Arc;
use std::sync::atomic::{AtomicUsize, Ordering};
use std::task::{Wake, Waker};

use bluefin::addr::SocketAddr;
use bluefin::connection::close::CloseState;
use bluefin::context::BluefinHost;
use bluefin::endpoint::Endpoint;
use bluefin::error::BluefinError;
use bluefin::net::close_handler::CloseBuffer;
use bluefin::net::client::{BluefinClient, Established, handshake_answer};
use bluefin::net::connection::ConnectionBuffer;
use bluefin::net::established::BluefinConnection;
use bluefin::net::handshake_ids::HandshakeIds;
use bluefin::net::ordered_bytes::OrderedBytes;
use bluefin::net::registry::ConnectionManager;
use bluefin::net::server::BluefinServer;
use bluefin::net::{DiagnosticEvent, bare_datagram, build_empty_encrypted_packet};
use bluefin::wire::header::{BluefinHeader, BluefinSecurityFields, PacketType};
use bluefin::wire::packet::BluefinPacket;
use bluefin::worker::conn_reader::ConnReaderHandler;
use bluefin::worker::pump::DataPump;
use bluefin::worker::reader::{HelloAction, ReaderRxChannel, ReaderTxChannel, Route};
use bytes::Bytes;

struct Counter {
    wakes: AtomicUsize,
}

impl Wake for Counter {
    fn wake(self: Arc<Self>) {
        self.wakes.fetch_add(1, Ordering::AcqRel);
    }
}

fn waker() -> (Arc<Counter>, Waker) {
    let counter = Arc::new(Counter { wakes: AtomicUsize::new(0) });
    (counter.clone(), counter.into())
}

fn addr(port: u16) -> SocketAddr {
    SocketAddr::V4 { octets: [127, 0, 0, 1], port }
}

fn data(pn: u64, payload: &[u8]) -> BluefinPacket {
    let mut header = BluefinHeader::new(
        7,
        8,
        PacketType::UnencryptedData,
        payload.len() as u16,
        BluefinSecurityFields::default(),
    );
    header.with_packet_number(pn);
    BluefinPacket::builder().header(header).payload(payload.to_vec()).build()
}

#[test]
fn packets_are_put_back_into_order() {
    let mut buffer = OrderedBytes::new(1, 100);
    assert_eq!(buffer.peek(), Err(BluefinError::BufferEmptyError));
    let mut buf = [0u8; 8];
    assert!(matches!(buffer.consume(8, &mut buf), Err(BluefinError::BufferEmptyError)));

    assert_eq!(buffer.buffer_in_packet(data(102, &[5, 6, 7])), Ok(()));
    assert!(buffer.peek().is_err());
    assert_eq!(buffer.buffer_in_packet(data(100, &[1, 2])), Ok(()));
    assert_eq!(buffer.peek(), Ok(()));
    assert_eq!(buffer.buffer_in_packet(data(101, &[3, 4])), Ok(()));
    assert_eq!(
        buffer.buffer_in_packet(data(99, &[0])),
        Err(BluefinError::UnexpectedPacketNumberError)
    );
    assert_eq!(
        buffer.buffer_in_packet(data(101, &[0])),
        Err(BluefinError::UnexpectedPacketNumberError)
    );
    assert_eq!(
        buffer.buffer_in_packet(data(10_100, &[0])),
        Err(BluefinError::BufferFullError(
            "Packet number is too far ahead of what can be buffered.".to_string()
        ))
    );
    assert_eq!(
        buffer.buffer_in_packet(data(u64::MAX, &[0])),
        Err(BluefinError::UnexpectedPacketNumberError)
    );

    let first = buffer.consume(3, &mut buf).unwrap();
    assert_eq!(first.get_bytes_consumed(), 3);
    assert_eq!(first.get_num_packets_consumed(), 2);
    assert_eq!(first.get_base_packet_number(), 100);
    assert_eq!(&buf[..4], &[1, 2, 3, 0]);

    // What is left of the second packet comes before the third.
    let second = buffer.consume(100, &mut buf).unwrap();
    assert_eq!(second.get_bytes_consumed(), 4);
    assert_eq!(second.get_num_packets_consumed(), 1);
    assert_eq!(second.get_base_packet_number(), 102);
    assert_eq!(&buf[..4], &[4, 5, 6, 7]);
    assert!(buffer.peek().is_err());
}

#[test]
fn whole_payloads_are_handed_out() {
    let mut buffer = OrderedBytes::new(1, 0);
    for (pn, payload) in [(0u64, vec![1u8, 2, 3]), (1, vec![4]), (2, vec![5, 6]), (4, vec![9])] {
        buffer.buffer_in_packet(data(pn, &payload)).unwrap();
    }
    let mut buf = [0u8; 1];
    assert_eq!(buffer.consume(1, &mut buf).unwrap().get_bytes_consumed(), 1);
    let mut out: Vec<Bytes> = vec![Bytes::from_static(&[0xff])];
    let result = buffer.consume_bytes(&mut out, 1).unwrap();
    assert_eq!(result.get_bytes_consumed(), 3);
    assert_eq!(result.get_num_packets_consumed(), 1);
    assert_eq!(result.get_base_packet_number(), 1);
    assert_eq!(out, vec![
        Bytes::from_static(&[0xff]),
        Bytes::from_static(&[2, 3]),
        Bytes::from_static(&[4]),
    ]);
    let result = buffer.consume_bytes(&mut out, 16).unwrap();
    assert_eq!(result.get_num_packets_consumed(), 1);
    assert_eq!(out.len(), 4);
    assert!(matches!(buffer.consume_bytes(&mut out, 16), Err(BluefinError::BufferEmptyError)));
    buffer.set_start_packet_number(50);
    buffer.buffer_in_packet(data(50, &[1])).unwrap();
    assert!(buffer.peek().is_ok());
}

#[test]
fn connection_buffer_answers() {
    let mut buffer = ConnectionBuffer::new(1, BluefinHost::PackLeader);
    let no_addr = "Cannot consume buffer because addr is field is none".to_string();
    let mut buf = [0u8; 4];
    assert_eq!(buffer.peek(), Err(BluefinError::Unexpected(no_addr.clone())));
    assert_eq!(
        buffer.consume(4, &mut buf).err(),
        Some(BluefinError::Unexpected(no_addr.clone()))
    );
    let mut out = Vec::new();
    assert_eq!(
        buffer.consume_bytes(&mut out, 1).err(),
        Some(BluefinError::Unexpected(no_addr))
    );
    assert_eq!(buffer.buffer_in_addr(addr(5)), Ok(()));
    assert_eq!(
        buffer.buffer_in_addr(addr(6)),
        Err(BluefinError::Unexpected("Address already exists".to_string()))
    );
    assert_eq!(buffer.addr(), Some(addr(5)));
    assert_eq!(buffer.peek(), Err(BluefinError::BufferEmptyError));

    // A client's data begins two after its hello.
    let hello = build_empty_encrypted_packet(9, 0, 70, PacketType::UnencryptedClientHello);
    assert_eq!(buffer.buffer_in_packet(hello.clone()), Ok(()));
    assert_eq!(
        buffer.buffer_in_packet(hello),
        Err(BluefinError::BufferFullError(
            "Buffer already contains a packet. Could not buffer another packet.".to_string()
        ))
    );
    assert!(buffer.buffer_in_bytes(data(71, &[1])).is_err());
    assert!(buffer.buffer_in_bytes(data(72, &[1])).is_ok());
    let (_counter, waker) = waker();
    let (packet, from) = buffer.poll_handshake(&waker).unwrap();
    assert_eq!(packet.header.packet_number, 70);
    assert_eq!(from, addr(5));
    assert!(buffer.poll_handshake(&waker).is_none());
    assert!(buffer.take_waker_clone().is_some());

    // A server's data begins right after its hello.
    let mut buffer = ConnectionBuffer::new(1, BluefinHost::Client);
    let hello = build_empty_encrypted_packet(9, 1, 70, PacketType::UnencryptedServerHello);
    assert_eq!(buffer.buffer_in_packet(hello), Ok(()));
    assert!(buffer.buffer_in_bytes(data(70, &[1])).is_err());
    assert!(buffer.buffer_in_bytes(data(71, &[1])).is_ok());
}

#[test]
fn registry_is_a_map() {
    let mut connections = ConnectionManager::new();
    assert_eq!(connections.get((1, 2)), None);
    assert_eq!(connections.insert((1, 2), 10), None);
    assert_eq!(connections.insert((1, 3), 11), None);
    assert_eq!(connections.insert((1, 2), 12), Some(10));
    assert_eq!(connections.get((1, 2)), Some(12));
    assert_eq!(connections.get((1, 3)), Some(11));
    assert_eq!(connections.remove((1, 2)), Some(12));
    assert_eq!(connections.remove((1, 2)), None);
    assert_eq!(connections.get((1, 2)), None);
}

#[test]
fn handshake_ids_leave_room() {
    assert!(HandshakeIds::of_draw(1, u64::MAX - 1, 2).is_none());
    let ids = HandshakeIds::of_draw(1, u64::MAX - 2, 2).unwrap();
    assert_eq!(ids.packet_number, u64::MAX - 2);
    let a = HandshakeIds::draw(2).unwrap();
    let b = HandshakeIds::draw(2).unwrap();
    assert_ne!((a.src_conn_id, a.packet_number), (b.src_conn_id, b.packet_number));
}

#[test]
fn handshake_between_client_and_server() {
    let mut client = BluefinClient::new(addr(1));
    let mut server = BluefinServer::new(addr(2));
    assert_eq!(client.src_addr(), addr(1));
    assert_eq!(server.src_addr(), addr(2));
    client.begin_connect(addr(2)).unwrap();
    assert!(matches!(client.begin_connect(addr(2)), Err(BluefinError::InvalidState(_))));

    let client_ids = HandshakeIds { src_conn_id: 0xc1, packet_number: 500 };
    let server_ids = HandshakeIds { src_conn_id: 0x51, packet_number: 900 };
    let mut client_bufs = BluefinClient::new_buffers(client_ids);
    let mut server_bufs = BluefinServer::new_buffers(server_ids);

    let hello = client.register_hello(client_ids, 1).unwrap();
    assert!(matches!(
        client.register_hello(client_ids, 1),
        Err(BluefinError::ConnectionAlreadyExists)
    ));
    assert!(server.register_accept(server_ids, 2).is_none());

    // The hello reaches the slot that waits for it.
    let (_s, server_waker) = waker();
    server_bufs.conn_buff.set_waker(server_waker.clone());
    let at_server = ReaderTxChannel::new(BluefinHost::PackLeader);
    let mut packets = Vec::new();
    let (endpoint, connections) = server.reader_parts();
    let route = at_server
        .route_datagram(endpoint, connections, &hello, &mut packets, addr(1))
        .unwrap();
    assert_eq!(route, Route { handle: 2, is_hello: true });
    assert_eq!(at_server.deliver(true, &mut packets, addr(1), &mut server_bufs).len(), 1);
    let (client_hello, from) = server_bufs.conn_buff.poll_handshake(&server_waker).unwrap();
    assert_eq!(from, addr(1));
    let answer = server.on_client_hello(server_ids, 2, &client_hello).unwrap();
    assert_eq!(server.connections().get((0x51, 0)), None);
    assert_eq!(server.connections().get((0x51, 0xc1)), Some(2));

    let (_c, client_waker) = waker();
    client_bufs.conn_buff.set_waker(client_waker.clone());
    let at_client = ReaderTxChannel::new(BluefinHost::Client);
    let mut client_endpoint = Endpoint::new(BluefinHost::Client);
    let route = at_client
        .route_datagram(&mut client_endpoint, client.connections(), &answer, &mut packets, addr(2))
        .unwrap();
    assert_eq!(route, Route { handle: 1, is_hello: true });
    at_client.deliver(true, &mut packets, addr(2), &mut client_bufs);
    let arrived = client_bufs.conn_buff.poll_handshake(&client_waker);
    let (server_hello, _) = handshake_answer(arrived).unwrap();
    let (at_client_end, ack) = client.on_server_hello(client_ids, 1, &server_hello).unwrap();
    assert_eq!(
        at_client_end,
        Established { src_conn_id: 0xc1, dst_conn_id: 0x51, next_send_packet_num: 502 }
    );
    assert_eq!(client.connections().get((0xc1, 0x51)), Some(1));

    let (endpoint, connections) = server.reader_parts();
    let route = at_server
        .route_datagram(endpoint, connections, &ack, &mut packets, addr(1))
        .unwrap();
    assert_eq!(route, Route { handle: 2, is_hello: false });
    at_server.deliver(false, &mut packets, addr(1), &mut server_bufs);
    let (client_ack, _) = server_bufs.conn_buff.poll_handshake(&server_waker).unwrap();
    let at_server_end = BluefinServer::on_client_ack(server_ids, &client_hello, &client_ack).unwrap();
    assert_eq!(
        at_server_end,
        Established { src_conn_id: 0x51, dst_conn_id: 0xc1, next_send_packet_num: 901 }
    );

    // The first data of each end is what the other end expects.
    let mut pump = DataPump::new(at_client_end.next_send_packet_num, 0xc1, 0x51);
    let mut sent = vec![Bytes::from_static(b"hello")];
    pump.receive(&mut sent);
    let datagram = pump.make_datagrams().datagrams.pop().unwrap();
    let (endpoint, connections) = server.reader_parts();
    let route = at_server
        .route_datagram(endpoint, connections, &datagram, &mut packets, addr(1))
        .unwrap();
    assert_eq!(at_server.deliver(route.is_hello, &mut packets, addr(1), &mut server_bufs).len(), 1);
    let mut reader = ReaderRxChannel::new();
    let mut buf = [0u8; 16];
    let outcome = reader.read(&mut server_bufs.conn_buff, false, 16, &mut buf);
    assert_eq!(outcome.result.unwrap(), (5, addr(1)));
    assert_eq!(&buf[..5], b"hello");
    assert_eq!(
        outcome.events,
        vec![DiagnosticEvent::DataReceived { base_packet_num: 502, num_packets: 1, num_bytes: 5 }]
    );
    assert!(outcome.ack.is_none());
}

#[test]
fn handshake_errors() {
    let ids = HandshakeIds { src_conn_id: 3, packet_number: 10 };
    let mut client = BluefinClient::new(addr(1));
    let zero = build_empty_encrypted_packet(9, 3, 0, PacketType::UnencryptedServerHello);
    assert_eq!(
        client.on_server_hello(ids, 1, &zero).err(),
        Some(BluefinError::UnexpectedPacketNumberError)
    );
    let hello = build_empty_encrypted_packet(9, 3, 5, PacketType::UnencryptedServerHello);
    assert_eq!(
        client.on_server_hello(ids, 1, &hello).err(),
        Some(BluefinError::NoSuchConnectionError)
    );
    client.register_hello(ids, 1).unwrap();
    client.connections().insert((3, 9), 7);
    assert_eq!(
        client.on_server_hello(ids, 1, &hello).err(),
        Some(BluefinError::ConnectionAlreadyExists)
    );

    let mut server = BluefinServer::new(addr(2));
    let zero = build_empty_encrypted_packet(9, 0, 0, PacketType::UnencryptedClientHello);
    assert_eq!(
        server.on_client_hello(ids, 1, &zero),
        Err(BluefinError::UnexpectedPacketNumberError)
    );
    let hello = build_empty_encrypted_packet(9, 0, 5, PacketType::UnencryptedClientHello);
    let ack = build_empty_encrypted_packet(9, 3, 5, PacketType::ClientAck);
    assert_eq!(
        BluefinServer::on_client_ack(ids, &hello, &ack),
        Err(BluefinError::UnexpectedPacketNumberError)
    );
    assert!(matches!(
        handshake_answer(None),
        Err(BluefinError::TimedOut("Failed to read from handshake connection buffer"))
    ));
    assert_eq!(
        client.set_num_reader_workers(0),
        Err(BluefinError::Unexpected("Cannot have zero reader values".to_string()))
    );
    assert_eq!(
        server.set_num_reader_workers(0),
        Err(BluefinError::Unexpected("Cannot have zero reader values".to_string()))
    );
    client.set_num_reader_workers(4).unwrap();
    server.set_num_reader_workers(5).unwrap();
    assert_eq!(client.num_reader_workers(), 4);
    assert_eq!(server.num_reader_workers(), 5);
}

#[test]
fn early_hello_is_kept_for_the_next_accept() {
    let mut server = BluefinServer::new(addr(2));
    let reader = ReaderTxChannel::new(BluefinHost::PackLeader);
    let hello = bare_datagram(0xc1, 0, 44, PacketType::UnencryptedClientHello);
    assert_eq!(hello.len(), 20);
    let mut packets = Vec::new();
    let (endpoint, connections) = server.reader_parts();
    assert!(reader.route_datagram(endpoint, connections, &hello, &mut packets, addr(9)).is_none());
    let ids = HandshakeIds { src_conn_id: 5, packet_number: 1 };
    let (packet, from) = server.register_accept(ids, 1).unwrap();
    assert_eq!(packet.header.packet_number, 44);
    assert_eq!(from, addr(9));
}

#[test]
fn hello_actions_and_keys() {
    let mut endpoint = Endpoint::new(BluefinHost::PackLeader);
    let hello = build_empty_encrypted_packet(7, 0, 1, PacketType::UnencryptedClientHello);
    let mut packets = vec![hello.clone()];
    assert_eq!(
        ReaderTxChannel::handle_hello_single(&mut endpoint, &mut packets, addr(1)),
        HelloAction::Queued
    );
    endpoint.take_queued_hello_or_register(3).unwrap();
    endpoint.take_queued_hello_or_register(3);
    let mut packets = vec![hello];
    assert_eq!(
        ReaderTxChannel::handle_hello_single(&mut endpoint, &mut packets, addr(1)),
        HelloAction::Routed(3)
    );
    let mut packets = vec![data(1, &[1])];
    assert_eq!(
        ReaderTxChannel::handle_hello_single(&mut endpoint, &mut packets, addr(1)),
        HelloAction::NotHello
    );
    assert_eq!(ReaderTxChannel::build_conn_buff_key(true, 4, 5), (4, 0));
    assert_eq!(ReaderTxChannel::build_conn_buff_key(false, 4, 5), (4, 5));
}

#[test]
fn unknown_datagrams_are_discarded() {
    let reader = ReaderTxChannel::new(BluefinHost::Client);
    let mut endpoint = Endpoint::new(BluefinHost::Client);
    let connections = ConnectionManager::new();
    let mut packets = Vec::new();
    assert!(reader
        .route_datagram(&mut endpoint, &connections, &[1, 2], &mut packets, addr(1))
        .is_none());
    let stray = bare_datagram(1, 2, 3, PacketType::Ack);
    assert!(reader
        .route_datagram(&mut endpoint, &connections, &stray, &mut packets, addr(1))
        .is_none());
    let mut none = Vec::new();
    assert!(reader.route(&mut endpoint, &connections, &mut none, addr(1)).is_none());
}

#[test]
fn delivery_answers() {
    let mut bufs = BluefinServer::new_buffers(HandshakeIds { src_conn_id: 1, packet_number: 1 });
    let delivered = ReaderTxChannel::buffer_in_data(
        false,
        BluefinHost::PackLeader,
        data(0, &[1]),
        addr(1),
        &mut bufs,
    );
    assert_eq!(delivered.result, Err(BluefinError::NoSuchWakerError));
    let again = ReaderTxChannel::buffer_to_conn_buffer(
        &mut bufs.conn_buff,
        data(0, &[1]),
        addr(1),
        false,
        false,
    );
    assert_eq!(again.result, Err(BluefinError::UnexpectedPacketNumberError));
    let ack = build_empty_encrypted_packet(1, 2, 5, PacketType::Ack);
    let acked = ReaderTxChannel::buffer_in_data(
        false,
        BluefinHost::PackLeader,
        ack.clone(),
        addr(1),
        &mut bufs,
    );
    assert_eq!(acked.result, Err(BluefinError::NoSuchWakerError));
    let (counter, waker) = waker();
    bufs.ack_buff.set_waker_if_changed(&waker);
    let acked = ReaderTxChannel::buffer_to_ack_buffer(&mut bufs.ack_buff, ack);
    assert!(acked.result.is_ok());
    acked.wake.unwrap().wake();
    assert_eq!(counter.wakes.load(Ordering::Acquire), 1);
    let refused = ReaderTxChannel::buffer_to_ack_buffer(&mut bufs.ack_buff, data(1, &[1]));
    assert!(matches!(refused.result, Err(BluefinError::Unexpected(_))));
}

#[test]
fn acks_are_due_after_enough_packets() {
    let mut bufs = BluefinClient::new_buffers(HandshakeIds { src_conn_id: 1, packet_number: 1 });
    bufs.conn_buff.buffer_in_addr(addr(3)).unwrap();
    for pn in 0..300u64 {
        bufs.conn_buff.buffer_in_bytes(data(pn, &[pn as u8])).unwrap();
    }
    let mut reader = ReaderRxChannel::new();
    let mut buf = [0u8; 512];
    // The first packet has the number zero, so the read is not acknowledged.
    let outcome = reader.read(&mut bufs.conn_buff, false, 250, &mut buf);
    assert_eq!(outcome.result.unwrap().0, 250);
    assert!(outcome.ack.is_none());
    let outcome = reader.read(&mut bufs.conn_buff, false, 20, &mut buf);
    let ack = outcome.ack.unwrap();
    assert_eq!((ack.base_packet_num, ack.num_packets_consumed), (250, 20));
    assert_eq!(outcome.events.len(), 2);
    let mut out = Vec::new();
    let outcome = reader.read_bytes(&mut bufs.conn_buff, false, &mut out, 16);
    assert_eq!(outcome.result.unwrap().0, 16);
    assert!(outcome.ack.is_none());
    assert_eq!(out.len(), 16);
    let outcome = reader.read_bytes(&mut bufs.conn_buff, true, &mut out, 16);
    assert_eq!(outcome.result.unwrap().0, 14);
    let outcome = reader.read_bytes(&mut bufs.conn_buff, true, &mut out, 16);
    assert_eq!(outcome.result.unwrap(), (0, addr(3)));
    let outcome = reader.read_bytes(&mut bufs.conn_buff, false, &mut out, 16);
    assert!(matches!(outcome.result, Err(BluefinError::BufferEmptyError)));
}

#[test]
fn close_ends_with_an_answer_or_without() {
    let established = Established { src_conn_id: 1, dst_conn_id: 2, next_send_packet_num: 30 };
    let (mut conn, _tasks) = BluefinConnection::new(established);
    assert_eq!(conn.ids(), (1, 2));
    assert_eq!(conn.version(), 0);
    assert!(!conn.security_fields().encrypted());
    assert_eq!(conn.send(&[1, 2, 3]), Ok(3));
    assert_eq!(conn.send_bytes(Bytes::from_static(&[1])), Ok(1));
    assert_eq!(conn.writer().next_packet_num(), 30);

    let mut pump = DataPump::new(30, 1, 2);
    let mut close_buff = CloseBuffer::new();
    let mut connections = ConnectionManager::new();
    connections.insert((1, 2), 5);
    let mut driver = conn.begin_close(&mut pump, &mut close_buff);
    assert_eq!(driver.fin_packet_num(), 30);
    assert_eq!(conn.send(&[1]), Err(BluefinError::ConnectionClosed));
    let (fin, event) = driver.next_attempt().unwrap();
    assert_eq!(event, DiagnosticEvent::FinSent { packet_num: 30 });
    let packets = BluefinPacket::from_bytes(&fin).unwrap();
    assert_eq!(packets[0].header.type_field, PacketType::Fin);
    assert!(!driver.finish(&mut close_buff, &mut connections));
    assert!(!BluefinConnection::is_closed(&close_buff));
    assert!(driver.next_attempt().is_some());
    close_buff.buffer_in_fin_ack(&build_empty_encrypted_packet(2, 1, 29, PacketType::FinAck));
    assert!(!driver.finish(&mut close_buff, &mut connections));
    close_buff.buffer_in_fin_ack(&build_empty_encrypted_packet(2, 1, 30, PacketType::FinAck));
    assert!(driver.finish(&mut close_buff, &mut connections));
    assert!(BluefinConnection::is_closed(&close_buff));
    assert_eq!(close_buff.state(), CloseState::Closed);
    assert_eq!(connections.get((1, 2)), None);

    let mut close_buff = CloseBuffer::new();
    connections.insert((1, 2), 5);
    let mut driver = conn.begin_close(&mut pump, &mut close_buff);
    for _ in 0..3 {
        assert!(driver.next_attempt().is_some());
    }
    assert!(driver.next_attempt().is_none());
    assert_eq!(
        driver.give_up(&mut close_buff, &mut connections),
        Err(BluefinError::TimedOut(
            "close: peer did not send FinAck within retransmit budget"
        ))
    );
    assert!(BluefinConnection::is_closed(&close_buff));
    assert_eq!(connections.get((1, 2)), None);
}

#[test]
fn a_waker_is_kept_until_another_task_waits() {
    let (first_count, first) = waker();
    let (second_count, second) = waker();
    let mut buffer = ConnectionBuffer::new(1, BluefinHost::Client);
    // There is nothing to be kept yet, whatever is said of it.
    buffer.keep_waker(true, &first);
    buffer.take_waker_clone().unwrap().wake();
    assert_eq!(first_count.wakes.load(Ordering::Acquire), 1);
    buffer.keep_waker(true, &second);
    buffer.take_waker_clone().unwrap().wake();
    assert_eq!(first_count.wakes.load(Ordering::Acquire), 2);
    buffer.keep_waker(false, &second);
    buffer.take_waker_clone().unwrap().wake();
    assert_eq!(second_count.wakes.load(Ordering::Acquire), 1);
    // The two wake different tasks, so the new one is kept.
    buffer.set_waker_if_changed(&first);
    buffer.get_waker().unwrap().wake_by_ref();
    assert_eq!(first_count.wakes.load(Ordering::Acquire), 3);
    assert_eq!(second_count.wakes.load(Ordering::Acquire), 1);
}

#[test]
fn packets_can_arrive_in_any_order_and_twice() {
    let payloads: [&[u8]; 5] = [&[1, 2], &[3], &[4, 5, 6], &[7], &[8, 9]];
    let mut buffer = OrderedBytes::new(1, 50);
    for i in [4usize, 1, 1, 3, 4, 0, 2] {
        let fresh = buffer.buffer_in_packet(data(50 + i as u64, payloads[i]));
        if let Err(e) = fresh {
            assert_eq!(e, BluefinError::UnexpectedPacketNumberError);
        }
    }
    let mut buf = [0u8; 16];
    let consumed = buffer.consume(16, &mut buf).unwrap();
    assert_eq!(consumed.get_bytes_consumed(), 9);
    assert_eq!(consumed.get_num_packets_consumed(), 5);
    assert_eq!(consumed.get_base_packet_number(), 50);
    assert_eq!(&buf[..9], &[1, 2, 3, 4, 5, 6, 7, 8, 9]);
}

#[test]
fn arrivals_and_reads_can_follow_each_other_in_any_way() {
    let payloads: [&[u8]; 5] = [&[1, 2], &[3], &[4, 5, 6], &[7], &[8, 9]];
    let mut buffer = OrderedBytes::new(1, 50);
    let mut read: Vec<u8> = Vec::new();
    let mut buf = [0u8; 2];
    let mut out: Vec<Bytes> = Vec::new();
    // A packet that comes again after it was read is refused.
    for i in [1usize, 0, 0, 3, 1, 2, 0, 4] {
        let _ = buffer.buffer_in_packet(data(50 + i as u64, payloads[i]));
        if i == 3 {
            if buffer.consume_bytes(&mut out, 1).is_ok() {
                for payload in out.drain(..) {
                    read.extend_from_slice(&payload);
                }
            }
        } else if let Ok(consumed) = buffer.consume(2, &mut buf) {
            read.extend_from_slice(&buf[..consumed.get_bytes_consumed() as usize]);
        }
    }
    while let Ok(consumed) = buffer.consume(2, &mut buf) {
        read.extend_from_slice(&buf[..consumed.get_bytes_consumed() as usize]);
    }
    assert_eq!(read, vec![1, 2, 3, 4, 5, 6, 7, 8, 9]);
}

fn fin(pn: u64) -> BluefinPacket {
    build_empty_encrypted_packet(9, 1, pn, PacketType::Fin)
}

#[test]
fn the_end_of_the_stream_lasts() {
    let mut bufs = BluefinClient::new_buffers(HandshakeIds { src_conn_id: 1, packet_number: 1 });
    bufs.conn_buff.buffer_in_addr(addr(3)).unwrap();
    bufs.conn_buff.buffer_in_bytes(data(0, &[1, 2])).unwrap();
    ConnReaderHandler::buffer_in_packets(&mut vec![fin(1)], &mut bufs).result.unwrap();
    assert!(bufs.close_buff.peer_fin_observed());
    let mut reader = ReaderRxChannel::new();
    let mut buf = [7u8; 4];
    let outcome = reader.read(&mut bufs.conn_buff, true, 4, &mut buf);
    assert_eq!(outcome.result.unwrap(), (2, addr(3)));
    assert_eq!(buf, [1, 2, 7, 7]);
    let unacknowledged = reader.packets_unacknowledged();
    let (_counter, waker) = waker();
    let host = ReaderTxChannel::new(BluefinHost::Client);
    let mut out = Vec::new();
    for _ in 0..3 {
        assert!(ReaderRxChannel::poll_ready(&mut bufs.conn_buff, true, &waker));
        assert!(bufs.conn_buff.take_waker_clone().is_none());
        let outcome = reader.read(&mut bufs.conn_buff, true, 4, &mut buf);
        assert_eq!(outcome.result.unwrap(), (0, addr(3)));
        assert!(outcome.ack.is_none());
        assert!(outcome.events.is_empty());
        assert_eq!(buf, [1, 2, 7, 7]);
        let outcome = reader.read_bytes(&mut bufs.conn_buff, true, &mut out, 4);
        assert_eq!(outcome.result.unwrap(), (0, addr(3)));
        assert!(out.is_empty());
        // Data that comes after the `Fin` brings no bytes, whatever its number is and
        // whichever socket it comes to.
        for pn in [0u64, 1, 2] {
            let mut packets = vec![data(pn, &[8])];
            let buffered = ConnReaderHandler::buffer_in_packets(&mut packets, &mut bufs);
            assert_eq!(buffered.result, Ok(()));
            assert!(buffered.wake.is_none());
            assert!(packets.is_empty());
            packets.push(data(pn, &[8]));
            assert!(host.deliver(false, &mut packets, addr(3), &mut bufs).is_empty());
            assert!(packets.is_empty());
        }
    }
    assert_eq!(reader.packets_unacknowledged(), unacknowledged);
}

#[test]
fn only_the_tail_is_read_after_a_fin() {
    let mut bufs = BluefinClient::new_buffers(HandshakeIds { src_conn_id: 1, packet_number: 1 });
    bufs.conn_buff.buffer_in_addr(addr(3)).unwrap();
    for (pn, payload) in [(0u64, vec![1u8, 2]), (1, vec![3]), (3, vec![9])] {
        bufs.conn_buff.buffer_in_bytes(data(pn, &payload)).unwrap();
    }
    let (_counter, waker) = waker();
    bufs.conn_buff.set_waker_if_changed(&waker);
    // Without a `Fin` data is taken.
    let delivered =
        ReaderTxChannel::buffer_in_data(false, BluefinHost::Client, data(5, &[9]), addr(3), &mut bufs);
    assert_eq!(delivered.result, Ok(()));
    assert!(delivered.wake.is_some());
    ConnReaderHandler::buffer_in_packets(&mut vec![fin(4)], &mut bufs).result.unwrap();
    let mut reader = ReaderRxChannel::new();
    let mut read: Vec<u8> = Vec::new();
    let mut buf = [0u8; 2];
    loop {
        let delivered = ReaderTxChannel::buffer_in_data(
            false,
            BluefinHost::Client,
            data(2, &[8]),
            addr(3),
            &mut bufs,
        );
        assert_eq!(delivered.result, Ok(()));
        assert!(delivered.wake.is_none());
        let outcome = reader.read(&mut bufs.conn_buff, true, 2, &mut buf);
        let (size, _) = outcome.result.unwrap();
        if size == 0 {
            break;
        }
        read.extend_from_slice(&buf[..size as usize]);
    }
    assert_eq!(read, vec![1, 2, 3]);
}

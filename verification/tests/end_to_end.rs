use std::sync::Arc;
use std::task::{Wake, Waker};

use bluefin::addr::SocketAddr;
use bluefin::context::BluefinHost;
use bluefin::endpoint::Endpoint;
use bluefin::error::BluefinError;
use bluefin::net::client::{BluefinClient, Established};
use bluefin::net::connection::ConnectionManagedBuffers;
use bluefin::net::established::BluefinConnection;
use bluefin::net::handshake_ids::HandshakeIds;
use bluefin::net::server::BluefinServer;
use bluefin::wire::packet::BluefinPacket;
use bluefin::worker::conn_reader::{Buffered, ConnReaderHandler, Received};
use bluefin::worker::handle::WriterHandler;
use bluefin::worker::pump::DataPump;
use bluefin::worker::reader::{ReaderRxChannel, ReaderTxChannel};
use bytes::Bytes;

struct Idle;

impl Wake for Idle {
    fn wake(self: Arc<Self>) {}
}

fn addr(port: u16) -> SocketAddr {
    SocketAddr::V4 { octets: [127, 0, 0, 1], port }
}

/// What the two hosts have after a handshake.
struct Ends {
    client: BluefinClient,
    at_client: Established,
    client_bufs: ConnectionManagedBuffers,
    at_server: Established,
    server_bufs: ConnectionManagedBuffers,
}

fn connected(waker: &Waker) -> Ends {
    let mut client = BluefinClient::new(addr(1481));
    let mut server = BluefinServer::new(addr(1480));
    let client_ids = HandshakeIds { src_conn_id: 0xc1, packet_number: 70 };
    let server_ids = HandshakeIds { src_conn_id: 0x51, packet_number: 90 };
    let mut client_bufs = BluefinClient::new_buffers(client_ids);
    let mut server_bufs = BluefinServer::new_buffers(server_ids);
    let mut packets: Vec<BluefinPacket> = Vec::new();

    client.begin_connect(addr(1480)).unwrap();
    let hello = client.register_hello(client_ids, 1).unwrap();
    assert!(server.register_accept(server_ids, 2).is_none());
    let reader = ReaderTxChannel::new(BluefinHost::PackLeader);
    let (endpoint, connections) = server.reader_parts();
    let route =
        reader.route_datagram(endpoint, connections, &hello, &mut packets, addr(1481)).unwrap();
    reader.deliver(route.is_hello, &mut packets, addr(1481), &mut server_bufs);
    let (client_hello, _) = server_bufs.conn_buff.poll_handshake(waker).unwrap();
    let answer = server.on_client_hello(server_ids, 2, &client_hello).unwrap();

    let at_client_reader = ReaderTxChannel::new(BluefinHost::Client);
    let mut endpoint = Endpoint::new(BluefinHost::Client);
    let route = at_client_reader
        .route_datagram(&mut endpoint, client.connections(), &answer, &mut packets, addr(1480))
        .unwrap();
    at_client_reader.deliver(route.is_hello, &mut packets, addr(1480), &mut client_bufs);
    let (server_hello, _) = client_bufs.conn_buff.poll_handshake(waker).unwrap();
    let (at_client, ack) = client.on_server_hello(client_ids, 1, &server_hello).unwrap();

    let (endpoint, connections) = server.reader_parts();
    let route =
        reader.route_datagram(endpoint, connections, &ack, &mut packets, addr(1481)).unwrap();
    reader.deliver(route.is_hello, &mut packets, addr(1481), &mut server_bufs);
    let (client_ack, _) = server_bufs.conn_buff.poll_handshake(waker).unwrap();
    let at_server = BluefinServer::on_client_ack(server_ids, &client_hello, &client_ack).unwrap();
    Ends { client, at_client, client_bufs, at_server, server_bufs }
}

fn receive(datagram: &[u8], bufs: &mut ConnectionManagedBuffers) -> Buffered {
    let mut packets: Vec<BluefinPacket> = Vec::new();
    match ConnReaderHandler::receive(datagram, &mut packets, bufs) {
        Received::Buffered(buffered) => buffered,
        _ => panic!("the datagram is not accepted"),
    }
}

#[test]
fn graceful_close_drives_eof_on_recv_and_resolves_close() {
    let waker: Waker = Arc::new(Idle).into();
    let mut ends = connected(&waker);
    let (mut conn, mut tasks) = BluefinConnection::new(ends.at_client);
    let (src_conn_id, dst_conn_id) = conn.ids();
    let mut pump = DataPump::new(conn.writer().next_packet_num(), src_conn_id, dst_conn_id);

    assert_eq!(conn.send(&[1, 2, 3, 4, 5]), Ok(5));
    let mut queued: Vec<Bytes> = vec![tasks.data.try_recv().unwrap()];
    pump.receive(&mut queued);
    let batch = pump.make_datagrams();
    assert_eq!(batch.datagrams.len(), 1);

    // The server reads the data, and then waits.
    let mut reader = ReaderRxChannel::new();
    let mut buf = [0u8; 32];
    receive(&batch.datagrams[0], &mut ends.server_bufs);
    assert!(ReaderRxChannel::poll_ready(&mut ends.server_bufs.conn_buff, false, &waker));
    let read = reader.read(&mut ends.server_bufs.conn_buff, false, 5, &mut buf);
    assert_eq!(read.result, Ok((5, addr(1481))));
    assert_eq!(&buf[..5], &[1, 2, 3, 4, 5]);
    assert_eq!(reader.packets_unacknowledged(), 1);
    assert!(!ReaderRxChannel::poll_ready(&mut ends.server_bufs.conn_buff, false, &waker));

    // The client closes: its `Fin` wakes the server's reader and is answered.
    let mut driver = conn.begin_close(&mut pump, &mut ends.client_bufs.close_buff);
    let (fin, _) = driver.next_attempt().unwrap();
    assert!(!driver.finish(&mut ends.client_bufs.close_buff, ends.client.connections()));
    let buffered = receive(&fin, &mut ends.server_bufs);
    assert!(buffered.wake.is_some());
    assert_eq!(buffered.fin_ack, Some(driver.fin_packet_num()));
    let at_end = ends.server_bufs.close_buff.peer_fin_observed();
    assert!(ReaderRxChannel::poll_ready(&mut ends.server_bufs.conn_buff, at_end, &waker));
    for _ in 0..2 {
        let read = reader.read(&mut ends.server_bufs.conn_buff, at_end, 32, &mut buf);
        assert_eq!(read.result, Ok((0, addr(1481))), "expected EOF after client close");
    }

    let answers = WriterHandler::new(0, ends.at_server.src_conn_id, ends.at_server.dst_conn_id);
    let fin_ack = answers.fin_ack_datagram(buffered.fin_ack.unwrap());
    assert!(receive(&fin_ack, &mut ends.client_bufs).notify_closer);
    assert!(driver.finish(&mut ends.client_bufs.close_buff, ends.client.connections()));
    assert!(BluefinConnection::is_closed(&ends.client_bufs.close_buff));
    assert_eq!(ends.client.connections().get((src_conn_id, dst_conn_id)), None);
    assert_eq!(conn.send(&[9, 9, 9]), Err(BluefinError::ConnectionClosed));
}

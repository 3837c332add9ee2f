//! The server's side of opening a connection.
use vstd::prelude::*;

use crate::addr::SocketAddr;
use crate::context::BluefinHost;
use crate::endpoint::{Endpoint, EndpointModel, hello_view};
use crate::error::{BluefinError, BluefinResult, ErrorView, fails_with};
use crate::net::ack_handler::AckBufferModel;
use crate::net::client::{
    Established, client_ack, client_established, client_hello, reader_workers_refusal,
};
use crate::net::close_handler::CloseBufferModel;
use crate::net::connection::{ConnectionManagedBuffers, ConnectionModel, ManagedModel, answers};
use crate::net::handshake_ids::HandshakeIds;
use crate::net::registry::{ConnectionManager, no_connections};
use crate::net::{bare_datagram, bare_packet};
use crate::wire::header::PacketType;
use crate::wire::packet::{BluefinPacket, PacketView};

verus! {

broadcast use vstd::string::group_string_axioms;

/// The number of reader tasks of a server.
pub const NUM_TX_WORKERS_FOR_SERVER_DEFAULT: u16 = 1;

/// A host that accepts connections.
pub struct BluefinServer {
    src_addr: SocketAddr,
    conn_manager: ConnectionManager,
    endpoint: Endpoint,
    num_reader_workers: u16,
}

/// The mathematical value of a [`BluefinServer`].
pub ghost struct ServerModel {
    pub src_addr: SocketAddr,
    pub connections: Map<(u32, u32), u64>,
    pub endpoint: EndpointModel,
    pub num_reader_workers: u16,
}

impl View for BluefinServer {
    type V = ServerModel;

    closed spec fn view(&self) -> ServerModel {
        ServerModel {
            src_addr: self.src_addr,
            connections: self.conn_manager@,
            endpoint: self.endpoint@,
            num_reader_workers: self.num_reader_workers,
        }
    }
}

/// The server's answer to a client's hello.
pub open spec fn server_hello(ids: HandshakeIds, dst_conn_id: u32) -> PacketView {
    bare_packet(
        ids.src_conn_id,
        dst_conn_id,
        ids.packet_number,
        PacketType::UnencryptedServerHello,
    )
}

/// The connection that the server has after the client's ack.
pub open spec fn server_established(ids: HandshakeIds, client_hello: PacketView) -> Established {
    Established {
        src_conn_id: ids.src_conn_id,
        dst_conn_id: client_hello.header.source_connection_id,
        next_send_packet_num: (ids.packet_number + 1) as u64,
    }
}

/// What the server keeps of a connection that is about to be accepted.
pub open spec fn server_buffers(ids: HandshakeIds) -> ManagedModel {
    ManagedModel {
        conn: ConnectionModel::fresh(BluefinHost::PackLeader),
        acks: AckBufferModel::fresh((ids.packet_number + 1) as u64),
        close: CloseBufferModel::fresh(),
    }
}

impl ServerModel {
    /// The server is ready for a connection: it is kept under the server's id alone,
    /// and waits for a hello or takes the oldest one that waits.
    pub open spec fn on_register(self, ids: HandshakeIds, handle: u64) -> ServerModel {
        ServerModel {
            connections: self.connections.insert((ids.src_conn_id, 0), handle),
            endpoint: self.endpoint.on_accept(ids.src_conn_id),
            ..self
        }
    }

    /// Why a client's hello is refused: the initial packet numbers cannot be zero.
    pub open spec fn hello_refusal(hello: PacketView) -> Option<ErrorView> {
        if hello.header.packet_number == 0 {
            Some(ErrorView::UnexpectedPacketNumberError)
        } else {
            None
        }
    }

    /// The connections after a client's hello: the entry with the peer's id takes
    /// the place of the one without.
    pub open spec fn connections_after_hello(
        self,
        ids: HandshakeIds,
        handle: u64,
        hello: PacketView,
    ) -> Map<(u32, u32), u64> {
        if hello.header.packet_number == 0 {
            self.connections
        } else {
            self.connections.remove((ids.src_conn_id, 0)).insert(
                (ids.src_conn_id, hello.header.source_connection_id),
                handle,
            )
        }
    }
}

/// The client's ack has the number that it has to have.
pub open spec fn acknowledges(ack: PacketView, hello: PacketView) -> bool {
    ack.header.packet_number == hello.header.packet_number + 1
}

impl BluefinServer {
    pub fn new(src_addr: SocketAddr) -> (server: Self)
        ensures
            server@.src_addr == src_addr,
            server@.connections == no_connections(),
            server@.endpoint == EndpointModel::fresh(BluefinHost::PackLeader),
            server@.num_reader_workers == NUM_TX_WORKERS_FOR_SERVER_DEFAULT,
    {
        BluefinServer {
            src_addr,
            conn_manager: ConnectionManager::new(),
            endpoint: Endpoint::new(BluefinHost::PackLeader),
            num_reader_workers: NUM_TX_WORKERS_FOR_SERVER_DEFAULT,
        }
    }

    #[inline]
    pub fn set_num_reader_workers(&mut self, num_reader_workers: u16) -> (set: BluefinResult<()>)
        ensures
            answers(set, reader_workers_refusal(num_reader_workers)),
            final(self)@ == if num_reader_workers == 0 {
                old(self)@
            } else {
                ServerModel { num_reader_workers, ..old(self)@ }
            },
    {
        if num_reader_workers == 0 {
            return Err(BluefinError::Unexpected("Cannot have zero reader values".to_string()));
        }
        self.num_reader_workers = num_reader_workers;
        Ok(())
    }

    /// The number of reader tasks.
    pub fn num_reader_workers(&self) -> (workers: u16)
        ensures
            workers == self@.num_reader_workers,
    {
        self.num_reader_workers
    }

    /// The address that the server listens on.
    pub fn src_addr(&self) -> (addr: SocketAddr)
        ensures
            addr == self@.src_addr,
    {
        self.src_addr
    }

    /// The connections of the server.
    pub fn connections(&mut self) -> (connections: &mut ConnectionManager)
        ensures
            connections@ == old(self)@.connections,
            final(self)@ == (ServerModel { connections: final(connections)@, ..old(self)@ }),
    {
        &mut self.conn_manager
    }

    /// The connections and the handshakes of the server, for the reader tasks.
    pub fn reader_parts(&mut self) -> (parts: (&mut Endpoint, &mut ConnectionManager))
        ensures
            parts.0@ == old(self)@.endpoint,
            parts.1@ == old(self)@.connections,
            final(self)@ == (ServerModel {
                endpoint: final(parts.0)@,
                connections: final(parts.1)@,
                ..old(self)@
            }),
    {
        (&mut self.endpoint, &mut self.conn_manager)
    }

    /// Registers the connection that is to be accepted. The oldest hello that
    /// came before is handed out; where there is none, the connection waits for
    /// one.
    pub fn register_accept(&mut self, ids: HandshakeIds, handle: u64) -> (hello: Option<
        (BluefinPacket, SocketAddr),
    >)
        ensures
            final(self)@ == (ServerModel {
                connections: old(self)@.connections.insert((ids.src_conn_id, 0), handle),
                endpoint: old(self)@.endpoint.on_accept(ids.src_conn_id),
                ..old(self)@
            }),
            final(self)@ == old(self)@.on_register(ids, handle),
            match hello {
                Some(hello) => old(self)@.endpoint.hellos.len() > 0 && hello_view(hello) == old(
                    self,
                )@.endpoint.hellos[0],
                None => old(self)@.endpoint.hellos.len() == 0,
            },
    {
        let _ = self.conn_manager.insert((ids.src_conn_id, 0), handle);
        self.endpoint.take_queued_hello_or_register(ids.src_conn_id)
    }

    /// Takes the client's hello, and says what to answer.
    pub fn on_client_hello(&mut self, ids: HandshakeIds, handle: u64, hello: &BluefinPacket) -> (
        answer: BluefinResult<Vec<u8>>)
        ensures
            final(self)@ == (ServerModel {
                connections: old(self)@.connections_after_hello(ids, handle, hello@),
                ..old(self)@
            }),
            match answer {
                Ok(datagram) => {
                    &&& hello@.header.packet_number != 0
                    &&& datagram@ == server_hello(ids, hello@.header.source_connection_id).wire()
                    &&& ServerModel::hello_refusal(hello@) is None
                },
                Err(e) => {
                    &&& ServerModel::hello_refusal(hello@) == Some(e@)
                    &&& hello@.header.packet_number == 0
                    &&& e@ == ErrorView::UnexpectedPacketNumberError
                },
            },
    {
        let src_conn_id: u32 = ids.src_conn_id;
        let dst_conn_id: u32 = hello.header.source_connection_id;
        // The initial packet numbers cannot be zero.
        if hello.header.packet_number == 0 {
            return Err(BluefinError::UnexpectedPacketNumberError);
        }
        let _ = self.conn_manager.remove((src_conn_id, 0));
        let _ = self.conn_manager.insert((src_conn_id, dst_conn_id), handle);
        Ok(
            bare_datagram(
                src_conn_id,
                dst_conn_id,
                ids.packet_number,
                PacketType::UnencryptedServerHello,
            ),
        )
    }

    /// Takes the client's ack, which has to have the number after that of its
    /// hello.
    pub fn on_client_ack(ids: HandshakeIds, hello: &BluefinPacket, ack: &BluefinPacket) -> (
        established: BluefinResult<Established>)
        requires
            ids.leaves(1),
            hello@.header.packet_number < u64::MAX,
        ensures
            ack@.header.packet_number == hello@.header.packet_number + 1 ==> established == Ok::<
                Established,
                BluefinError,
            >(server_established(ids, hello@)),
            ack@.header.packet_number != hello@.header.packet_number + 1 ==> fails_with(
                established,
                ErrorView::UnexpectedPacketNumberError,
            ),
            established is Ok <==> acknowledges(ack@, hello@),
    {
        if ack.header.packet_number != hello.header.packet_number + 1 {
            return Err(BluefinError::UnexpectedPacketNumberError);
        }
        Ok(
            Established {
                src_conn_id: ids.src_conn_id,
                dst_conn_id: hello.header.source_connection_id,
                next_send_packet_num: ids.packet_number + 1,
            },
        )
    }

    /// What the server keeps of a connection that is about to be accepted.
    pub fn new_buffers(ids: HandshakeIds) -> (buffers: ConnectionManagedBuffers)
        requires
            ids.leaves(1),
        ensures
            buffers.conn_buff.valid(),
            buffers@ == (ManagedModel {
                conn: ConnectionModel::fresh(BluefinHost::PackLeader),
                acks: AckBufferModel::fresh((ids.packet_number + 1) as u64),
                close: CloseBufferModel::fresh(),
            }),
            buffers@ == server_buffers(ids),
    {
        ConnectionManagedBuffers::new(
            ids.src_conn_id,
            BluefinHost::PackLeader,
            ids.packet_number + 1,
        )
    }
}

/// After the handshake the two ends agree: each knows the other's id under its
/// own, and each expects as the other's first data packet the number with which
/// the other will send it.
pub proof fn law_handshake_agrees(client: HandshakeIds, server: HandshakeIds)
    requires
        client.leaves(2),
        server.leaves(1),
    ensures
        ({
            let hello = client_hello(client);
            let answer = server_hello(server, hello.header.source_connection_id);
            let ack = client_ack(client, answer.header.source_connection_id);
            let at_client = client_established(client, answer);
            let at_server = server_established(server, hello);
            &&& at_client.src_conn_id == at_server.dst_conn_id
            &&& at_client.dst_conn_id == at_server.src_conn_id
            &&& ack.header.packet_number == hello.header.packet_number + 1
            &&& ConnectionModel::fresh(BluefinHost::PackLeader).on_packet(hello).ordered.next
                == at_client.next_send_packet_num
            &&& ConnectionModel::fresh(BluefinHost::Client).on_packet(answer).ordered.next
                == at_server.next_send_packet_num
        }),
{
}

} // verus!

//! The client's side of opening a connection.
use vstd::prelude::*;

use crate::addr::SocketAddr;
use crate::context::BluefinHost;
use crate::error::{BluefinError, BluefinResult, ErrorView, fails_with};
use crate::handshake::{HandshakeHandler, HandshakeModel};
use crate::net::connection::{ConnectionManagedBuffers, ConnectionModel, ManagedModel, answers};
use crate::net::ack_handler::AckBufferModel;
use crate::net::close_handler::CloseBufferModel;
use crate::net::handshake_ids::HandshakeIds;
use crate::net::registry::{ConnectionManager, no_connections};
use crate::net::{bare_datagram, bare_packet};
use crate::wire::header::PacketType;
use crate::wire::packet::{BluefinPacket, PacketView};

verus! {

broadcast use vstd::string::group_string_axioms;

/// The number of reader tasks of a client.
pub const NUM_TX_WORKERS_FOR_CLIENT_DEFAULT: u16 = 1;

/// An opened connection.
#[derive(Clone, Copy, Debug, PartialEq, Eq, Structural)]
pub struct Established {
    pub src_conn_id: u32,
    pub dst_conn_id: u32,
    /// The number of the first data packet that is sent.
    pub next_send_packet_num: u64,
}

/// A host that opens connections.
pub struct BluefinClient {
    src_addr: SocketAddr,
    dst_addr: Option<SocketAddr>,
    conn_manager: ConnectionManager,
    num_reader_workers: u16,
    handshake_handler: HandshakeHandler,
}

/// The mathematical value of a [`BluefinClient`].
pub ghost struct ClientModel {
    pub src_addr: SocketAddr,
    pub dst_addr: Option<SocketAddr>,
    pub connections: Map<(u32, u32), u64>,
    pub num_reader_workers: u16,
    pub handshake: HandshakeModel,
}

impl View for BluefinClient {
    type V = ClientModel;

    closed spec fn view(&self) -> ClientModel {
        ClientModel {
            src_addr: self.src_addr,
            dst_addr: self.dst_addr,
            connections: self.conn_manager@,
            num_reader_workers: self.num_reader_workers,
            handshake: self.handshake_handler@,
        }
    }
}

/// The client's hello.
pub open spec fn client_hello(ids: HandshakeIds) -> PacketView {
    bare_packet(ids.src_conn_id, 0, ids.packet_number, PacketType::UnencryptedClientHello)
}

/// The client's answer to the server's hello.
pub open spec fn client_ack(ids: HandshakeIds, dst_conn_id: u32) -> PacketView {
    bare_packet(
        ids.src_conn_id,
        dst_conn_id,
        (ids.packet_number + 1) as u64,
        PacketType::ClientAck,
    )
}

/// The connection that the client has after the server's hello.
pub open spec fn client_established(ids: HandshakeIds, server_hello: PacketView) -> Established {
    Established {
        src_conn_id: ids.src_conn_id,
        dst_conn_id: server_hello.header.source_connection_id,
        next_send_packet_num: (ids.packet_number + 2) as u64,
    }
}

/// What the client keeps of a connection that is about to be opened.
pub open spec fn client_buffers(ids: HandshakeIds) -> ManagedModel {
    ManagedModel {
        conn: ConnectionModel::fresh(BluefinHost::Client),
        acks: AckBufferModel::fresh((ids.packet_number + 2) as u64),
        close: CloseBufferModel::fresh(),
    }
}

impl ClientModel {
    /// The client asks for a connection: it is kept under the client's id alone.
    pub open spec fn on_register(self, ids: HandshakeIds, handle: u64) -> ClientModel {
        ClientModel {
            connections: self.connections.insert((ids.src_conn_id, 0), handle),
            ..self
        }
    }

    /// Why a server's hello is refused.
    pub open spec fn hello_refusal(self, ids: HandshakeIds, server_hello: PacketView) -> Option<
        ErrorView,
    > {
        let hello_key = (ids.src_conn_id, 0u32);
        let key = (ids.src_conn_id, server_hello.header.source_connection_id);
        if server_hello.header.packet_number == 0 {
            Some(ErrorView::UnexpectedPacketNumberError)
        } else if !self.connections.contains_key(hello_key) {
            Some(ErrorView::NoSuchConnectionError)
        } else if self.connections.remove(hello_key).contains_key(key) {
            Some(ErrorView::ConnectionAlreadyExists)
        } else {
            None
        }
    }

    /// The connections after a server's hello: the entry with the peer's id takes
    /// the place of the one without.
    pub open spec fn connections_after_hello(
        self,
        ids: HandshakeIds,
        handle: u64,
        server_hello: PacketView,
    ) -> Map<(u32, u32), u64> {
        let hello_key = (ids.src_conn_id, 0u32);
        let key = (ids.src_conn_id, server_hello.header.source_connection_id);
        if server_hello.header.packet_number == 0 {
            self.connections
        } else if !self.connections.contains_key(hello_key) {
            self.connections.remove(hello_key)
        } else {
            self.connections.remove(hello_key).insert(key, handle)
        }
    }
}

impl BluefinClient {
    pub fn new(src_addr: SocketAddr) -> (client: Self)
        ensures
            client@.src_addr == src_addr,
            client@.dst_addr is None,
            client@.connections == no_connections(),
            client@.num_reader_workers == NUM_TX_WORKERS_FOR_CLIENT_DEFAULT,
            client@.handshake == HandshakeModel::fresh(BluefinHost::Client),
    {
        BluefinClient {
            src_addr,
            dst_addr: None,
            conn_manager: ConnectionManager::new(),
            num_reader_workers: NUM_TX_WORKERS_FOR_CLIENT_DEFAULT,
            handshake_handler: HandshakeHandler::new(BluefinHost::Client),
        }
    }

    #[inline]
    pub fn set_num_reader_workers(&mut self, num_reader_workers: u16) -> (set: BluefinResult<()>)
        ensures
            answers(set, reader_workers_refusal(num_reader_workers)),
            final(self)@ == if num_reader_workers == 0 {
                old(self)@
            } else {
                ClientModel { num_reader_workers, ..old(self)@ }
            },
    {
        if num_reader_workers == 0 {
            return Err(BluefinError::Unexpected("Cannot have zero reader values".to_string()));
        }
        self.num_reader_workers = num_reader_workers;
        Ok(())
    }

    /// The number of reader tasks.
    pub fn num_reader_workers(&self) -> (workers: u16)
        ensures
            workers == self@.num_reader_workers,
    {
        self.num_reader_workers
    }

    /// The address that the client sends from.
    pub fn src_addr(&self) -> (addr: SocketAddr)
        ensures
            addr == self@.src_addr,
    {
        self.src_addr
    }

    /// The connections of the client.
    pub fn connections(&mut self) -> (connections: &mut ConnectionManager)
        ensures
            connections@ == old(self)@.connections,
            final(self)@ == (ClientModel { connections: final(connections)@, ..old(self)@ }),
    {
        &mut self.conn_manager
    }

    /// Notes whom to connect to, and begins the handshake. A client does so once.
    pub fn begin_connect(&mut self, dst_addr: SocketAddr) -> (begun: BluefinResult<()>)
        ensures
            final(self)@.dst_addr == Some(dst_addr),
            final(self)@.src_addr == old(self)@.src_addr,
            final(self)@.connections == old(self)@.connections,
            final(self)@.num_reader_workers == old(self)@.num_reader_workers,
            exists|id: u32, number: u64|
                final(self)@.handshake == #[trigger] old(self)@.handshake.on_begin(id, number),
            match old(self)@.handshake.begin_error() {
                None => begun is Ok,
                Some(e) => fails_with(begun, e),
            },
    {
        self.dst_addr = Some(dst_addr);
        self.handshake_handler.begin()
    }

    /// Registers the connection, and says what hello to send.
    pub fn register_hello(&mut self, ids: HandshakeIds, handle: u64) -> (hello: BluefinResult<
        Vec<u8>,
    >)
        ensures
            final(self)@ == (ClientModel {
                connections: old(self)@.connections.insert((ids.src_conn_id, 0), handle),
                ..old(self)@
            }),
            final(self)@ == old(self)@.on_register(ids, handle),
            match hello {
                Ok(datagram) => {
                    &&& !old(self)@.connections.contains_key((ids.src_conn_id, 0))
                    &&& datagram@ == client_hello(ids).wire()
                },
                Err(e) => {
                    &&& old(self)@.connections.contains_key((ids.src_conn_id, 0))
                    &&& e@ == ErrorView::ConnectionAlreadyExists
                },
            },
    {
        if self.conn_manager.insert((ids.src_conn_id, 0), handle).is_some() {
            return Err(BluefinError::ConnectionAlreadyExists);
        }
        Ok(
            bare_datagram(
                ids.src_conn_id,
                0x0,
                ids.packet_number,
                PacketType::UnencryptedClientHello,
            ),
        )
    }

    /// Takes the server's hello, and says what to answer.
    pub fn on_server_hello(
        &mut self,
        ids: HandshakeIds,
        handle: u64,
        server_hello: &BluefinPacket,
    ) -> (established: BluefinResult<(Established, Vec<u8>)>)
        requires
            ids.leaves(2),
        ensures
            final(self)@ == (ClientModel {
                connections: old(self)@.connections_after_hello(ids, handle, server_hello@),
                ..old(self)@
            }),
            match established {
                Ok((connection, datagram)) => {
                    &&& old(self)@.hello_refusal(ids, server_hello@) is None
                    &&& connection == client_established(ids, server_hello@)
                    &&& datagram@ == client_ack(ids, connection.dst_conn_id).wire()
                },
                Err(e) => old(self)@.hello_refusal(ids, server_hello@) == Some(e@),
            },
    {
        let src_conn_id: u32 = ids.src_conn_id;
        let dst_conn_id: u32 = server_hello.header.source_connection_id;
        // The initial packet numbers cannot be zero.
        if server_hello.header.packet_number == 0x0 {
            return Err(BluefinError::UnexpectedPacketNumberError);
        }
        if self.conn_manager.remove((src_conn_id, 0)).is_none() {
            return Err(BluefinError::NoSuchConnectionError);
        }
        if self.conn_manager.insert((src_conn_id, dst_conn_id), handle).is_some() {
            return Err(BluefinError::ConnectionAlreadyExists);
        }
        let datagram: Vec<u8> = bare_datagram(
            src_conn_id,
            dst_conn_id,
            ids.packet_number + 1,
            PacketType::ClientAck,
        );
        Ok(
            (
                Established {
                    src_conn_id,
                    dst_conn_id,
                    next_send_packet_num: ids.packet_number + 2,
                },
                datagram,
            ),
        )
    }

    /// What the client keeps of a connection that is about to be opened.
    pub fn new_buffers(ids: HandshakeIds) -> (buffers: ConnectionManagedBuffers)
        requires
            ids.leaves(2),
        ensures
            buffers.conn_buff.valid(),
            buffers@ == (ManagedModel {
                conn: ConnectionModel::fresh(BluefinHost::Client),
                acks: AckBufferModel::fresh((ids.packet_number + 2) as u64),
                close: CloseBufferModel::fresh(),
            }),
            buffers@ == client_buffers(ids),
    {
        ConnectionManagedBuffers::new(ids.src_conn_id, BluefinHost::Client, ids.packet_number + 2)
    }
}

/// Why a number of reader tasks is refused.
pub open spec fn reader_workers_refusal(num_reader_workers: u16) -> Option<ErrorView> {
    if num_reader_workers == 0 {
        Some(ErrorView::Unexpected("Cannot have zero reader values"@))
    } else {
        None
    }
}

/// What waiting for a packet of the handshake answers: the packet, or that it did
/// not come in time.
pub fn handshake_answer(arrived: Option<(BluefinPacket, SocketAddr)>) -> (answer: BluefinResult<
    (BluefinPacket, SocketAddr),
>)
    ensures
        match arrived {
            Some(arrived) => answer == Ok::<(BluefinPacket, SocketAddr), BluefinError>(arrived),
            None => fails_with(
                answer,
                ErrorView::TimedOut("Failed to read from handshake connection buffer"@),
            ),
        },
{
    match arrived {
        Some(arrived) => Ok(arrived),
        None => Err(BluefinError::TimedOut("Failed to read from handshake connection buffer")),
    }
}

/// Any number of reader tasks will do, but not none.
pub proof fn law_some_reader_is_needed(num_reader_workers: u16)
    ensures
        reader_workers_refusal(num_reader_workers) is None <==> num_reader_workers > 0,
{
}

} // verus!

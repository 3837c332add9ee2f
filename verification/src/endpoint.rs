//! Endpoint state for the handshake.
//!
//! [`Endpoint`] owns the queue of `ClientHello` packets that arrived before any
//! `accept()` slot was ready, and the FIFO of `accept()` slots that wait for
//! their first hello. It takes parsed packets and a peer address and says what
//! to do next.
use std::collections::VecDeque;
use vstd::prelude::*;

use crate::addr::SocketAddr;
use crate::context::BluefinHost;
use crate::wire::header::PacketType;
use crate::wire::packet::{BluefinPacket, PacketView};

verus! {

/// Maximum number of `ClientHello` packets to buffer when no `accept()` slot is
/// ready yet. Prevents unbounded memory growth from a flood of hellos.
pub const MAX_QUEUED_HELLOS: usize = 64;

/// Outcome of [`Endpoint::classify_hello`] for the packet of a datagram.
#[derive(Debug)]
pub enum HelloOutcome {
    /// Not a hello packet for this host type. The caller proceeds with normal
    /// routing by the connection ids of the header.
    NotHello,
    /// The packet is a hello for the connection `(our_id, 0)`.
    Routed { our_id: u32 },
    /// No `accept()` slot was ready and the hello was queued for the next one.
    Queued,
    /// The hello queue is full and the packet was dropped.
    Dropped,
}

/// Per-host handshake state.
pub struct Endpoint {
    host_type: BluefinHost,
    /// FIFO of accept slots (source connection ids) that wait for a hello.
    pending_accept_ids: VecDeque<u32>,
    /// Hellos that arrived before any accept slot existed.
    hello_queue: VecDeque<(BluefinPacket, SocketAddr)>,
}

/// The mathematical value of an [`Endpoint`].
#[verifier::ext_equal]
pub ghost struct EndpointModel {
    pub host_type: BluefinHost,
    pub slots: Seq<u32>,
    pub hellos: Seq<(PacketView, SocketAddr)>,
}

/// The value of a queued hello.
pub open spec fn hello_view(hello: (BluefinPacket, SocketAddr)) -> (PacketView, SocketAddr) {
    (hello.0@, hello.1)
}

impl View for Endpoint {
    type V = EndpointModel;

    closed spec fn view(&self) -> EndpointModel {
        EndpointModel {
            host_type: self.host_type,
            slots: self.pending_accept_ids@,
            hellos: self.hello_queue@.map_values(
                |h: (BluefinPacket, SocketAddr)| hello_view(h),
            ),
        }
    }
}

impl EndpointModel {
    pub open spec fn fresh(host_type: BluefinHost) -> EndpointModel {
        EndpointModel { host_type, slots: Seq::empty(), hellos: Seq::empty() }
    }

    /// No more hellos are queued than allowed, and a hello and a slot never wait
    /// at the same time.
    pub open spec fn valid(self) -> bool {
        &&& self.hellos.len() <= MAX_QUEUED_HELLOS
        &&& self.hellos.len() == 0 || self.slots.len() == 0
    }

    /// `accept()` asks for a connection with the id `id`: the oldest queued hello
    /// is handed out, or the slot is registered.
    pub open spec fn on_accept(self, id: u32) -> EndpointModel {
        if self.hellos.len() > 0 {
            EndpointModel { hellos: self.hellos.skip(1), ..self }
        } else {
            EndpointModel { slots: self.slots.push(id), ..self }
        }
    }

    /// `accept()` is called once for each of the ids.
    pub open spec fn on_accepts(self, ids: Seq<u32>) -> EndpointModel
        decreases ids.len(),
    {
        if ids.len() == 0 {
            self
        } else {
            self.on_accepts(ids.drop_last()).on_accept(ids.last())
        }
    }

    /// A datagram with the single packet `packet` arrives from `addr`.
    pub open spec fn on_packet(self, packet: PacketView, addr: SocketAddr) -> EndpointModel {
        if self.host_type == BluefinHost::PackLeader && spec_is_hello(self.host_type, packet) {
            if self.slots.len() > 0 {
                EndpointModel { slots: self.slots.skip(1), ..self }
            } else if self.hellos.len() < MAX_QUEUED_HELLOS {
                EndpointModel { hellos: self.hellos.push((packet, addr)), ..self }
            } else {
                self
            }
        } else {
            self
        }
    }

    /// What the caller is told about that packet.
    pub open spec fn outcome(self, packet: PacketView) -> HelloOutcome {
        if !spec_is_hello(self.host_type, packet) {
            HelloOutcome::NotHello
        } else if self.host_type == BluefinHost::PackLeader {
            if self.slots.len() > 0 {
                HelloOutcome::Routed { our_id: self.slots[0] }
            } else if self.hellos.len() < MAX_QUEUED_HELLOS {
                HelloOutcome::Queued
            } else {
                HelloOutcome::Dropped
            }
        } else {
            HelloOutcome::Routed { our_id: packet.header.destination_connection_id }
        }
    }
}

/// A hello for the role: a client hello with a source id and no destination id
/// for the pack leader, a server hello with both ids for the client.
pub open spec fn spec_is_hello(host_type: BluefinHost, packet: PacketView) -> bool {
    match host_type {
        BluefinHost::PackLeader => {
            &&& packet.header.type_field == PacketType::UnencryptedClientHello
            &&& packet.header.source_connection_id != 0
            &&& packet.header.destination_connection_id == 0
        },
        BluefinHost::Client => {
            &&& packet.header.type_field == PacketType::UnencryptedServerHello
            &&& packet.header.source_connection_id != 0
            &&& packet.header.destination_connection_id != 0
        },
        BluefinHost::PackFollower => false,
    }
}

/// A client ack with both ids, seen by the pack leader.
pub open spec fn spec_is_client_ack(host_type: BluefinHost, packet: PacketView) -> bool {
    &&& host_type == BluefinHost::PackLeader
    &&& packet.header.type_field == PacketType::ClientAck
    &&& packet.header.source_connection_id != 0
    &&& packet.header.destination_connection_id != 0
}

impl Endpoint {
    pub fn new(host_type: BluefinHost) -> (endpoint: Self)
        ensures
            endpoint@ == EndpointModel::fresh(host_type),
    {
        let endpoint = Endpoint {
            host_type,
            pending_accept_ids: VecDeque::new(),
            hello_queue: VecDeque::new(),
        };
        assert(endpoint@ =~= EndpointModel::fresh(host_type));
        endpoint
    }

    pub fn host_type(&self) -> (host_type: BluefinHost)
        ensures
            host_type == self@.host_type,
    {
        self.host_type
    }

    /// Server `accept()` driver: pops a queued hello if one is already waiting,
    /// otherwise registers `src_conn_id` as a slot so that the next matching
    /// hello is routed to it.
    pub fn take_queued_hello_or_register(&mut self, src_conn_id: u32) -> (hello: Option<
        (BluefinPacket, SocketAddr),
    >)
        ensures
            final(self)@ == old(self)@.on_accept(src_conn_id),
            match hello {
                Some(h) => old(self)@.hellos.len() > 0 && hello_view(h) == old(self)@.hellos[0],
                None => old(self)@.hellos.len() == 0,
            },
    {
        let ghost before = self@;
        let ghost queue = self.hello_queue@;
        if let Some(hello) = self.hello_queue.pop_front() {
            assert(self@ =~= before.on_accept(src_conn_id));
            return Some(hello);
        }
        self.pending_accept_ids.push_back(src_conn_id);
        assert(self@ =~= before.on_accept(src_conn_id));
        None
    }

    /// Inspects the packet of a datagram that holds exactly one (handshake
    /// packets always do). A hello that is queued or dropped is taken out of
    /// `packets`; otherwise `packets` is left as it is, for the caller to route.
    pub fn classify_hello(&mut self, packets: &mut Vec<BluefinPacket>, addr: SocketAddr) -> (outcome:
        HelloOutcome)
        requires
            old(packets)@.len() == 1,
        ensures
            outcome == old(self)@.outcome(old(packets)@[0]@),
            final(self)@ == old(self)@.on_packet(old(packets)@[0]@, addr),
            final(packets)@ == (match outcome {
                HelloOutcome::NotHello | HelloOutcome::Routed { .. } => old(packets)@,
                HelloOutcome::Queued | HelloOutcome::Dropped => Seq::empty(),
            }),
    {
        let ghost before = self@;
        let ghost given = packets@;
        if !is_hello_packet(self.host_type, &packets[0]) {
            return HelloOutcome::NotHello;
        }
        match self.host_type {
            BluefinHost::PackLeader => {
                let pkt = packets.pop().unwrap();
                assert(packets@ =~= Seq::empty());
                if let Some(id) = self.pending_accept_ids.pop_front() {
                    packets.push(pkt);
                    assert(packets@ =~= given);
                    assert(self@ =~= before.on_packet(given[0]@, addr));
                    HelloOutcome::Routed { our_id: id }
                } else if self.hello_queue.len() < MAX_QUEUED_HELLOS {
                    self.hello_queue.push_back((pkt, addr));
                    assert(self@ =~= before.on_packet(given[0]@, addr));
                    HelloOutcome::Queued
                } else {
                    HelloOutcome::Dropped
                }
            },
            BluefinHost::Client => {
                let our_id: u32 = packets[0].header.destination_connection_id;
                HelloOutcome::Routed { our_id }
            },
            BluefinHost::PackFollower => HelloOutcome::NotHello,
        }
    }
}

/// Whether `packet` is a hello packet for the given host role.
pub fn is_hello_packet(host_type: BluefinHost, packet: &BluefinPacket) -> (hello: bool)
    ensures
        hello == spec_is_hello(host_type, packet@),
{
    let other_id: u32 = packet.header.source_connection_id;
    let this_id: u32 = packet.header.destination_connection_id;
    match host_type {
        BluefinHost::PackLeader => {
            packet.header.type_field == PacketType::UnencryptedClientHello && other_id != 0x0
                && this_id == 0x0
        },
        BluefinHost::Client => {
            packet.header.type_field == PacketType::UnencryptedServerHello && other_id != 0x0
                && this_id != 0x0
        },
        BluefinHost::PackFollower => false,
    }
}

/// Whether `packet` is a `ClientAck` for the given host role: the third leg of
/// the handshake.
pub fn is_client_ack_packet(host_type: BluefinHost, packet: &BluefinPacket) -> (ack: bool)
    ensures
        ack == spec_is_client_ack(host_type, packet@),
{
    let other_id: u32 = packet.header.source_connection_id;
    let this_id: u32 = packet.header.destination_connection_id;
    host_type == BluefinHost::PackLeader && packet.header.type_field == PacketType::ClientAck
        && other_id != 0x0 && this_id != 0x0
}

/// Every operation keeps an endpoint valid, and a fresh one is valid: the hello
/// queue never grows over its bound, and no hello waits while a slot does.
pub proof fn law_endpoint_stays_valid(
    model: EndpointModel,
    id: u32,
    packet: PacketView,
    addr: SocketAddr,
)
    requires
        model.valid(),
    ensures
        EndpointModel::fresh(model.host_type).valid(),
        model.on_accept(id).valid(),
        model.on_packet(packet, addr).valid(),
{
}

/// Hellos are served in the order in which they came: after a hello was queued,
/// each `accept()` takes out the oldest, and once those queued before it are gone
/// it is the next.
pub proof fn law_hellos_are_served_in_order(
    model: EndpointModel,
    packet: PacketView,
    addr: SocketAddr,
    ids: Seq<u32>,
)
    requires
        model.outcome(packet) == HelloOutcome::Queued,
        ids.len() <= model.hellos.len(),
    ensures
        model.on_packet(packet, addr).on_accepts(ids).hellos == model.hellos.skip(
            ids.len() as int,
        ).push((packet, addr)),
        ids.len() == model.hellos.len() ==> model.on_packet(packet, addr).on_accepts(
            ids,
        ).hellos[0] == (packet, addr),
    decreases ids.len(),
{
    if ids.len() == 0 {
        assert(model.hellos.skip(0) =~= model.hellos);
    } else {
        law_hellos_are_served_in_order(model, packet, addr, ids.drop_last());
        assert(model.hellos.skip(ids.len() - 1).push((packet, addr)).skip(1)
            =~= model.hellos.skip(ids.len() as int).push((packet, addr)));
    }
}

/// A slot that `accept()` registered while nothing waited gets the next hello.
pub proof fn law_accept_then_hello(
    model: EndpointModel,
    id: u32,
    packet: PacketView,
    addr: SocketAddr,
)
    requires
        model.host_type == BluefinHost::PackLeader,
        model.hellos.len() == 0,
        model.slots.len() == 0,
        spec_is_hello(model.host_type, packet),
    ensures
        model.on_accept(id).outcome(packet) == (HelloOutcome::Routed { our_id: id }),
        model.on_accept(id).on_packet(packet, addr) == model,
{
    assert(model.on_accept(id).on_packet(packet, addr) =~= model);
}

/// Whether a packet is of the handshake is told by its type and by which of its ids are
/// given, and by nothing else.
pub proof fn law_handshake_is_told_by_type_and_ids(
    host_type: BluefinHost,
    one: PacketView,
    other: PacketView,
)
    requires
        one.header.type_field == other.header.type_field,
        one.header.source_connection_id == 0 <==> other.header.source_connection_id == 0,
        one.header.destination_connection_id == 0 <==> other.header.destination_connection_id
            == 0,
    ensures
        spec_is_hello(host_type, one) == spec_is_hello(host_type, other),
        spec_is_client_ack(host_type, one) == spec_is_client_ack(host_type, other),
{
}

/// A packet with the wrong ids is no packet of the handshake: the sender always gives
/// its own id, and gives that of the receiver in all but the first hello.
pub proof fn law_wrong_ids_are_no_handshake(host_type: BluefinHost, packet: PacketView)
    ensures
        packet.header.source_connection_id == 0 ==> !spec_is_hello(host_type, packet)
            && !spec_is_client_ack(host_type, packet),
        packet.header.destination_connection_id == 0 ==> !spec_is_client_ack(host_type, packet),
        packet.header.destination_connection_id == 0 && spec_is_hello(host_type, packet)
            ==> packet.header.type_field == PacketType::UnencryptedClientHello,
        packet.header.destination_connection_id != 0 && spec_is_hello(host_type, packet)
            ==> packet.header.type_field == PacketType::UnencryptedServerHello,
{
}

} // verus!

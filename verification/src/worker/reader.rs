//! The readers of a host: one finds the connection that a datagram is for and
//! puts its packets into the buffers, the other takes the received bytes out.
use bytes::Bytes;
use core::task::Waker;
use vstd::prelude::*;

use crate::addr::SocketAddr;
use crate::context::BluefinHost;
use crate::endpoint::{
    Endpoint, EndpointModel, HelloOutcome, is_client_ack_packet, spec_is_client_ack,
};
use crate::error::{BluefinError, BluefinResult, ErrorView, fails_with};
use crate::net::DiagnosticEvent;
use crate::net::ack_handler::{AckBuffer, AckBufferModel};
use crate::net::connection::{
    ConnectionBuffer, ConnectionManagedBuffers, ConnectionModel, MAX_BUFFER_SIZE, ManagedModel,
    answers,
};
use crate::net::ordered_bytes::{
    ConsumeResult, ConsumeView, least, lemma_needed, lemma_ready, lemma_whole_read_fits, ready,
};
use crate::net::registry::ConnectionManager;
use crate::wire::Extract;
use crate::wire::header::PacketType;
use crate::wire::packet::{
    BluefinPacket, PacketView, law_read_packets_are_well_formed, packet_views, scan_datagram,
};
use crate::worker::ack::AckData;
use crate::worker::writer::bytes_parts;

verus! {

/// How many packets are read before they are acknowledged.
pub const PACKETS_CONSUMED_BEFORE_ACK: usize = 200;

/// [`ReaderRxChannel`] takes the received bytes out of the buffer of a
/// connection, and acknowledges them.
pub struct ReaderRxChannel {
    packets_consumed: usize,
    packets_consumed_before_ack: usize,
}

/// What a read answers, and what is to be done because of it.
pub struct ReadOutcome {
    /// The number of bytes read, and the address of the peer. No bytes mean the
    /// end of the stream.
    pub result: BluefinResult<(u64, SocketAddr)>,
    /// The ack that is to be sent.
    pub ack: Option<AckData>,
    /// What a listener is told.
    pub events: Vec<DiagnosticEvent>,
}

impl ReaderRxChannel {
    /// How many packets were read and not acknowledged yet.
    pub closed spec fn unacknowledged(&self) -> nat {
        self.packets_consumed as nat
    }

    /// How many packets are read before they are acknowledged.
    pub closed spec fn threshold(&self) -> nat {
        self.packets_consumed_before_ack as nat
    }

    pub fn new() -> (reader: Self)
        ensures
            reader.unacknowledged() == 0,
            reader.threshold() == PACKETS_CONSUMED_BEFORE_ACK,
    {
        ReaderRxChannel {
            packets_consumed: 0,
            packets_consumed_before_ack: PACKETS_CONSUMED_BEFORE_ACK,
        }
    }

    /// How many packets were read and not acknowledged yet.
    pub fn packets_unacknowledged(&self) -> (packets: usize)
        ensures
            packets == self.unacknowledged(),
    {
        self.packets_consumed
    }

    /// Says whether a read has something to answer: bytes, or the end of the
    /// stream. Where it has not, the task is woken when it has.
    pub fn poll_ready(
        conn_buff: &mut ConnectionBuffer,
        peer_fin_observed: bool,
        waker: &Waker,
    ) -> (ready: bool)
        ensures
            ready == read_answers(old(conn_buff)@, peer_fin_observed),
            ready ==> final(conn_buff)@ == old(conn_buff)@,
            !ready ==> final(conn_buff)@ == (ConnectionModel {
                waker: Some(*waker),
                ..old(conn_buff)@
            }),
    {
        if conn_buff.peek().is_ok() {
            return true;
        }
        if peer_fin_observed {
            return true;
        }
        conn_buff.set_waker_if_changed(waker);
        false
    }

    /// The peer has closed its end and all that it sent was read.
    fn at_end(conn_buff: &ConnectionBuffer, peer_fin_observed: bool) -> (end: Option<SocketAddr>)
        ensures
            end == if at_end_of_stream(conn_buff@, peer_fin_observed) {
                conn_buff@.addr
            } else {
                None
            },
    {
        if peer_fin_observed && conn_buff.peek().is_err() {
            return conn_buff.addr();
        }
        None
    }

    /// Books what was consumed. Says what ack is to be sent and what a listener
    /// is told.
    fn book(&mut self, consumed: &ConsumeResult) -> (booked: (Option<AckData>, Vec<DiagnosticEvent>))
        requires
            old(self).unacknowledged() + consumed@.packets <= usize::MAX,
            consumed@.bytes <= usize::MAX,
        ensures
            final(self).threshold() == old(self).threshold(),
            final(self).unacknowledged() == unacknowledged_after(
                consumed@,
                old(self).unacknowledged(),
                old(self).threshold(),
            ),
            booked.0 == ack_after(consumed@, old(self).unacknowledged(), old(self).threshold()),
            booked.1@ == read_events(
                consumed@,
                old(self).unacknowledged(),
                old(self).threshold(),
            ),
    {
        let num_packets_consumed: usize = consumed.get_num_packets_consumed();
        let base_packet_num: u64 = consumed.get_base_packet_number();
        self.packets_consumed = self.packets_consumed + num_packets_consumed;
        let mut ack: Option<AckData> = None;
        let mut events: Vec<DiagnosticEvent> = Vec::new();
        if num_packets_consumed > 0 {
            events.push(
                DiagnosticEvent::DataReceived {
                    base_packet_num,
                    num_packets: num_packets_consumed,
                    num_bytes: consumed.get_bytes_consumed() as usize,
                },
            );
        }
        if num_packets_consumed > 0 && base_packet_num != 0 && self.packets_consumed
            >= self.packets_consumed_before_ack {
            ack = Some(AckData { base_packet_num, num_packets_consumed });
            events.push(
                DiagnosticEvent::AckSent { base_packet_num, count: num_packets_consumed },
            );
            self.packets_consumed = 0;
        }
        (ack, events)
    }

    /// Reads up to `bytes_to_read` bytes over the beginning of `buf`, once
    /// [`Self::poll_ready`] said that there is something to answer.
    pub fn read(
        &mut self,
        conn_buff: &mut ConnectionBuffer,
        peer_fin_observed: bool,
        bytes_to_read: usize,
        buf: &mut [u8],
    ) -> (outcome: ReadOutcome)
        requires
            old(conn_buff).valid(),
            old(conn_buff)@.addr is Some,
            old(conn_buff)@.ordered.readable() || peer_fin_observed,
            old(self).unacknowledged() + MAX_BUFFER_SIZE <= usize::MAX,
        ensures
            final(conn_buff).valid(),
            read_done(
                *old(self),
                old(conn_buff)@,
                least(bytes_to_read as int, old(buf)@.len() as int),
                old(buf)@,
                *final(self),
                final(conn_buff)@,
                final(buf)@,
                outcome,
            ),
            read_done(
                *old(self),
                old(conn_buff)@,
                read_limit(bytes_to_read as int, old(buf)@.len() as int),
                old(buf)@,
                *final(self),
                final(conn_buff)@,
                final(buf)@,
                outcome,
            ),
    {
        match Self::at_end(conn_buff, peer_fin_observed) {
            Some(addr) => {
                return ReadOutcome { result: Ok((0, addr)), ack: None, events: Vec::new() };
            },
            None => {},
        }
        let ghost before = conn_buff@.ordered;
        let ghost limit = least(bytes_to_read as int, buf@.len() as int);
        proof {
            lemma_ready(before.slots, 0);
            lemma_needed(
                ready(before.slots),
                limit - before.carry.len(),
            );
        }
        match conn_buff.consume(bytes_to_read, buf) {
            Ok((consumed, addr)) => {
                let (ack, events) = self.book(&consumed);
                ReadOutcome { result: Ok((consumed.get_bytes_consumed(), addr)), ack, events }
            },
            Err(e) => ReadOutcome { result: Err(e), ack: None, events: Vec::new() },
        }
    }

    /// Reads up to `max_packets` whole payloads and appends them to `out`.
    pub fn read_bytes(
        &mut self,
        conn_buff: &mut ConnectionBuffer,
        peer_fin_observed: bool,
        out: &mut Vec<Bytes>,
        max_packets: usize,
    ) -> (outcome: ReadOutcome)
        requires
            old(conn_buff).valid(),
            old(self).unacknowledged() + MAX_BUFFER_SIZE <= usize::MAX,
        ensures
            final(conn_buff).valid(),
            whole_read_done(
                *old(self),
                old(conn_buff)@,
                peer_fin_observed,
                max_packets as nat,
                old(out)@,
                *final(self),
                final(conn_buff)@,
                final(out)@,
                outcome,
            ),
    {
        match Self::at_end(conn_buff, peer_fin_observed) {
            Some(addr) => {
                return ReadOutcome { result: Ok((0, addr)), ack: None, events: Vec::new() };
            },
            None => {},
        }
        let ghost before = conn_buff@.ordered;
        proof {
            lemma_ready(before.slots, 0);
        }
        match conn_buff.consume_bytes(out, max_packets) {
            Ok((consumed, addr)) => {
                proof {
                    lemma_whole_read_fits(before, max_packets as nat);
                }
                let (ack, events) = self.book(&consumed);
                ReadOutcome { result: Ok((consumed.get_bytes_consumed(), addr)), ack, events }
            },
            Err(e) => ReadOutcome { result: Err(e), ack: None, events: Vec::new() },
        }
    }
}

/// The peer has closed its end, its address is known, and all that it sent was
/// read.
pub open spec fn at_end_of_stream(conn: ConnectionModel, peer_fin_observed: bool) -> bool {
    peer_fin_observed && conn.addr is Some && !conn.ordered.readable()
}

/// A read has something to answer: bytes, or the end of the stream.
pub open spec fn read_answers(conn: ConnectionModel, peer_fin_observed: bool) -> bool {
    (conn.addr is Some && conn.ordered.readable()) || peer_fin_observed
}

/// How many bytes a read takes at most.
pub open spec fn read_limit(asked: int, room: int) -> int {
    least(asked, room)
}

/// The buffer of a connection after a read of up to `limit` bytes.
pub open spec fn conn_after_read(conn: ConnectionModel, limit: int) -> ConnectionModel {
    if conn.ordered.readable() {
        ConnectionModel { ordered: conn.ordered.on_read(limit), ..conn }
    } else {
        conn
    }
}

/// The buffer of a connection after a read of up to `max_packets` whole payloads.
pub open spec fn conn_after_whole_read(
    conn: ConnectionModel,
    max_packets: nat,
) -> ConnectionModel {
    if conn.addr is Some && conn.ordered.readable() {
        ConnectionModel { ordered: conn.ordered.on_whole_read(max_packets), ..conn }
    } else {
        conn
    }
}

/// What a read of up to `limit` bytes does and answers, of a connection with a known
/// address and with something to answer.
pub open spec fn read_done(
    before: ReaderRxChannel,
    conn: ConnectionModel,
    limit: int,
    buf: Seq<u8>,
    after: ReaderRxChannel,
    conn_left: ConnectionModel,
    buf_left: Seq<u8>,
    outcome: ReadOutcome,
) -> bool {
    &&& conn_left == conn_after_read(conn, limit)
    &&& after.threshold() == before.threshold()
    &&& if conn.ordered.readable() {
        let consumed = conn.ordered.read_result(limit);
        &&& outcome.result == Ok::<(u64, SocketAddr), BluefinError>(
            (consumed.bytes as u64, conn.addr->0),
        )
        &&& buf_left == conn.ordered.available().take(consumed.bytes as int) + buf.skip(
            consumed.bytes as int,
        )
        &&& booked(before, consumed, after, outcome)
    } else {
        &&& outcome.result == Ok::<(u64, SocketAddr), BluefinError>((0, conn.addr->0))
        &&& buf_left == buf
        &&& nothing_booked(before, after, outcome)
    }
}

/// What a read of up to `max_packets` whole payloads does and answers.
pub open spec fn whole_read_done(
    before: ReaderRxChannel,
    conn: ConnectionModel,
    peer_fin_observed: bool,
    max_packets: nat,
    out: Seq<Bytes>,
    after: ReaderRxChannel,
    conn_left: ConnectionModel,
    out_left: Seq<Bytes>,
    outcome: ReadOutcome,
) -> bool {
    &&& conn_left == conn_after_whole_read(conn, max_packets)
    &&& after.threshold() == before.threshold()
    &&& if conn.addr is Some && conn.ordered.readable() {
        let consumed = conn.ordered.whole_read_result(max_packets);
        &&& outcome.result == Ok::<(u64, SocketAddr), BluefinError>(
            (consumed.bytes as u64, conn.addr->0),
        )
        &&& bytes_parts(out_left) == bytes_parts(out) + conn.ordered.whole_payloads(max_packets)
        &&& booked(before, consumed, after, outcome)
    } else {
        &&& if at_end_of_stream(conn, peer_fin_observed) {
            outcome.result == Ok::<(u64, SocketAddr), BluefinError>((0, conn.addr->0))
        } else {
            fails_with(
                outcome.result,
                if conn.addr is None {
                    ErrorView::Unexpected("Cannot consume buffer because addr is field is none"@)
                } else {
                    ErrorView::BufferEmptyError
                },
            )
        }
        &&& out_left == out
        &&& nothing_booked(before, after, outcome)
    }
}

/// An ack is due after a read: enough packets were read, and the number of the
/// first of them is not zero.
pub open spec fn ack_due(consumed: ConsumeView, unacknowledged: nat, threshold: nat) -> bool {
    consumed.packets > 0 && consumed.base != 0 && unacknowledged + consumed.packets >= threshold
}

pub open spec fn unacknowledged_after(
    consumed: ConsumeView,
    unacknowledged: nat,
    threshold: nat,
) -> nat {
    if ack_due(consumed, unacknowledged, threshold) {
        0
    } else {
        unacknowledged + consumed.packets
    }
}

/// The ack acknowledges the packets of this read.
pub open spec fn ack_after(
    consumed: ConsumeView,
    unacknowledged: nat,
    threshold: nat,
) -> Option<AckData> {
    if ack_due(consumed, unacknowledged, threshold) {
        Some(
            AckData {
                base_packet_num: consumed.base,
                num_packets_consumed: consumed.packets as usize,
            },
        )
    } else {
        None
    }
}

/// What a listener is told of a read.
pub open spec fn read_events(
    consumed: ConsumeView,
    unacknowledged: nat,
    threshold: nat,
) -> Seq<DiagnosticEvent> {
    let data = DiagnosticEvent::DataReceived {
        base_packet_num: consumed.base,
        num_packets: consumed.packets as usize,
        num_bytes: consumed.bytes as usize,
    };
    let ack = DiagnosticEvent::AckSent {
        base_packet_num: consumed.base,
        count: consumed.packets as usize,
    };
    if consumed.packets == 0 {
        Seq::empty()
    } else if ack_due(consumed, unacknowledged, threshold) {
        seq![data, ack]
    } else {
        seq![data]
    }
}

/// A read was booked.
pub open spec fn booked(
    before: ReaderRxChannel,
    consumed: ConsumeView,
    after: ReaderRxChannel,
    outcome: ReadOutcome,
) -> bool {
    &&& after.unacknowledged() == unacknowledged_after(
        consumed,
        before.unacknowledged(),
        before.threshold(),
    )
    &&& outcome.ack == ack_after(consumed, before.unacknowledged(), before.threshold())
    &&& outcome.events@ == read_events(consumed, before.unacknowledged(), before.threshold())
}

/// Nothing was read: nothing is acknowledged, and nobody is told.
pub open spec fn nothing_booked(
    before: ReaderRxChannel,
    after: ReaderRxChannel,
    outcome: ReadOutcome,
) -> bool {
    &&& after.unacknowledged() == before.unacknowledged()
    &&& outcome.ack is None
    &&& outcome.events@.len() == 0
}

/// What the handshake makes of a datagram with a single packet.
#[derive(Clone, Copy, Debug, PartialEq, Eq, Structural)]
pub enum HelloAction {
    /// Not a hello. The packet goes the normal way.
    NotHello,
    /// The hello is for the connection with this id of ours.
    Routed(u32),
    /// No connection waits for the hello. It was queued or dropped.
    Queued,
}

/// Where the packets of a datagram go.
#[derive(Clone, Copy, Debug, PartialEq, Eq, Structural)]
pub struct Route {
    /// The handle of the connection.
    pub handle: u64,
    /// The datagram is a hello.
    pub is_hello: bool,
}

/// What became of a packet.
pub struct Delivered {
    /// How it went.
    pub result: BluefinResult<()>,
    /// The task to be woken.
    pub wake: Option<Waker>,
}

/// [`ReaderTxChannel`] finds the connection that a datagram is for.
pub struct ReaderTxChannel {
    pub id: u16,
    pub host_type: BluefinHost,
}

/// What the handshake makes of the outcome that the endpoint tells.
pub open spec fn hello_action(outcome: HelloOutcome) -> HelloAction {
    match outcome {
        HelloOutcome::NotHello => HelloAction::NotHello,
        HelloOutcome::Routed { our_id } => HelloAction::Routed(our_id),
        HelloOutcome::Queued | HelloOutcome::Dropped => HelloAction::Queued,
    }
}

/// Under which ids a connection is registered. As long as the peer's id is not
/// known, it is zero.
pub open spec fn conn_buff_key(is_hello: bool, src_conn_id: u32, dst_conn_id: u32) -> (u32, u32) {
    if is_hello {
        (src_conn_id, 0)
    } else {
        (src_conn_id, dst_conn_id)
    }
}

/// Where the packets of a datagram go, if anywhere. All of them come from the
/// same connection, so the first one tells. Only a packet that is alone in its
/// datagram can be a hello.
pub open spec fn route_of(
    host_type: BluefinHost,
    endpoint: EndpointModel,
    connections: Map<(u32, u32), u64>,
    packets: Seq<PacketView>,
) -> Option<Route> {
    if packets.len() == 0 {
        None
    } else {
        let header = packets[0].header;
        let action = if packets.len() == 1 {
            hello_action(endpoint.outcome(packets[0]))
        } else {
            HelloAction::NotHello
        };
        if action is Queued {
            None
        } else {
            let is_hello = action is Routed;
            let our_id = if is_hello && host_type == BluefinHost::PackLeader {
                action->Routed_0
            } else {
                header.destination_connection_id
            };
            let key = conn_buff_key(is_hello, our_id, header.source_connection_id);
            if connections.contains_key(key) {
                Some(Route { handle: connections[key], is_hello })
            } else {
                None
            }
        }
    }
}

/// The endpoint after a datagram came.
pub open spec fn endpoint_after(
    endpoint: EndpointModel,
    packets: Seq<PacketView>,
    addr: SocketAddr,
) -> EndpointModel {
    if packets.len() == 1 {
        endpoint.on_packet(packets[0], addr)
    } else {
        endpoint
    }
}

/// The packet is of the handshake.
pub open spec fn of_handshake(is_hello: bool, host_type: BluefinHost, packet: PacketView) -> bool {
    is_hello || spec_is_client_ack(host_type, packet)
}

/// Why a packet is refused by the buffer of a connection.
pub open spec fn conn_refusal(
    conn: ConnectionModel,
    packet: PacketView,
    handshake: bool,
) -> Option<ErrorView> {
    if handshake {
        conn.packet_refusal()
    } else {
        conn.bytes_refusal(packet)
    }
}

/// The buffer of a connection after a packet came.
pub open spec fn conn_after(
    conn: ConnectionModel,
    packet: PacketView,
    addr: SocketAddr,
    handshake: bool,
) -> ConnectionModel {
    if conn_refusal(conn, packet, handshake) is Some {
        conn
    } else {
        ConnectionModel {
            dst_conn_id: packet.header.source_connection_id,
            ..if handshake {
                conn.on_packet(packet).on_addr(addr)
            } else {
                conn.on_bytes(packet)
            }
        }
    }
}

/// What is answered about a packet: why it was refused, or else that nobody waits
/// for it.
pub open spec fn delivery_error(
    refusal: Option<ErrorView>,
    waker: Option<Waker>,
) -> Option<ErrorView> {
    if refusal is Some {
        refusal
    } else if waker is None {
        Some(ErrorView::NoSuchWakerError)
    } else {
        None
    }
}

/// The packet goes into the ack buffer.
pub open spec fn is_plain_ack(is_hello: bool, host_type: BluefinHost, packet: PacketView) -> bool {
    !of_handshake(is_hello, host_type, packet) && packet.header.type_field == PacketType::Ack
}

/// The packet has data and comes after the peer's `Fin`. It is dropped: what the peer
/// sent ends with what was buffered when its `Fin` came.
pub open spec fn comes_late(
    buffers: ManagedModel,
    packet: PacketView,
    is_hello: bool,
    host_type: BluefinHost,
) -> bool {
    &&& buffers.close.peer_fin_observed
    &&& !of_handshake(is_hello, host_type, packet)
    &&& !is_plain_ack(is_hello, host_type, packet)
}

/// The buffers after a packet came.
pub open spec fn buffers_after(
    buffers: ManagedModel,
    packet: PacketView,
    addr: SocketAddr,
    is_hello: bool,
    host_type: BluefinHost,
) -> ManagedModel {
    if is_plain_ack(is_hello, host_type, packet) {
        ManagedModel { acks: buffers.acks.on_packet(packet), ..buffers }
    } else if comes_late(buffers, packet, is_hello, host_type) {
        buffers
    } else {
        ManagedModel {
            conn: conn_after(
                buffers.conn,
                packet,
                addr,
                of_handshake(is_hello, host_type, packet),
            ),
            ..buffers
        }
    }
}

/// Why a packet is refused by the buffers.
pub open spec fn buffers_refusal(
    buffers: ManagedModel,
    packet: PacketView,
    is_hello: bool,
    host_type: BluefinHost,
) -> Option<ErrorView> {
    if is_plain_ack(is_hello, host_type, packet) {
        AckBufferModel::refusal(packet)
    } else if comes_late(buffers, packet, is_hello, host_type) {
        None
    } else {
        conn_refusal(buffers.conn, packet, of_handshake(is_hello, host_type, packet))
    }
}

/// Who waits for a packet.
pub open spec fn waiting_for(
    buffers: ManagedModel,
    packet: PacketView,
    is_hello: bool,
    host_type: BluefinHost,
) -> Option<Waker> {
    if is_plain_ack(is_hello, host_type, packet) {
        buffers.acks.waker
    } else if comes_late(buffers, packet, is_hello, host_type) {
        None
    } else {
        buffers.conn.waker
    }
}

/// What is answered about a packet. One that is dropped because it comes late is no
/// error.
pub open spec fn buffers_error(
    buffers: ManagedModel,
    packet: PacketView,
    is_hello: bool,
    host_type: BluefinHost,
) -> Option<ErrorView> {
    if comes_late(buffers, packet, is_hello, host_type) {
        None
    } else {
        delivery_error(
            buffers_refusal(buffers, packet, is_hello, host_type),
            waiting_for(buffers, packet, is_hello, host_type),
        )
    }
}

/// The buffers after the packets of a datagram came, one after the other.
pub open spec fn buffers_after_all(
    buffers: ManagedModel,
    packets: Seq<PacketView>,
    addr: SocketAddr,
    is_hello: bool,
    host_type: BluefinHost,
) -> ManagedModel
    decreases packets.len(),
{
    if packets.len() == 0 {
        buffers
    } else {
        buffers_after(
            buffers_after_all(buffers, packets.drop_last(), addr, is_hello, host_type),
            packets.last(),
            addr,
            is_hello,
            host_type,
        )
    }
}

/// Whom to wake because of the packets of a datagram: for each packet that is not
/// refused the one who waits for it.
pub open spec fn wakes_after_all(
    buffers: ManagedModel,
    packets: Seq<PacketView>,
    addr: SocketAddr,
    is_hello: bool,
    host_type: BluefinHost,
) -> Seq<Waker>
    decreases packets.len(),
{
    if packets.len() == 0 {
        Seq::empty()
    } else {
        let fewer = packets.drop_last();
        let now = buffers_after_all(buffers, fewer, addr, is_hello, host_type);
        let wakes = wakes_after_all(buffers, fewer, addr, is_hello, host_type);
        let waker = waiting_for(now, packets.last(), is_hello, host_type);
        if buffers_refusal(now, packets.last(), is_hello, host_type) is None && waker is Some {
            wakes.push(waker->0)
        } else {
            wakes
        }
    }
}

/// There is a number for the peer's first data packet: the first handshake packet
/// among the packets, if it is the first of the connection, does not have one of
/// the last numbers.
pub open spec fn starts_fit(
    conn: ConnectionModel,
    packets: Seq<PacketView>,
    is_hello: bool,
    host_type: BluefinHost,
) -> bool {
    forall|i: int|
        0 <= i < packets.len() && of_handshake(is_hello, host_type, #[trigger] packets[i]) && (
        forall|j: int|
            0 <= j < i ==> !of_handshake(is_hello, host_type, #[trigger] packets[j]))
            ==> conn.start_fits(packets[i])
}

impl ReaderTxChannel {
    pub fn new(host_type: BluefinHost) -> (channel: Self)
        ensures
            channel.id == 0,
            channel.host_type == host_type,
    {
        ReaderTxChannel { id: 0, host_type }
    }

    /// Looks whether the only packet of a datagram is a hello.
    #[inline]
    pub fn handle_hello_single(
        endpoint: &mut Endpoint,
        packets: &mut Vec<BluefinPacket>,
        addr: SocketAddr,
    ) -> (action: HelloAction)
        requires
            old(packets)@.len() == 1,
        ensures
            action == hello_action(old(endpoint)@.outcome(old(packets)@[0]@)),
            final(endpoint)@ == old(endpoint)@.on_packet(old(packets)@[0]@, addr),
            final(packets)@ == if action is Queued {
                Seq::empty()
            } else {
                old(packets)@
            },
    {
        match endpoint.classify_hello(packets, addr) {
            HelloOutcome::NotHello => HelloAction::NotHello,
            HelloOutcome::Routed { our_id } => HelloAction::Routed(our_id),
            HelloOutcome::Queued | HelloOutcome::Dropped => HelloAction::Queued,
        }
    }

    #[inline]
    pub fn build_conn_buff_key(is_hello: bool, src_conn_id: u32, dst_conn_id: u32) -> (key: (
        u32,
        u32,
    ))
        ensures
            key == conn_buff_key(is_hello, src_conn_id, dst_conn_id),
    {
        if !is_hello {
            (src_conn_id, dst_conn_id)
        } else {
            (src_conn_id, 0)
        }
    }

    /// Finds the connection that the packets of a datagram are for. Where there
    /// is none they are to be discarded.
    pub fn route(
        &self,
        endpoint: &mut Endpoint,
        connections: &ConnectionManager,
        packets: &mut Vec<BluefinPacket>,
        addr: SocketAddr,
    ) -> (route: Option<Route>)
        ensures
            route == route_of(
                self.host_type,
                old(endpoint)@,
                connections@,
                packet_views(old(packets)@),
            ),
            final(endpoint)@ == endpoint_after(
                old(endpoint)@,
                packet_views(old(packets)@),
                addr,
            ),
            route is Some ==> final(packets)@ == old(packets)@,
    {
        if packets.len() == 0 {
            return None;
        }
        assert(packet_views(packets@)[0] == packets@[0]@);
        let mut src_conn_id: u32 = packets[0].header.destination_connection_id;
        let dst_conn_id: u32 = packets[0].header.source_connection_id;
        let mut is_hello: bool = false;
        // A handshake packet is alone in its datagram.
        if packets.len() == 1 {
            match Self::handle_hello_single(endpoint, packets, addr) {
                HelloAction::Routed(id) => {
                    if self.host_type == BluefinHost::PackLeader {
                        src_conn_id = id;
                    }
                    is_hello = true;
                },
                HelloAction::NotHello => {},
                HelloAction::Queued => {
                    return None;
                },
            }
        }
        let key: (u32, u32) = Self::build_conn_buff_key(is_hello, src_conn_id, dst_conn_id);
        match connections.get(key) {
            Some(handle) => Some(Route { handle, is_hello }),
            None => None,
        }
    }

    /// Reads a datagram and finds the connection that it is for. `packets` is
    /// overwritten with its packets. Where the datagram is not a stream of
    /// packets, or no connection takes it, it is to be discarded.
    pub fn route_datagram(
        &self,
        endpoint: &mut Endpoint,
        connections: &ConnectionManager,
        bytes: &[u8],
        packets: &mut Vec<BluefinPacket>,
        addr: SocketAddr,
    ) -> (route: Option<Route>)
        ensures
            scan_datagram(bytes@).1 is Some ==> route is None && final(endpoint)@ == old(
                endpoint,
            )@,
            scan_datagram(bytes@).1 is None ==> {
                &&& route == route_of(
                    self.host_type,
                    old(endpoint)@,
                    connections@,
                    scan_datagram(bytes@).0,
                )
                &&& final(endpoint)@ == endpoint_after(
                    old(endpoint)@,
                    scan_datagram(bytes@).0,
                    addr,
                )
                &&& route is Some ==> packet_views(final(packets)@) == scan_datagram(bytes@).0
            },
            route is Some ==> forall|i: int|
                0 <= i < final(packets)@.len() ==> (#[trigger] final(packets)@[i])@.payload.len()
                    <= u16::MAX,
    {
        packets.clear();
        if BluefinPacket::from_bytes_into(bytes, packets).is_err() {
            return None;
        }
        proof {
            assert(packet_views(Seq::<BluefinPacket>::empty()) =~= Seq::empty());
            assert(packet_views(packets@) =~= scan_datagram(bytes@).0);
            law_read_packets_are_well_formed(bytes@);
            assert forall|i: int| 0 <= i < packets@.len() implies (
            #[trigger] packets@[i])@.payload.len() <= u16::MAX by {
                assert(packet_views(packets@)[i] == packets@[i]@);
            }
        }
        self.route(endpoint, connections, packets, addr)
    }

    /// Puts a packet into the buffer of a connection: a packet of the handshake
    /// as it is, another one as data.
    pub fn buffer_to_conn_buffer(
        conn_buff: &mut ConnectionBuffer,
        packet: BluefinPacket,
        addr: SocketAddr,
        is_hello: bool,
        is_client_ack: bool,
    ) -> (delivered: Delivered)
        requires
            old(conn_buff).valid(),
            is_hello || is_client_ack ==> old(conn_buff)@.start_fits(packet@),
            !(is_hello || is_client_ack) ==> packet@.payload.len() <= u16::MAX,
        ensures
            final(conn_buff).valid(),
            final(conn_buff)@ == conn_after(
                old(conn_buff)@,
                packet@,
                addr,
                is_hello || is_client_ack,
            ),
            answers(
                delivered.result,
                delivery_error(
                    conn_refusal(old(conn_buff)@, packet@, is_hello || is_client_ack),
                    old(conn_buff)@.waker,
                ),
            ),
            delivered.wake == if conn_refusal(
                old(conn_buff)@,
                packet@,
                is_hello || is_client_ack,
            ) is None {
                old(conn_buff)@.waker
            } else {
                None
            },
    {
        let packet_src_conn_id: u32 = packet.header.source_connection_id;
        let buffered: BluefinResult<()> = if !is_hello && !is_client_ack {
            conn_buff.buffer_in_bytes(packet)
        } else {
            conn_buff.buffer_in_packet(packet)
        };
        match buffered {
            Err(e) => {
                return Delivered { result: Err(e), wake: None };
            },
            Ok(()) => {},
        }
        if is_hello || is_client_ack {
            let _ = conn_buff.buffer_in_addr(addr);
        }
        conn_buff.set_dst_conn_id(packet_src_conn_id);
        let wake: Option<Waker> = conn_buff.take_waker_clone();
        if wake.is_none() {
            return Delivered { result: Err(BluefinError::NoSuchWakerError), wake };
        }
        Delivered { result: Ok(()), wake }
    }

    /// Puts an ack packet into the ack buffer.
    #[inline]
    pub fn buffer_to_ack_buffer(ack_buff: &mut AckBuffer, packet: BluefinPacket) -> (delivered:
        Delivered)
        ensures
            final(ack_buff)@ == old(ack_buff)@.on_packet(packet@),
            answers(
                delivered.result,
                delivery_error(AckBufferModel::refusal(packet@), old(ack_buff)@.waker),
            ),
            delivered.wake == if AckBufferModel::refusal(packet@) is None {
                old(ack_buff)@.waker
            } else {
                None
            },
    {
        match ack_buff.buffer_in_ack_packet(packet) {
            Err(e) => {
                return Delivered { result: Err(e), wake: None };
            },
            Ok(()) => {},
        }
        let wake: Option<Waker> = ack_buff.take_waker_clone();
        if wake.is_none() {
            return Delivered { result: Err(BluefinError::NoSuchWakerError), wake };
        }
        Delivered { result: Ok(()), wake }
    }

    /// Puts a packet into the buffers of its connection. Data that comes after the
    /// peer's `Fin` is dropped.
    #[inline]
    pub fn buffer_in_data(
        is_hello: bool,
        host_type: BluefinHost,
        packet: BluefinPacket,
        addr: SocketAddr,
        buffers: &mut ConnectionManagedBuffers,
    ) -> (delivered: Delivered)
        requires
            old(buffers).conn_buff.valid(),
            packet@.payload.len() <= u16::MAX,
            of_handshake(is_hello, host_type, packet@) ==> old(buffers)@.conn.start_fits(packet@),
        ensures
            final(buffers).conn_buff.valid(),
            final(buffers)@ == buffers_after(
                old(buffers)@,
                packet@,
                addr,
                is_hello,
                host_type,
            ),
            answers(
                delivered.result,
                buffers_error(old(buffers)@, packet@, is_hello, host_type),
            ),
            delivered.wake == if buffers_refusal(
                old(buffers)@,
                packet@,
                is_hello,
                host_type,
            ) is None {
                waiting_for(old(buffers)@, packet@, is_hello, host_type)
            } else {
                None
            },
    {
        let is_client_ack: bool = is_client_ack_packet(host_type, &packet);
        if !is_client_ack && !is_hello && packet.header.type_field == PacketType::Ack {
            Self::buffer_to_ack_buffer(&mut buffers.ack_buff, packet)
        } else if !is_client_ack && !is_hello && buffers.close_buff.peer_fin_observed() {
            Delivered { result: Ok(()), wake: None }
        } else {
            Self::buffer_to_conn_buffer(
                &mut buffers.conn_buff,
                packet,
                addr,
                is_hello,
                is_client_ack,
            )
        }
    }

    /// Puts the packets of a datagram into the buffers of their connection, and
    /// says whom to wake. What is refused is dropped.
    pub fn deliver(
        &self,
        is_hello: bool,
        packets: &mut Vec<BluefinPacket>,
        addr: SocketAddr,
        buffers: &mut ConnectionManagedBuffers,
    ) -> (wakes: Vec<Waker>)
        requires
            old(buffers).conn_buff.valid(),
            forall|i: int|
                0 <= i < old(packets)@.len() ==> (#[trigger] old(packets)@[i])@.payload.len()
                    <= u16::MAX,
            starts_fit(
                old(buffers)@.conn,
                packet_views(old(packets)@),
                is_hello,
                self.host_type,
            ),
        ensures
            final(buffers).conn_buff.valid(),
            final(packets)@.len() == 0,
            final(buffers)@ == buffers_after_all(
                old(buffers)@,
                packet_views(old(packets)@),
                addr,
                is_hello,
                self.host_type,
            ),
            wakes@ == wakes_after_all(
                old(buffers)@,
                packet_views(old(packets)@),
                addr,
                is_hello,
                self.host_type,
            ),
    {
        let ghost start = buffers@;
        let ghost before = packets@;
        let ghost views = packet_views(packets@);
        let ghost host = self.host_type;
        let mut wakes: Vec<Waker> = Vec::new();
        let total: usize = packets.len();
        let mut i: usize = 0;
        while i < total
            invariant
                i <= total,
                total == before.len(),
                packets@.len() == total,
                views == packet_views(before),
                host == self.host_type,
                buffers.conn_buff.valid(),
                forall|j: int|
                    0 <= j < before.len() ==> (#[trigger] before[j])@.payload.len() <= u16::MAX,
                forall|j: int| i <= j < total ==> #[trigger] packets@[j] == before[j],
                starts_fit(start.conn, views, is_hello, host),
                (forall|j: int|
                    0 <= j < i ==> !of_handshake(is_hello, host, #[trigger] views[j]))
                    || buffers@.conn.packet is Some,
                (forall|j: int|
                    0 <= j < i ==> !of_handshake(is_hello, host, #[trigger] views[j]))
                    ==> buffers@.conn.packet == start.conn.packet && buffers@.conn.start_known
                    == start.conn.start_known,
                buffers@.conn.host_type == start.conn.host_type,
                buffers@ == buffers_after_all(
                    start,
                    views.take(i as int),
                    addr,
                    is_hello,
                    host,
                ),
                wakes@ == wakes_after_all(start, views.take(i as int), addr, is_hello, host),
            decreases total - i,
        {
            let packet: BluefinPacket = packets[i].extract();
            proof {
                assert(views.take(i + 1).drop_last() =~= views.take(i as int));
                assert(views.take(i + 1).last() == views[i as int]);
                assert(views[i as int] == packet@);
            }
            let delivered: Delivered = Self::buffer_in_data(
                is_hello,
                self.host_type,
                packet,
                addr,
                buffers,
            );
            match delivered.wake {
                Some(waker) => {
                    wakes.push(waker);
                },
                None => {},
            }
            i = i + 1;
        }
        packets.clear();
        assert(views.take(total as int) =~= views);
        wakes
    }
}

} // verus!

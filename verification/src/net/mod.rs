//! Connections: what a host keeps of each of them, and how they are opened and
//! closed.
use vstd::prelude::*;

use crate::error::ErrorView;
use crate::wire::Serialisable;
use crate::wire::header::{BluefinHeader, BluefinSecurityFields, PacketType, lemma_plain};
use crate::wire::packet::{
    BluefinPacket, PacketView, law_stream_round_trip, scan, stream_bytes,
};

pub mod ack_handler;
pub mod client;
pub mod close_handler;
pub mod closing;
pub mod connection;
pub mod delivery;
pub mod established;
pub mod handshake_ids;
pub mod opening;
pub mod ordered_bytes;
pub mod registry;
pub mod server;
pub mod wake;

verus! {

/// What a host tells a listener about a connection.
#[allow(inconsistent_fields)]
#[derive(Clone, Copy, Debug, PartialEq, Eq, Structural)]
pub enum DiagnosticEvent {
    /// The peer acknowledged `count` packets from `base_packet_num` on.
    AckReceived { base_packet_num: u64, count: usize },
    /// We acknowledged `count` packets from `base_packet_num` on.
    AckSent { base_packet_num: u64, count: usize },
    /// Data packets were queued for sending, the first with `start_packet_num`.
    DataSent { start_packet_num: u64, num_packets: u64, num_bytes: usize },
    /// Data packets were taken out of the receive buffer, the first with
    /// `base_packet_num`.
    DataReceived { base_packet_num: u64, num_packets: usize, num_bytes: usize },
    /// We sent a `Fin`.
    FinSent { packet_num: u64 },
    /// We answered a `Fin`.
    FinAckSent { packet_num: u64 },
    /// A `Fin` arrived. A repeated `Fin` is told of each time.
    FinReceived { packet_num: u64 },
    /// A `FinAck` arrived.
    FinAckReceived { packet_num: u64 },
}

/// The value of a packet that is a header and nothing else.
pub open spec fn bare_packet(
    src_conn_id: u32,
    dst_conn_id: u32,
    packet_number: u64,
    packet_type: PacketType,
) -> PacketView {
    PacketView {
        header: BluefinHeader {
            version: 0,
            type_field: packet_type,
            type_specific_payload: 0,
            security_fields: BluefinSecurityFields::plain(),
            source_connection_id: src_conn_id,
            destination_connection_id: dst_conn_id,
            packet_number,
        },
        payload: Seq::empty(),
    }
}

/// A packet without payload, as the handshake and the close use them.
#[inline]
pub fn build_empty_encrypted_packet(
    src_conn_id: u32,
    dst_conn_id: u32,
    packet_number: u64,
    packet_type: PacketType,
) -> (packet: BluefinPacket)
    ensures
        packet@ == bare_packet(src_conn_id, dst_conn_id, packet_number, packet_type),
{
    let security_fields = BluefinSecurityFields::new(false, 0x0);
    let mut header = BluefinHeader::new(
        src_conn_id,
        dst_conn_id,
        packet_type,
        0x0,
        security_fields,
    );
    header.with_packet_number(packet_number);
    let packet = BluefinPacket::builder().header(header).build();
    assert(packet@ =~= bare_packet(src_conn_id, dst_conn_id, packet_number, packet_type));
    packet
}

/// The datagram with a single packet without payload.
pub fn bare_datagram(
    src_conn_id: u32,
    dst_conn_id: u32,
    packet_number: u64,
    packet_type: PacketType,
) -> (datagram: Vec<u8>)
    ensures
        datagram@ == bare_packet(src_conn_id, dst_conn_id, packet_number, packet_type).wire(),
        datagram@.len() == 20,
{
    let packet = build_empty_encrypted_packet(
        src_conn_id,
        dst_conn_id,
        packet_number,
        packet_type,
    );
    let datagram: Vec<u8> = packet.serialise();
    proof {
        packet.header.lemma_wire_len();
    }
    datagram
}

/// The peer reads from the datagram of a handshake or close packet exactly that
/// packet.
pub proof fn law_bare_datagram_is_readable(
    src_conn_id: u32,
    dst_conn_id: u32,
    packet_number: u64,
    packet_type: PacketType,
)
    requires
        packet_type != PacketType::UnencryptedData,
    ensures
        scan(bare_packet(src_conn_id, dst_conn_id, packet_number, packet_type).wire()) == (
            seq![bare_packet(src_conn_id, dst_conn_id, packet_number, packet_type)],
            None::<ErrorView>,
        ),
{
    let packet = bare_packet(src_conn_id, dst_conn_id, packet_number, packet_type);
    lemma_plain();
    law_stream_round_trip(seq![packet]);
    reveal_with_fuel(stream_bytes, 2);
    assert(seq![packet].skip(1) =~= Seq::empty());
    assert(stream_bytes(seq![packet]) =~= packet.wire());
}

/// A packet without payload tells its type, both ids and its number, whatever they are,
/// and nothing else.
pub proof fn law_bare_packet_tells_its_number(
    src_conn_id: u32,
    dst_conn_id: u32,
    packet_number: u64,
    packet_type: PacketType,
)
    ensures
        ({
            let packet = bare_packet(src_conn_id, dst_conn_id, packet_number, packet_type);
            &&& packet.header.source_connection_id == src_conn_id
            &&& packet.header.destination_connection_id == dst_conn_id
            &&& packet.header.packet_number == packet_number
            &&& packet.header.type_field == packet_type
            &&& packet.header.type_specific_payload == 0
            &&& packet.header.version == 0
            &&& packet.payload.len() == 0
        }),
{
}

} // verus!

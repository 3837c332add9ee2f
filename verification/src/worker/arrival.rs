//! What becomes of the packets that a connection receives.
use bytes::Bytes;
use vstd::prelude::*;

use crate::addr::SocketAddr;
use crate::context::BluefinHost;
use crate::error::{BluefinError, ErrorView};
use crate::net::DiagnosticEvent;
use crate::net::ack_handler::AckBufferModel;
use crate::net::close_handler::CloseBufferModel;
use crate::net::connection::{ConnectionModel, MAX_BUFFER_SIZE, ManagedModel};
use crate::net::delivery::{
    consecutive, law_packets_are_delivered, law_stream_is_delivered, received,
};
use crate::net::ordered_bytes::{
    OrderedModel, law_bytes_can_be_read, law_read_loses_no_byte, law_read_takes_what_it_needs,
    law_whole_read_loses_no_byte, law_whole_read_takes_whole_packets, lemma_whole_read_fits, ready,
};
use crate::wire::header::PacketType;
use crate::wire::packet::{PacketView, scan_datagram, stream_bytes};
use crate::worker::ack::{AckData, ack_packets, law_acks_are_readable, lemma_ack_bytes_len};
use crate::worker::conn_reader::{
    Buffered, ack_events, acks_error, after_acks, after_close, after_data, all_close_packets,
    buffered_in, close_events, data_error, has_fin, has_fin_ack, is_close_packet, is_fin,
    managed_after, uniform,
};
use crate::worker::packing::{
    data_packets, joined, law_datagram_is_readable, lemma_datagram_len, packets_in, payloads,
};
use crate::worker::reader::{
    ReadOutcome, ReaderRxChannel, at_end_of_stream, buffers_after, buffers_after_all,
    buffers_error, of_handshake, read_answers, read_done, read_limit, wakes_after_all,
    whole_read_done,
};
use crate::worker::writer::bytes_parts;

verus! {

/// All packets have data.
pub open spec fn all_data(packets: Seq<PacketView>) -> bool {
    forall|i: int|
        0 <= i < packets.len() ==> (#[trigger] packets[i]).header.type_field
            == PacketType::UnencryptedData
}

/// All packets are acks.
pub open spec fn all_acks(packets: Seq<PacketView>) -> bool {
    forall|i: int|
        0 <= i < packets.len() ==> (#[trigger] packets[i]).header.type_field == PacketType::Ack
}

/// Every data packet of a datagram goes into the receive buffer, and nothing else of
/// the connection changes.
pub proof fn law_every_data_packet_is_buffered(conn: ConnectionModel, packets: Seq<PacketView>)
    ensures
        after_data(conn, packets) == (ConnectionModel {
            ordered: received(conn.ordered, packets),
            ..conn
        }),
    decreases packets.len(),
{
    if packets.len() > 0 {
        law_every_data_packet_is_buffered(conn, packets.drop_last());
    }
}

/// The error that is told of data packets is that of the last one that the buffer
/// refused, and there is one exactly where one was refused.
pub proof fn law_last_refusal_is_told(conn: ConnectionModel, packets: Seq<PacketView>)
    ensures
        data_error(conn, packets) is None <==> forall|i: int|
            0 <= i < packets.len() ==> received(conn.ordered, packets.take(i)).refusal(
                (#[trigger] packets[i]).header.packet_number,
            ) is None,
        data_error(conn, packets) is Some ==> exists|i: int|
            0 <= i < packets.len() && received(conn.ordered, packets.take(i)).refusal(
                (#[trigger] packets[i]).header.packet_number,
            ) == data_error(conn, packets) && forall|j: int|
                i < j < packets.len() ==> received(conn.ordered, packets.take(j)).refusal(
                    (#[trigger] packets[j]).header.packet_number,
                ) is None,
    decreases packets.len(),
{
    if packets.len() > 0 {
        let fewer = packets.drop_last();
        let last = packets.len() - 1;
        law_last_refusal_is_told(conn, fewer);
        law_every_data_packet_is_buffered(conn, fewer);
        assert(packets.take(last) =~= fewer);
        assert(packets[last] == packets.last());
        let refusal = received(conn.ordered, packets.take(last)).refusal(
            packets[last].header.packet_number,
        );
        assert forall|i: int| 0 <= i < last implies fewer.take(i) == #[trigger] packets.take(i)
            && fewer[i] == packets[i] by {
            assert(fewer.take(i) =~= packets.take(i));
        }
        if refusal is None {
            if data_error(conn, fewer) is None {
                assert forall|i: int| 0 <= i < packets.len() implies received(
                    conn.ordered,
                    packets.take(i),
                ).refusal((#[trigger] packets[i]).header.packet_number) is None by {
                    if i < last {
                        assert(fewer[i] == packets[i]);
                        assert(fewer.take(i) == packets.take(i));
                    }
                }
            } else {
                let i = choose|i: int|
                    0 <= i < fewer.len() && received(conn.ordered, fewer.take(i)).refusal(
                        (#[trigger] fewer[i]).header.packet_number,
                    ) == data_error(conn, fewer) && forall|j: int|
                        i < j < fewer.len() ==> received(conn.ordered, fewer.take(j)).refusal(
                            (#[trigger] fewer[j]).header.packet_number,
                        ) is None;
                assert(fewer.take(i) == packets.take(i));
                assert(packets[i] == fewer[i]);
                assert forall|j: int| i < j < packets.len() implies received(
                    conn.ordered,
                    packets.take(j),
                ).refusal((#[trigger] packets[j]).header.packet_number) is None by {
                    if j < last {
                        assert(fewer[j] == packets[j]);
                        assert(fewer.take(j) == packets.take(j));
                    }
                }
            }
        }
    }
}

/// A datagram of data packets, as long as the peer has not closed its end, brings the
/// payloads of all of them to the reader, and changes nothing but the receive buffer.
pub proof fn law_data_datagram_is_readable(
    before: ManagedModel,
    packets: Seq<PacketView>,
    first: u64,
)
    requires
        packets.len() > 0,
        all_data(packets),
        !before.close.peer_fin_observed,
    ensures
        managed_after(before, packets) == (ManagedModel {
            conn: ConnectionModel {
                ordered: received(before.conn.ordered, packets),
                ..before.conn
            },
            ..before
        }),
        before.conn.ordered == OrderedModel::fresh(first) && consecutive(packets, first)
            && packets.len() <= MAX_BUFFER_SIZE && first + packets.len() <= u64::MAX
            ==> managed_after(before, packets).conn.ordered.available() == joined(
            payloads(packets),
        ),
{
    assert(packets[0].header.type_field == PacketType::UnencryptedData);
    law_every_data_packet_is_buffered(before.conn, packets);
    if before.conn.ordered == OrderedModel::fresh(first) && consecutive(packets, first)
        && packets.len() <= MAX_BUFFER_SIZE && first + packets.len() <= u64::MAX {
        law_packets_are_delivered(packets, first);
    }
}

/// What a writer puts into a datagram is what the peer can read after the datagram
/// came: the first 15000 bytes of what was queued, or all where that is less.
pub proof fn law_written_datagram_is_read(
    before: ManagedModel,
    stream: Seq<u8>,
    first: u64,
    src_conn_id: u32,
    dst_conn_id: u32,
)
    requires
        stream.len() > 0,
        first + packets_in(stream.len()) <= u64::MAX,
        before.conn.ordered == OrderedModel::fresh(first),
        !before.close.peer_fin_observed,
    ensures
        ({
            let datagram = stream_bytes(data_packets(stream, first, src_conn_id, dst_conn_id));
            let arrived = scan_datagram(datagram);
            &&& arrived.1 is None
            &&& managed_after(before, arrived.0).conn.ordered.available() == stream.take(
                if stream.len() <= 15000 {
                    stream.len() as int
                } else {
                    15000
                },
            )
        }),
{
    let packets = data_packets(stream, first, src_conn_id, dst_conn_id);
    lemma_datagram_len(stream, first, src_conn_id, dst_conn_id);
    law_datagram_is_readable(stream, first, src_conn_id, dst_conn_id);
    reveal_with_fuel(joined, 2);
    assert(joined(seq![stream]) =~= stream);
    law_stream_is_delivered(seq![stream], first, src_conn_id, dst_conn_id);
    law_data_datagram_is_readable(before, packets, first);
}

/// Each data packet that is taken wakes the reader that waits, and each one that is
/// buffered without an error is answered so.
pub proof fn law_data_wakes_the_reader(
    before: ManagedModel,
    packets: Seq<PacketView>,
    after: ManagedModel,
    buffered: Buffered,
)
    requires
        packets.len() > 0,
        all_data(packets),
        !before.close.peer_fin_observed,
        buffered_in(before, packets, after, buffered),
    ensures
        buffered.wake == before.conn.waker,
        before.conn.waker is Some ==> (buffered.result is Ok <==> forall|i: int|
            0 <= i < packets.len() ==> received(before.conn.ordered, packets.take(i)).refusal(
                (#[trigger] packets[i]).header.packet_number,
            ) is None),
        before.conn.waker is None ==> buffered.result is Err,
        buffered.fin_ack is None,
        !buffered.notify_closer,
        buffered.events@.len() == 0,
{
    assert(packets[0].header.type_field == PacketType::UnencryptedData);
    law_last_refusal_is_told(before.conn, packets);
}

proof fn lemma_acks_kept(acks: AckBufferModel, packets: Seq<PacketView>)
    requires
        all_acks(packets),
    ensures
        after_acks(acks, packets).received.len() == acks.received.len() + packets.len(),
        after_acks(acks, packets).received.take(acks.received.len() as int) == acks.received,
        after_acks(acks, packets).next_expected == acks.next_expected,
        after_acks(acks, packets).waker == acks.waker,
        acks_error(packets) is None,
        ack_events(packets).len() == packets.len(),
        forall|i: int|
            0 <= i < packets.len() ==> {
                let told = after_acks(acks, packets).received[acks.received.len() + i];
                &&& told.base_packet_num == (#[trigger] packets[i]).header.packet_number
                &&& told.num_packets_consumed == packets[i].header.type_specific_payload
                &&& ack_events(packets)[i] == (DiagnosticEvent::AckReceived {
                    base_packet_num: packets[i].header.packet_number,
                    count: packets[i].header.type_specific_payload as usize,
                })
            },
    decreases packets.len(),
{
    let after = after_acks(acks, packets);
    if packets.len() > 0 {
        let fewer = packets.drop_last();
        let before = after_acks(acks, fewer);
        assert forall|i: int| 0 <= i < fewer.len() implies (
        #[trigger] fewer[i]).header.type_field == PacketType::Ack by {
            assert(fewer[i] == packets[i]);
        }
        lemma_acks_kept(acks, fewer);
        assert(packets[packets.len() - 1] == packets.last());
        assert(after.received.take(acks.received.len() as int) =~= before.received.take(
            acks.received.len() as int,
        ));
        assert forall|i: int| 0 <= i < packets.len() implies {
            let told = after.received[acks.received.len() + i];
            &&& told.base_packet_num == (#[trigger] packets[i]).header.packet_number
            &&& told.num_packets_consumed == packets[i].header.type_specific_payload
            &&& ack_events(packets)[i] == (DiagnosticEvent::AckReceived {
                base_packet_num: packets[i].header.packet_number,
                count: packets[i].header.type_specific_payload as usize,
            })
        } by {
            if i < fewer.len() {
                assert(fewer[i] == packets[i]);
                assert(after.received[acks.received.len() + i]
                    == before.received[acks.received.len() + i]);
            }
        }
    } else {
        assert(after.received.take(acks.received.len() as int) =~= acks.received);
    }
}

/// Each ack packet is kept, behind those that came before, with the number of the
/// first packet that it acknowledges and with how many they are; the listener is told
/// of each, and nothing else of the connection changes.
pub proof fn law_every_ack_is_kept(
    before: ManagedModel,
    packets: Seq<PacketView>,
    after: ManagedModel,
    buffered: Buffered,
)
    requires
        packets.len() > 0,
        all_acks(packets),
        buffered_in(before, packets, after, buffered),
    ensures
        after.conn == before.conn,
        after.close == before.close,
        after.acks.waker == before.acks.waker,
        after.acks.received.len() == before.acks.received.len() + packets.len(),
        after.acks.received.take(before.acks.received.len() as int) == before.acks.received,
        buffered.wake == before.acks.waker,
        buffered.result is Ok <==> before.acks.waker is Some,
        buffered.events@.len() == packets.len(),
        forall|i: int|
            0 <= i < packets.len() ==> {
                let told = after.acks.received[before.acks.received.len() + i];
                &&& told.base_packet_num == (#[trigger] packets[i]).header.packet_number
                &&& told.num_packets_consumed == packets[i].header.type_specific_payload
                &&& buffered.events@[i] == (DiagnosticEvent::AckReceived {
                    base_packet_num: packets[i].header.packet_number,
                    count: packets[i].header.type_specific_payload as usize,
                })
            },
{
    assert(packets[0].header.type_field == PacketType::Ack);
    lemma_acks_kept(before.acks, packets);
}

/// The acks that one end puts into a datagram are those that the other end finds, in
/// their order.
pub proof fn law_sent_acks_arrive(
    before: ManagedModel,
    sent: Seq<AckData>,
    src_conn_id: u32,
    dst_conn_id: u32,
)
    requires
        sent.len() > 0,
        forall|i: int|
            0 <= i < sent.len() ==> (#[trigger] sent[i]).num_packets_consumed <= u16::MAX,
    ensures
        ({
            let datagram = stream_bytes(ack_packets(sent, src_conn_id, dst_conn_id));
            let arrived = scan_datagram(datagram);
            &&& arrived.1 is None
            &&& managed_after(before, arrived.0).acks.received == before.acks.received + sent
        }),
{
    let packets = ack_packets(sent, src_conn_id, dst_conn_id);
    law_acks_are_readable(sent, src_conn_id, dst_conn_id);
    assert(sent.take(sent.len() as int) =~= sent);
    lemma_ack_bytes_len(sent, src_conn_id, dst_conn_id, sent.len());
    assert(packets[0].header.type_field == PacketType::Ack);
    lemma_acks_kept(before.acks, packets);
    let after = after_acks(before.acks, packets);
    assert forall|i: int| 0 <= i < after.received.len() implies (#[trigger] after.received[i]) == (
    before.acks.received + sent)[i] by {
        let known = before.acks.received.len() as int;
        if i < known {
            assert(after.received.take(known)[i] == after.received[i]);
        } else {
            let k = i - known;
            assert(packets[k].header.packet_number == sent[k].base_packet_num);
            assert(sent[k].num_packets_consumed <= u16::MAX);
            assert(after.received[known + k].base_packet_num == sent[k].base_packet_num);
        }
    }
    assert(after.received =~= before.acks.received + sent);
}

/// The `FinAck` that came last is the one that is known, and where none came the one
/// that was known before stays.
pub proof fn law_last_fin_ack_is_known(
    close: CloseBufferModel,
    packets: Seq<PacketView>,
    i: int,
)
    requires
        all_close_packets(packets),
        -1 <= i < packets.len(),
        i >= 0 ==> !is_fin(packets[i]),
        forall|j: int| i < j < packets.len() ==> is_fin(#[trigger] packets[j]),
    ensures
        after_close(close, packets).fsm.acked == if i < 0 {
            close.fsm.acked
        } else {
            Some(packets[i].header.packet_number)
        },
    decreases packets.len(),
{
    if packets.len() > 0 && i < packets.len() - 1 {
        let fewer = packets.drop_last();
        assert(is_fin(packets[packets.len() - 1]));
        assert forall|j: int| 0 <= j < fewer.len() implies is_close_packet(
            #[trigger] fewer[j],
        ) by {
            assert(fewer[j] == packets[j]);
        }
        assert forall|j: int| i < j < fewer.len() implies is_fin(#[trigger] fewer[j]) by {
            assert(fewer[j] == packets[j]);
        }
        law_last_fin_ack_is_known(close, fewer, i);
    }
}

/// A `FinAck` that comes in a datagram of its own is known, with its number, whatever
/// came before; the task that closes the connection is notified, the listener is told,
/// and nothing else changes.
pub proof fn law_fin_ack_is_known(
    before: ManagedModel,
    packet: PacketView,
    after: ManagedModel,
    buffered: Buffered,
)
    requires
        packet.header.type_field == PacketType::FinAck,
        buffered_in(before, seq![packet], after, buffered),
    ensures
        after.close.fsm.acked == Some(packet.header.packet_number),
        after.close.fsm.owed == before.close.fsm.owed,
        after.close.fsm.state == before.close.fsm.state,
        after.close.peer_fin_observed == before.close.peer_fin_observed,
        after.conn == before.conn,
        after.acks == before.acks,
        buffered.notify_closer,
        buffered.fin_ack is None,
        buffered.wake is None,
        buffered.result is Ok,
        buffered.events@ == seq![
            DiagnosticEvent::FinAckReceived { packet_num: packet.header.packet_number },
        ],
{
    let packets = seq![packet];
    reveal_with_fuel(after_close, 2);
    assert(packets.drop_last() =~= Seq::empty());
    assert(packets[0] == packet);
    assert(packets.last() == packet);
    assert(!has_fin(packets));
    assert(has_fin_ack(packets));
    assert(close_events(packets) =~= seq![
        DiagnosticEvent::FinAckReceived { packet_num: packet.header.packet_number },
    ]);
}

/// The peer's `Fin` in a datagram of its own, be it the first or a repetition of it,
/// is answered with its own number, as long as the connection is not closed; it lets
/// the reader find the end of the stream, and wakes it.
pub proof fn law_fin_is_answered(
    before: ManagedModel,
    packet: PacketView,
    after: ManagedModel,
    buffered: Buffered,
)
    requires
        is_fin(packet),
        !(before.close.fsm.state is Closed),
        before.close.fsm.peer_fin is None || (before.close.fsm.peer_fin == Some(
            packet.header.packet_number,
        ) && before.close.peer_fin_observed),
        buffered_in(before, seq![packet], after, buffered),
    ensures
        buffered.fin_ack == Some(packet.header.packet_number),
        buffered.wake == before.conn.waker,
        buffered.result is Ok,
        !buffered.notify_closer,
        buffered.events@ == seq![
            DiagnosticEvent::FinReceived { packet_num: packet.header.packet_number },
        ],
        after.close.peer_fin_observed,
        after.close.fsm.peer_fin == Some(packet.header.packet_number),
        after.close.fsm.acked == before.close.fsm.acked,
        after.close.fsm.owed is None,
        after.conn == before.conn,
        after.acks == before.acks,
{
    let packets = seq![packet];
    reveal_with_fuel(after_close, 2);
    assert(packets.drop_last() =~= Seq::empty());
    assert(packets[0] == packet);
    assert(packets.last() == packet);
    assert(is_fin(packets[0]));
    assert(has_fin(packets));
    assert(!has_fin_ack(packets));
    assert(close_events(packets) =~= seq![
        DiagnosticEvent::FinReceived { packet_num: packet.header.packet_number },
    ]);
}

/// It does not matter to the reader which socket data comes to: a datagram of data
/// packets leaves the same bytes to be read, be it read from the socket of the
/// connection or from that of the host.
pub proof fn law_sockets_agree_on_data(
    before: ManagedModel,
    packets: Seq<PacketView>,
    addr: SocketAddr,
    host_type: BluefinHost,
)
    requires
        all_data(packets),
    ensures
        buffers_after_all(before, packets, addr, false, host_type).conn.ordered == managed_after(
            before,
            packets,
        ).conn.ordered,
        buffers_after_all(before, packets, addr, false, host_type).acks == before.acks,
        buffers_after_all(before, packets, addr, false, host_type).close == before.close,
{
    if packets.len() > 0 {
        assert(packets[0].header.type_field == PacketType::UnencryptedData);
        law_every_data_packet_is_buffered(before.conn, packets);
    }
    lemma_host_data(before, packets, addr, host_type);
}

proof fn lemma_host_data(
    before: ManagedModel,
    packets: Seq<PacketView>,
    addr: SocketAddr,
    host_type: BluefinHost,
)
    requires
        all_data(packets),
    ensures
        ({
            let after = buffers_after_all(before, packets, addr, false, host_type);
            &&& after.conn.ordered == if before.close.peer_fin_observed {
                before.conn.ordered
            } else {
                received(before.conn.ordered, packets)
            }
            &&& after.conn.waker == before.conn.waker
            &&& after.conn.addr == before.conn.addr
            &&& after.acks == before.acks
            &&& after.close == before.close
        }),
    decreases packets.len(),
{
    if packets.len() > 0 {
        let fewer = packets.drop_last();
        assert forall|i: int| 0 <= i < fewer.len() implies (
        #[trigger] fewer[i]).header.type_field == PacketType::UnencryptedData by {
            assert(fewer[i] == packets[i]);
        }
        lemma_host_data(before, fewer, addr, host_type);
        assert(packets[packets.len() - 1] == packets.last());
    }
}

/// Data that comes to the socket of the host and is taken wakes the reader that waits
/// for it, and is answered without an error; where nobody waits, that is told.
pub proof fn law_host_wakes_the_reader(
    before: ManagedModel,
    packet: PacketView,
    addr: SocketAddr,
    host_type: BluefinHost,
)
    requires
        packet.header.type_field == PacketType::UnencryptedData,
        !before.close.peer_fin_observed,
        before.conn.ordered.refusal(packet.header.packet_number) is None,
    ensures
        before.conn.waker is Some ==> {
            &&& wakes_after_all(before, seq![packet], addr, false, host_type) == seq![
                before.conn.waker->0,
            ]
            &&& buffers_error(before, packet, false, host_type) is None
        },
        before.conn.waker is None ==> buffers_error(before, packet, false, host_type) == Some(
            ErrorView::NoSuchWakerError,
        ),
        buffers_after(before, packet, addr, false, host_type).conn.dst_conn_id
            == packet.header.source_connection_id,
{
    let packets = seq![packet];
    reveal_with_fuel(wakes_after_all, 2);
    assert(packets.drop_last() =~= Seq::empty());
    assert(packets.last() == packet);
    assert(buffers_after_all(before, packets.drop_last(), addr, false, host_type) == before);
    if before.conn.waker is Some {
        assert(wakes_after_all(before, packets, addr, false, host_type) =~= seq![
            before.conn.waker->0,
        ]);
    }
}

/// An ack that comes to the socket of the host is kept with the others, and one of the
/// handshake is not taken for it.
pub proof fn law_host_keeps_acks(
    before: ManagedModel,
    packet: PacketView,
    addr: SocketAddr,
    host_type: BluefinHost,
)
    requires
        packet.header.type_field == PacketType::Ack,
    ensures
        ({
            let after = buffers_after(before, packet, addr, false, host_type);
            &&& after.conn == before.conn
            &&& after.close == before.close
            &&& after.acks.received.len() == before.acks.received.len() + 1
            &&& after.acks.received.drop_last() == before.acks.received
            &&& after.acks.received.last().base_packet_num == packet.header.packet_number
            &&& after.acks.received.last().num_packets_consumed
                == packet.header.type_specific_payload
        }),
{
    let after = buffers_after(before, packet, addr, false, host_type);
    assert(after.acks.received.drop_last() =~= before.acks.received);
}

/// A packet of the handshake is handed over as it is, with the address that it came
/// from, unless one waits already; the first address stays.
pub proof fn law_handshake_packet_is_handed_over(
    before: ManagedModel,
    packet: PacketView,
    addr: SocketAddr,
    is_hello: bool,
    host_type: BluefinHost,
)
    requires
        of_handshake(is_hello, host_type, packet),
        before.conn.packet is None,
    ensures
        ({
            let after = buffers_after(before, packet, addr, is_hello, host_type);
            &&& after.conn.packet == Some(packet)
            &&& after.conn.addr == if before.conn.addr is Some {
                before.conn.addr
            } else {
                Some(addr)
            }
            &&& after.conn.start_known
            &&& after.conn.waker == before.conn.waker
            &&& after.acks == before.acks
            &&& after.close == before.close
        }),
        before.conn.waker is Some ==> buffers_error(before, packet, is_hello, host_type) is None,
{
}

/// Of a datagram that comes to the socket of the host, the last packet that is taken
/// wakes the reader, however many there are, and nobody else is woken.
pub proof fn law_host_wakes_the_reader_of_many(
    before: ManagedModel,
    packets: Seq<PacketView>,
    addr: SocketAddr,
    host_type: BluefinHost,
)
    requires
        all_data(packets),
        packets.len() > 0,
        !before.close.peer_fin_observed,
        before.conn.waker is Some,
    ensures
        ({
            let wakes = wakes_after_all(before, packets, addr, false, host_type);
            &&& forall|i: int| 0 <= i < wakes.len() ==> #[trigger] wakes[i] == before.conn.waker->0
            &&& wakes.len() == taken_of(before.conn.ordered, packets)
            &&& received(before.conn.ordered, packets.drop_last()).refusal(
                packets.last().header.packet_number,
            ) is None ==> wakes.len() > 0
        }),
{
    lemma_host_wakes(before, packets, addr, host_type);
}

/// How many of the packets a receive buffer takes.
pub open spec fn taken_of(buffer: OrderedModel, packets: Seq<PacketView>) -> nat
    decreases packets.len(),
{
    if packets.len() == 0 {
        0
    } else {
        taken_of(buffer, packets.drop_last()) + if received(buffer, packets.drop_last()).refusal(
            packets.last().header.packet_number,
        ) is None {
            1nat
        } else {
            0nat
        }
    }
}

proof fn lemma_host_wakes(
    before: ManagedModel,
    packets: Seq<PacketView>,
    addr: SocketAddr,
    host_type: BluefinHost,
)
    requires
        all_data(packets),
        !before.close.peer_fin_observed,
        before.conn.waker is Some,
    ensures
        ({
            let wakes = wakes_after_all(before, packets, addr, false, host_type);
            &&& forall|i: int| 0 <= i < wakes.len() ==> #[trigger] wakes[i] == before.conn.waker->0
            &&& wakes.len() == taken_of(before.conn.ordered, packets)
        }),
    decreases packets.len(),
{
    if packets.len() > 0 {
        let fewer = packets.drop_last();
        assert forall|i: int| 0 <= i < fewer.len() implies (
        #[trigger] fewer[i]).header.type_field == PacketType::UnencryptedData by {
            assert(fewer[i] == packets[i]);
        }
        lemma_host_wakes(before, fewer, addr, host_type);
        lemma_host_data(before, fewer, addr, host_type);
        assert(packets[packets.len() - 1] == packets.last());
    }
}

/// What a read hands out is what could be read, from its front: the first bytes of the
/// caller's buffer are those, the others stay, and what is left can be read next.
pub proof fn law_read_hands_out_the_front(
    before: ReaderRxChannel,
    conn: ConnectionModel,
    limit: int,
    buf: Seq<u8>,
    after: ReaderRxChannel,
    conn_left: ConnectionModel,
    buf_left: Seq<u8>,
    outcome: ReadOutcome,
)
    requires
        conn.valid(),
        conn.addr is Some,
        0 <= limit <= buf.len(),
        conn.ordered.available().len() <= u64::MAX,
        read_done(before, conn, limit, buf, after, conn_left, buf_left, outcome),
    ensures
        ({
            let available = conn.ordered.available();
            let n: int = if available.len() <= limit {
                available.len() as int
            } else {
                limit
            };
            &&& outcome.result == Ok::<(u64, SocketAddr), BluefinError>((n as u64, conn.addr->0))
            &&& buf_left.len() == buf.len()
            &&& buf_left.take(n) == available.take(n)
            &&& buf_left.skip(n) == buf.skip(n)
            &&& conn_left.ordered.available() == available.skip(n)
            &&& conn_left.addr == conn.addr
            &&& conn_left.waker == conn.waker
            &&& conn_left.packet == conn.packet
        }),
{
    let available = conn.ordered.available();
    let n: int = if available.len() <= limit {
        available.len() as int
    } else {
        limit
    };
    law_bytes_can_be_read(conn.ordered);
    if conn.ordered.readable() {
        law_read_takes_what_it_needs(conn.ordered, limit);
        law_read_loses_no_byte(conn.ordered, limit);
        assert(buf_left.take(n) =~= available.take(n));
        assert(buf_left.skip(n) =~= buf.skip(n));
        let left = conn.ordered.on_read(limit).available();
        assert(available.skip(n) =~= (available.take(n) + left).skip(n));
        assert((available.take(n) + left).skip(n) =~= left);
    } else {
        assert(available.skip(0) =~= available);
        assert(buf_left.take(n) =~= available.take(n));
    }
}

/// What a read of whole payloads hands out is what could be read, from its front, put
/// behind what the caller has already; and what is left can be read next.
pub proof fn law_whole_read_hands_out_the_front(
    before: ReaderRxChannel,
    conn: ConnectionModel,
    peer_fin_observed: bool,
    max_packets: nat,
    out: Seq<Bytes>,
    after: ReaderRxChannel,
    conn_left: ConnectionModel,
    out_left: Seq<Bytes>,
    outcome: ReadOutcome,
)
    requires
        conn.valid(),
        conn.addr is Some,
        conn.ordered.readable(),
        whole_read_done(
            before,
            conn,
            peer_fin_observed,
            max_packets,
            out,
            after,
            conn_left,
            out_left,
            outcome,
        ),
    ensures
        ({
            let handed = bytes_parts(out_left).skip(out.len() as int);
            &&& out_left.len() >= out.len()
            &&& bytes_parts(out_left).take(out.len() as int) == bytes_parts(out)
            &&& joined(handed) + conn_left.ordered.available() == conn.ordered.available()
            &&& outcome.result matches Ok((bytes, addr)) && bytes == joined(handed).len()
                && conn.addr == Some(addr)
            &&& handed.len() <= max_packets + 1
            &&& ready(conn.ordered.slots).len() <= max_packets
                ==> conn_left.ordered.available().len() == 0
        }),
{
    let parts = bytes_parts(out_left);
    let handed = conn.ordered.whole_payloads(max_packets);
    assert(bytes_parts(out).len() == out.len());
    assert(parts.len() == out_left.len());
    assert(parts.skip(out.len() as int) =~= handed);
    assert(parts.take(out.len() as int) =~= bytes_parts(out));
    law_whole_read_loses_no_byte(conn.ordered, max_packets);
    law_whole_read_takes_whole_packets(conn.ordered, max_packets);
    lemma_whole_read_fits(conn.ordered, max_packets);
    law_bytes_can_be_read(conn_left.ordered);
}

/// A reader waits only where there is nothing to answer: neither bytes nor the end of
/// the stream.
pub proof fn law_reader_waits_only_for_something(conn: ConnectionModel)
    ensures
        read_answers(conn, true),
        conn.addr is Some && conn.ordered.available().len() > 0 ==> read_answers(conn, false),
        conn.addr is Some && conn.ordered.available().len() > 0 ==> !at_end_of_stream(conn, true),
        !at_end_of_stream(conn, false),
        conn.ordered.carry.len() == 0 && ready(conn.ordered.slots).len() == 0 ==> !read_answers(
            conn,
            false,
        ) && (conn.addr is Some ==> at_end_of_stream(conn, true)),
{
    law_bytes_can_be_read(conn.ordered);
}

proof fn lemma_fins_kept(close: CloseBufferModel, packets: Seq<PacketView>, pn: u64)
    requires
        all_close_packets(packets),
        forall|i: int|
            0 <= i < packets.len() && (#[trigger] packets[i]).header.type_field == PacketType::Fin
                ==> packets[i].header.packet_number == pn,
        !(close.fsm.state is Closed),
        close.fsm.peer_fin is None || (close.fsm.peer_fin == Some(pn) && close.peer_fin_observed),
    ensures
        ({
            let after = after_close(close, packets);
            &&& !(after.fsm.state is Closed)
            &&& after.waker == close.waker
            &&& if exists|i: int|
                0 <= i < packets.len() && (#[trigger] packets[i]).header.type_field
                    == PacketType::Fin {
                after.fsm.owed == Some(pn) && after.fsm.peer_fin == Some(pn)
                    && after.peer_fin_observed
            } else {
                after.fsm.owed == close.fsm.owed && after.fsm.peer_fin == close.fsm.peer_fin
                    && after.peer_fin_observed == close.peer_fin_observed
            }
        }),
    decreases packets.len(),
{
    if packets.len() > 0 {
        let fewer = packets.drop_last();
        let last = packets.len() - 1;
        assert forall|i: int| 0 <= i < fewer.len() implies is_close_packet(
            #[trigger] fewer[i],
        ) by {
            assert(fewer[i] == packets[i]);
        }
        assert forall|i: int|
            0 <= i < fewer.len() && (#[trigger] fewer[i]).header.type_field
                == PacketType::Fin implies fewer[i].header.packet_number == pn by {
            assert(fewer[i] == packets[i]);
        }
        lemma_fins_kept(close, fewer, pn);
        assert(packets[last] == packets.last());
        assert(is_close_packet(packets[last]));
        let among = exists|i: int|
            0 <= i < packets.len() && (#[trigger] packets[i]).header.type_field == PacketType::Fin;
        let among_fewer = exists|i: int|
            0 <= i < fewer.len() && (#[trigger] fewer[i]).header.type_field == PacketType::Fin;
        if among_fewer {
            let i = choose|i: int|
                0 <= i < fewer.len() && (#[trigger] fewer[i]).header.type_field == PacketType::Fin;
            assert(packets[i] == fewer[i]);
            assert(among);
        } else if among {
            let i = choose|i: int|
                0 <= i < packets.len() && (#[trigger] packets[i]).header.type_field
                    == PacketType::Fin;
            if i < last {
                assert(fewer[i] == packets[i]);
            }
        }
    }
}

/// Of a datagram with packets of the close exchange each one counts, however many there
/// are and wherever it stands. The listener is told of each, with its number. A `Fin`
/// among them is answered with its number and wakes the reader; a `FinAck` among them
/// notifies the task that closes the connection.
pub proof fn law_every_close_packet_counts(
    before: ManagedModel,
    packets: Seq<PacketView>,
    pn: u64,
    after: ManagedModel,
    buffered: Buffered,
)
    requires
        packets.len() > 0,
        forall|i: int|
            0 <= i < packets.len() ==> (#[trigger] packets[i]).header.type_field == PacketType::Fin
                || packets[i].header.type_field == PacketType::FinAck,
        forall|i: int|
            0 <= i < packets.len() && (#[trigger] packets[i]).header.type_field == PacketType::Fin
                ==> packets[i].header.packet_number == pn,
        !(before.close.fsm.state is Closed),
        before.close.fsm.peer_fin is None || (before.close.fsm.peer_fin == Some(pn)
            && before.close.peer_fin_observed),
        buffered_in(before, packets, after, buffered),
    ensures
        buffered.events@.len() == packets.len(),
        forall|i: int|
            0 <= i < packets.len() ==> #[trigger] buffered.events@[i] == if packets[i].header.type_field
                == PacketType::Fin {
                DiagnosticEvent::FinReceived { packet_num: packets[i].header.packet_number }
            } else {
                DiagnosticEvent::FinAckReceived { packet_num: packets[i].header.packet_number }
            },
        buffered.notify_closer <==> exists|i: int|
            0 <= i < packets.len() && (#[trigger] packets[i]).header.type_field
                == PacketType::FinAck,
        if exists|i: int|
            0 <= i < packets.len() && (#[trigger] packets[i]).header.type_field
                == PacketType::Fin {
            &&& buffered.fin_ack == Some(pn)
            &&& buffered.wake == before.conn.waker
            &&& after.close.peer_fin_observed
            &&& after.close.fsm.peer_fin == Some(pn)
            &&& after.close.fsm.owed is None
        } else {
            &&& buffered.fin_ack is None
            &&& buffered.wake is None
            &&& after.close.peer_fin_observed == before.close.peer_fin_observed
            &&& after.close.fsm.peer_fin == before.close.fsm.peer_fin
            &&& after.close.fsm.owed == before.close.fsm.owed
        },
        buffered.result is Ok,
        after.close.waker == before.close.waker,
        after.conn == before.conn,
        after.acks == before.acks,
{
    assert forall|i: int| 0 <= i < packets.len() implies is_close_packet(
        #[trigger] packets[i],
    ) by {
        assert(packets[i].header.type_field == PacketType::Fin || packets[i].header.type_field
            == PacketType::FinAck);
    }
    assert(is_close_packet(packets[0]));
    lemma_fins_kept(before.close, packets, pn);
    if has_fin(packets) {
        let i = choose|i: int| 0 <= i < packets.len() && is_fin(#[trigger] packets[i]);
        assert(packets[i].header.type_field == PacketType::Fin);
    }
    if exists|i: int|
        0 <= i < packets.len() && (#[trigger] packets[i]).header.type_field == PacketType::Fin {
        let i = choose|i: int|
            0 <= i < packets.len() && (#[trigger] packets[i]).header.type_field
                == PacketType::Fin;
        assert(is_fin(packets[i]));
    }
    if has_fin_ack(packets) {
        let i = choose|i: int| 0 <= i < packets.len() && !is_fin(#[trigger] packets[i]);
        assert(packets[i].header.type_field == PacketType::FinAck);
    }
    if exists|i: int|
        0 <= i < packets.len() && (#[trigger] packets[i]).header.type_field
            == PacketType::FinAck {
        let i = choose|i: int|
            0 <= i < packets.len() && (#[trigger] packets[i]).header.type_field
                == PacketType::FinAck;
        assert(!is_fin(packets[i]));
    }
}

/// A datagram is mixed exactly where it begins with a packet of the close exchange and
/// has another that is none.
pub proof fn law_mixed_datagrams_are_told(packets: Seq<PacketView>)
    ensures
        !uniform(packets) <==> {
            &&& packets.len() > 0
            &&& packets[0].header.type_field == PacketType::Fin || packets[0].header.type_field
                == PacketType::FinAck
            &&& exists|i: int|
                0 <= i < packets.len() && (#[trigger] packets[i]).header.type_field
                    != PacketType::Fin && packets[i].header.type_field != PacketType::FinAck
        },
{
    if packets.len() > 0 && !all_close_packets(packets) {
        let i = choose|i: int| 0 <= i < packets.len() && !is_close_packet(#[trigger] packets[i]);
        assert(packets[i].header.type_field != PacketType::Fin);
    }
    if exists|i: int|
        0 <= i < packets.len() && (#[trigger] packets[i]).header.type_field != PacketType::Fin
            && packets[i].header.type_field != PacketType::FinAck {
        let i = choose|i: int|
            0 <= i < packets.len() && (#[trigger] packets[i]).header.type_field
                != PacketType::Fin && packets[i].header.type_field != PacketType::FinAck;
        assert(!is_close_packet(packets[i]));
    }
}

/// A data packet that the buffer refuses changes nothing, wakes nobody, and is answered
/// with what the buffer says.
pub proof fn law_host_tells_the_refusal(
    before: ManagedModel,
    packet: PacketView,
    addr: SocketAddr,
    host_type: BluefinHost,
)
    requires
        packet.header.type_field == PacketType::UnencryptedData,
        !before.close.peer_fin_observed,
        before.conn.ordered.refusal(packet.header.packet_number) is Some,
    ensures
        buffers_after(before, packet, addr, false, host_type) == before,
        buffers_error(before, packet, false, host_type) == before.conn.ordered.refusal(
            packet.header.packet_number,
        ),
        wakes_after_all(before, seq![packet], addr, false, host_type).len() == 0,
{
    let packets = seq![packet];
    reveal_with_fuel(wakes_after_all, 2);
    assert(packets.drop_last() =~= Seq::empty());
    assert(packets.last() == packet);
    assert(buffers_after_all(before, packets.drop_last(), addr, false, host_type) == before);
}

/// It does not matter to the writer which socket acks come to: however many a datagram
/// has, the same are kept, and each wakes the one who waits for acks.
pub proof fn law_sockets_agree_on_acks(
    before: ManagedModel,
    packets: Seq<PacketView>,
    addr: SocketAddr,
    host_type: BluefinHost,
)
    requires
        all_acks(packets),
    ensures
        buffers_after_all(before, packets, addr, false, host_type) == (ManagedModel {
            acks: managed_after(before, packets).acks,
            ..before
        }),
        wakes_after_all(before, packets, addr, false, host_type) == if before.acks.waker is Some {
            Seq::new(packets.len(), |i: int| before.acks.waker->0)
        } else {
            Seq::empty()
        },
{
    if packets.len() > 0 {
        assert(packets[0].header.type_field == PacketType::Ack);
    }
    lemma_host_acks(before, packets, addr, host_type);
}

proof fn lemma_host_acks(
    before: ManagedModel,
    packets: Seq<PacketView>,
    addr: SocketAddr,
    host_type: BluefinHost,
)
    requires
        all_acks(packets),
    ensures
        buffers_after_all(before, packets, addr, false, host_type) == (ManagedModel {
            acks: after_acks(before.acks, packets),
            ..before
        }),
        after_acks(before.acks, packets).waker == before.acks.waker,
        wakes_after_all(before, packets, addr, false, host_type) == if before.acks.waker is Some {
            Seq::new(packets.len(), |i: int| before.acks.waker->0)
        } else {
            Seq::empty()
        },
    decreases packets.len(),
{
    if packets.len() > 0 {
        let fewer = packets.drop_last();
        assert forall|i: int| 0 <= i < fewer.len() implies (
        #[trigger] fewer[i]).header.type_field == PacketType::Ack by {
            assert(fewer[i] == packets[i]);
        }
        lemma_host_acks(before, fewer, addr, host_type);
        assert(packets[packets.len() - 1] == packets.last());
        if before.acks.waker is Some {
            assert(Seq::new(packets.len(), |i: int| before.acks.waker->0) =~= Seq::new(
                fewer.len(),
                |i: int| before.acks.waker->0,
            ).push(before.acks.waker->0));
        }
    }
}

/// A read of whole payloads that finds none leaves all as it is. It answers the end of
/// the stream where the peer has closed its end, and says otherwise why it has nothing.
pub proof fn law_whole_read_says_why_it_has_nothing(
    before: ReaderRxChannel,
    conn: ConnectionModel,
    peer_fin_observed: bool,
    max_packets: nat,
    out: Seq<Bytes>,
    after: ReaderRxChannel,
    conn_left: ConnectionModel,
    out_left: Seq<Bytes>,
    outcome: ReadOutcome,
)
    requires
        conn.addr is None || (conn.ordered.carry.len() == 0 && ready(conn.ordered.slots).len()
            == 0),
        whole_read_done(
            before,
            conn,
            peer_fin_observed,
            max_packets,
            out,
            after,
            conn_left,
            out_left,
            outcome,
        ),
    ensures
        out_left == out,
        conn_left == conn,
        outcome.ack is None,
        outcome.events@.len() == 0,
        after.unacknowledged() == before.unacknowledged(),
        outcome.result matches Ok((bytes, addr)) ==> bytes == 0 && peer_fin_observed && conn.addr
            == Some(addr),
        conn.addr is Some && !peer_fin_observed ==> (outcome.result matches Err(e) && e@
            == ErrorView::BufferEmptyError),
        conn.addr is Some && peer_fin_observed ==> outcome.result is Ok,
        conn.addr is None ==> (outcome.result matches Err(e) && e@ is Unexpected),
{
    law_bytes_can_be_read(conn.ordered);
}

/// A read takes as many bytes as were asked for, unless the caller's buffer has less
/// room: then as many as there is room for.
pub proof fn law_read_is_limited_by_the_room(asked: nat, room: nat)
    ensures
        read_limit(asked as int, room as int) <= asked,
        read_limit(asked as int, room as int) <= room,
        asked <= room ==> read_limit(asked as int, room as int) == asked,
        room <= asked ==> read_limit(asked as int, room as int) == room,
{
}

} // verus!

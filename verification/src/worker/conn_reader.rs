//! The reader of an established connection: it puts the packets of a datagram
//! into the buffers of the connection.
use core::task::Waker;
use vstd::prelude::*;

use crate::error::{BluefinError, BluefinResult, ErrorView};
use crate::net::DiagnosticEvent;
use crate::net::ack_handler::{AckBuffer, AckBufferModel};
use crate::net::close_handler::{CloseBuffer, CloseBufferModel};
use crate::net::connection::{
    ConnectionBuffer, ConnectionManagedBuffers, ConnectionModel, ManagedModel, answers,
};
use crate::utils::cpu_affinity::Platform;
use crate::wire::Extract;
use crate::wire::header::PacketType;
use crate::wire::packet::{
    BluefinPacket, PacketView, law_read_packets_are_well_formed, packet_views, scan_datagram,
};

verus! {

/// The number of reader tasks where nothing tells how many are useful.
pub const DEFAULT_NUMBER_OF_TASKS_TO_SPAWN: usize = 3;

/// What is to be done after the packets of a datagram were buffered.
pub struct Buffered {
    /// How it went.
    pub result: BluefinResult<()>,
    /// The task to be woken.
    pub wake: Option<Waker>,
    /// The task that closes the connection is to be notified.
    pub notify_closer: bool,
    /// The packet number of the `FinAck` to be sent.
    pub fin_ack: Option<u64>,
    /// What a listener is told.
    pub events: Vec<DiagnosticEvent>,
}

/// What became of a datagram.
pub enum Received {
    /// It is not a stream of packets.
    NotPackets,
    /// It has other packets after one of the close exchange.
    Mixed,
    /// Its packets were buffered.
    Buffered(Buffered),
}

/// The buffer after the data packets came, one after the other.
pub open spec fn after_data(conn: ConnectionModel, packets: Seq<PacketView>) -> ConnectionModel
    decreases packets.len(),
{
    if packets.len() == 0 {
        conn
    } else {
        after_data(conn, packets.drop_last()).on_bytes(packets.last())
    }
}

/// The error of the last data packet that is refused.
pub open spec fn data_error(conn: ConnectionModel, packets: Seq<PacketView>) -> Option<ErrorView>
    decreases packets.len(),
{
    if packets.len() == 0 {
        None
    } else {
        let refusal = after_data(conn, packets.drop_last()).bytes_refusal(packets.last());
        if refusal is Some {
            refusal
        } else {
            data_error(conn, packets.drop_last())
        }
    }
}

/// The buffer after the ack packets came, one after the other.
pub open spec fn after_acks(acks: AckBufferModel, packets: Seq<PacketView>) -> AckBufferModel
    decreases packets.len(),
{
    if packets.len() == 0 {
        acks
    } else {
        after_acks(acks, packets.drop_last()).on_packet(packets.last())
    }
}

/// The error of the last ack packet that is refused.
pub open spec fn acks_error(packets: Seq<PacketView>) -> Option<ErrorView>
    decreases packets.len(),
{
    if packets.len() == 0 {
        None
    } else if AckBufferModel::refusal(packets.last()) is Some {
        AckBufferModel::refusal(packets.last())
    } else {
        acks_error(packets.drop_last())
    }
}

/// What a listener is told of ack packets: of each one that was not refused.
pub open spec fn ack_events(packets: Seq<PacketView>) -> Seq<DiagnosticEvent>
    decreases packets.len(),
{
    if packets.len() == 0 {
        Seq::empty()
    } else if AckBufferModel::refusal(packets.last()) is Some {
        ack_events(packets.drop_last())
    } else {
        ack_events(packets.drop_last()).push(
            DiagnosticEvent::AckReceived {
                base_packet_num: packets.last().header.packet_number,
                count: packets.last().header.type_specific_payload as usize,
            },
        )
    }
}

pub open spec fn is_fin(packet: PacketView) -> bool {
    packet.header.type_field == PacketType::Fin
}

pub open spec fn is_close_packet(packet: PacketView) -> bool {
    packet.header.type_field == PacketType::Fin || packet.header.type_field == PacketType::FinAck
}

/// All packets are of the close exchange.
pub open spec fn all_close_packets(packets: Seq<PacketView>) -> bool {
    forall|i: int| 0 <= i < packets.len() ==> is_close_packet(#[trigger] packets[i])
}

/// All packets are of the close exchange, if the first one is.
pub open spec fn uniform(packets: Seq<PacketView>) -> bool {
    packets.len() > 0 && is_close_packet(packets[0]) ==> all_close_packets(packets)
}

/// The close state after the packets came, one after the other.
pub open spec fn after_close(close: CloseBufferModel, packets: Seq<PacketView>) -> CloseBufferModel
    decreases packets.len(),
{
    if packets.len() == 0 {
        close
    } else {
        let before = after_close(close, packets.drop_last());
        if is_fin(packets.last()) {
            before.on_fin(packets.last().header.packet_number)
        } else {
            before.on_fin_ack(packets.last().header.packet_number)
        }
    }
}

/// A `Fin` is among the packets.
pub open spec fn has_fin(packets: Seq<PacketView>) -> bool {
    exists|i: int| 0 <= i < packets.len() && is_fin(#[trigger] packets[i])
}

/// A `FinAck` is among the packets.
pub open spec fn has_fin_ack(packets: Seq<PacketView>) -> bool {
    exists|i: int| 0 <= i < packets.len() && !is_fin(#[trigger] packets[i])
}

/// What a listener is told of the packets of the close exchange.
pub open spec fn close_events(packets: Seq<PacketView>) -> Seq<DiagnosticEvent> {
    packets.map_values(
        |packet: PacketView|
            if is_fin(packet) {
                DiagnosticEvent::FinReceived { packet_num: packet.header.packet_number }
            } else {
                DiagnosticEvent::FinAckReceived { packet_num: packet.header.packet_number }
            },
    )
}

/// What is answered where somebody has to be woken: that nobody waits comes
/// before what went wrong with the packets.
pub open spec fn woken_or(waker: Option<Waker>, error: Option<ErrorView>) -> Option<ErrorView> {
    if waker is None {
        Some(ErrorView::NoSuchWakerError)
    } else {
        error
    }
}

/// What buffering answers where somebody has to be woken.
fn wake_or(waker: &Option<Waker>, error: Option<BluefinError>) -> (answer: BluefinResult<()>)
    ensures
        answers(
            answer,
            woken_or(
                *waker,
                match error {
                    Some(e) => Some(e@),
                    None => None,
                },
            ),
        ),
{
    if waker.is_none() {
        return Err(BluefinError::NoSuchWakerError);
    }
    match error {
        Some(e) => Err(e),
        None => Ok(()),
    }
}

/// The view of an error that may have been seen.
pub open spec fn error_view(error: Option<BluefinError>) -> Option<ErrorView> {
    match error {
        Some(e) => Some(e@),
        None => None,
    }
}

/// The first `i` packets and the next one.
proof fn lemma_take_next(packets: Seq<PacketView>, i: int)
    requires
        0 <= i < packets.len(),
    ensures
        packets.take(i + 1).len() == i + 1,
        packets.take(i + 1).drop_last() == packets.take(i),
        packets.take(i + 1).last() == packets[i],
{
    assert(packets.take(i + 1).drop_last() =~= packets.take(i));
}

/// How many tasks read from the socket of a connection.
pub open spec fn reader_tasks(platform: Platform, cores: Option<usize>) -> usize {
    match platform {
        Platform::Linux => match cores {
            Some(cores) => cores,
            None => DEFAULT_NUMBER_OF_TASKS_TO_SPAWN,
        },
        Platform::MacOs => 1,
        Platform::Other => DEFAULT_NUMBER_OF_TASKS_TO_SPAWN,
    }
}

/// On Linux each core has a reader; the others have as many as is known to be of use,
/// whatever the number of cores is.
pub proof fn law_each_core_has_a_reader(cores: usize, known: Option<usize>)
    ensures
        reader_tasks(Platform::Linux, Some(cores)) == cores,
        reader_tasks(Platform::Linux, None) == 3,
        reader_tasks(Platform::MacOs, known) == 1,
        reader_tasks(Platform::Other, known) == 3,
{
}

/// [`ConnReaderHandler`] reads the packets of one established connection.
pub struct ConnReaderHandler;

impl ConnReaderHandler {
    /// How many tasks read from the socket of a connection. Where sockets share a
    /// port in a useful way it is one per core, as far as the number of cores is
    /// known; elsewhere one, or a default.
    pub fn get_number_of_tx_tasks(platform: Platform, cores: Option<usize>) -> (tasks: usize)
        ensures
            tasks == match platform {
                Platform::Linux => match cores {
                    Some(cores) => cores,
                    None => DEFAULT_NUMBER_OF_TASKS_TO_SPAWN,
                },
                Platform::MacOs => 1,
                Platform::Other => DEFAULT_NUMBER_OF_TASKS_TO_SPAWN,
            },
            tasks == reader_tasks(platform, cores),
    {
        match platform {
            Platform::Linux => match cores {
                Some(cores) => cores,
                None => DEFAULT_NUMBER_OF_TASKS_TO_SPAWN,
            },
            Platform::MacOs => 1,
            Platform::Other => DEFAULT_NUMBER_OF_TASKS_TO_SPAWN,
        }
    }

    /// Puts data packets into the receive buffer.
    pub fn buffer_in_data_packets(
        conn_buff: &mut ConnectionBuffer,
        packets: &mut Vec<BluefinPacket>,
    ) -> (buffered: Buffered)
        requires
            old(conn_buff).valid(),
            forall|i: int|
                0 <= i < old(packets)@.len() ==> (#[trigger] old(packets)@[i])@.payload.len()
                    <= u16::MAX,
        ensures
            final(conn_buff).valid(),
            final(conn_buff)@ == after_data(old(conn_buff)@, packet_views(old(packets)@)),
            final(packets)@.len() == 0,
            buffered.wake == old(conn_buff)@.waker,
            answers(
                buffered.result,
                woken_or(
                    old(conn_buff)@.waker,
                    data_error(old(conn_buff)@, packet_views(old(packets)@)),
                ),
            ),
            !buffered.notify_closer,
            buffered.fin_ack is None,
            buffered.events@.len() == 0,
    {
        let ghost start = conn_buff@;
        let ghost before = packets@;
        let ghost views = packet_views(packets@);
        let mut error: Option<BluefinError> = None;
        let total: usize = packets.len();
        let mut i: usize = 0;
        while i < total
            invariant
                i <= total,
                total == before.len(),
                packets@.len() == total,
                views == packet_views(before),
                conn_buff.valid(),
                forall|j: int|
                    0 <= j < before.len() ==> (#[trigger] before[j])@.payload.len() <= u16::MAX,
                forall|j: int| i <= j < total ==> #[trigger] packets@[j] == before[j],
                conn_buff@ == after_data(start, views.take(i as int)),
                conn_buff@.waker == start.waker,
                error_view(error) == data_error(start, views.take(i as int)),
            decreases total - i,
        {
            let packet: BluefinPacket = packets[i].extract();
            proof {
                lemma_take_next(views, i as int);
                assert(views[i as int] == packet@);
            }
            match conn_buff.buffer_in_bytes(packet) {
                Err(e) => {
                    error = Some(e);
                },
                Ok(()) => {},
            }
            i = i + 1;
        }
        packets.clear();
        assert(views.take(total as int) =~= views);
        let wake: Option<Waker> = conn_buff.take_waker_clone();
        let result: BluefinResult<()> = wake_or(&wake, error);
        Buffered { result, wake, notify_closer: false, fin_ack: None, events: Vec::new() }
    }

    /// Puts ack packets into the ack buffer.
    pub fn buffer_in_ack_packets(ack_buff: &mut AckBuffer, packets: &mut Vec<BluefinPacket>) -> (
        buffered: Buffered)
        ensures
            final(ack_buff)@ == after_acks(old(ack_buff)@, packet_views(old(packets)@)),
            final(packets)@.len() == 0,
            buffered.wake == old(ack_buff)@.waker,
            answers(
                buffered.result,
                woken_or(old(ack_buff)@.waker, acks_error(packet_views(old(packets)@))),
            ),
            !buffered.notify_closer,
            buffered.fin_ack is None,
            buffered.events@ == ack_events(packet_views(old(packets)@)),
    {
        let ghost start = ack_buff@;
        let ghost before = packets@;
        let ghost views = packet_views(packets@);
        let mut error: Option<BluefinError> = None;
        let mut events: Vec<DiagnosticEvent> = Vec::new();
        let total: usize = packets.len();
        let mut i: usize = 0;
        while i < total
            invariant
                i <= total,
                total == before.len(),
                packets@.len() == total,
                views == packet_views(before),
                forall|j: int| i <= j < total ==> #[trigger] packets@[j] == before[j],
                ack_buff@ == after_acks(start, views.take(i as int)),
                ack_buff@.waker == start.waker,
                error_view(error) == acks_error(views.take(i as int)),
                events@ == ack_events(views.take(i as int)),
            decreases total - i,
        {
            let packet: BluefinPacket = packets[i].extract();
            proof {
                lemma_take_next(views, i as int);
                assert(views[i as int] == packet@);
            }
            let base: u64 = packet.header.packet_number;
            let count: usize = packet.header.type_specific_payload as usize;
            match ack_buff.buffer_in_ack_packet(packet) {
                Err(e) => {
                    error = Some(e);
                },
                Ok(()) => {
                    events.push(DiagnosticEvent::AckReceived { base_packet_num: base, count });
                },
            }
            i = i + 1;
        }
        packets.clear();
        assert(views.take(total as int) =~= views);
        let wake: Option<Waker> = ack_buff.take_waker_clone();
        let result: BluefinResult<()> = wake_or(&wake, error);
        Buffered { result, wake, notify_closer: false, fin_ack: None, events }
    }

    /// Puts `Fin` and `FinAck` packets into the close buffer. A `Fin` is answered,
    /// and wakes the reader, which then finds the end of the stream.
    pub fn buffer_in_close_packets(
        packets: &mut Vec<BluefinPacket>,
        close_buff: &mut CloseBuffer,
        conn_buff: &ConnectionBuffer,
    ) -> (buffered: Buffered)
        requires
            all_close_packets(packet_views(old(packets)@)),
        ensures
            final(packets)@.len() == 0,
            ({
                let views = packet_views(old(packets)@);
                let close = after_close(old(close_buff)@, views);
                &&& final(close_buff)@ == if has_fin(views) {
                    CloseBufferModel { fsm: close.fsm.on_taken(), ..close }
                } else {
                    close
                }
                &&& buffered.fin_ack == if has_fin(views) {
                    close.fsm.owed
                } else {
                    None
                }
                &&& buffered.wake == if has_fin(views) {
                    conn_buff@.waker
                } else {
                    None
                }
                &&& buffered.notify_closer == has_fin_ack(views)
                &&& buffered.events@ == close_events(views)
            }),
            buffered.result == Ok::<(), BluefinError>(()),
    {
        let ghost start = close_buff@;
        let ghost before = packets@;
        let ghost views = packet_views(packets@);
        let mut saw_fin: bool = false;
        let mut notify_closer: bool = false;
        let mut events: Vec<DiagnosticEvent> = Vec::new();
        let total: usize = packets.len();
        let mut i: usize = 0;
        while i < total
            invariant
                i <= total,
                total == before.len(),
                packets@.len() == total,
                views == packet_views(before),
                all_close_packets(views),
                forall|j: int| i <= j < total ==> #[trigger] packets@[j] == before[j],
                close_buff@ == after_close(start, views.take(i as int)),
                saw_fin == has_fin(views.take(i as int)),
                notify_closer == has_fin_ack(views.take(i as int)),
                events@ == close_events(views.take(i as int)),
            decreases total - i,
        {
            let packet: BluefinPacket = packets[i].extract();
            proof {
                lemma_take_next(views, i as int);
                assert(views[i as int] == packet@);
                assert(is_close_packet(views[i as int]));
                let so_far = views.take(i as int);
                let more = views.take(i + 1);
                assert(more[i as int] == packet@);
                assert(close_events(more) =~= close_events(so_far).push(
                    if is_fin(packet@) {
                        DiagnosticEvent::FinReceived { packet_num: packet.header.packet_number }
                    } else {
                        DiagnosticEvent::FinAckReceived { packet_num: packet.header.packet_number }
                    },
                ));
                assert(has_fin(so_far) || is_fin(packet@) ==> has_fin(more)) by {
                    if has_fin(so_far) {
                        let j = choose|j: int| 0 <= j < so_far.len() && is_fin(#[trigger] so_far[j]);
                        assert(more[j] == so_far[j]);
                    }
                }
                assert(has_fin(more) ==> has_fin(so_far) || is_fin(packet@)) by {
                    if has_fin(more) {
                        let j = choose|j: int| 0 <= j < more.len() && is_fin(#[trigger] more[j]);
                        if j < i {
                            assert(so_far[j] == more[j]);
                        }
                    }
                }
                assert(has_fin_ack(so_far) || !is_fin(packet@) ==> has_fin_ack(more)) by {
                    if has_fin_ack(so_far) {
                        let j = choose|j: int|
                            0 <= j < so_far.len() && !is_fin(#[trigger] so_far[j]);
                        assert(more[j] == so_far[j]);
                    }
                }
                assert(has_fin_ack(more) ==> has_fin_ack(so_far) || !is_fin(packet@)) by {
                    if has_fin_ack(more) {
                        let j = choose|j: int| 0 <= j < more.len() && !is_fin(#[trigger] more[j]);
                        if j < i {
                            assert(so_far[j] == more[j]);
                        }
                    }
                }
            }
            if packet.header.type_field == PacketType::Fin {
                events.push(
                    DiagnosticEvent::FinReceived { packet_num: packet.header.packet_number },
                );
                close_buff.buffer_in_fin(&packet);
                saw_fin = true;
            } else {
                events.push(
                    DiagnosticEvent::FinAckReceived { packet_num: packet.header.packet_number },
                );
                let notify: bool = close_buff.buffer_in_fin_ack(&packet);
                notify_closer = notify_closer || notify;
            }
            i = i + 1;
        }
        packets.clear();
        assert(views.take(total as int) =~= views);
        let mut fin_ack: Option<u64> = None;
        let mut wake: Option<Waker> = None;
        if saw_fin {
            fin_ack = close_buff.take_pending_fin_ack_send();
            wake = conn_buff.take_waker_clone();
        }
        Buffered { result: Ok(()), wake, notify_closer, fin_ack, events }
    }

    /// Puts the packets of a datagram into the buffers of the connection. All of
    /// them are of the kind of the first one. Data that comes after the peer's `Fin`
    /// is dropped.
    pub fn buffer_in_packets(
        packets: &mut Vec<BluefinPacket>,
        conn_bufs: &mut ConnectionManagedBuffers,
    ) -> (buffered: Buffered)
        requires
            old(conn_bufs).conn_buff.valid(),
            forall|i: int|
                0 <= i < old(packets)@.len() ==> (#[trigger] old(packets)@[i])@.payload.len()
                    <= u16::MAX,
            uniform(packet_views(old(packets)@)),
        ensures
            final(conn_bufs).conn_buff.valid(),
            final(packets)@.len() == 0,
            buffered_in(old(conn_bufs)@, packet_views(old(packets)@), final(conn_bufs)@, buffered),
    {
        if packets.len() == 0 {
            return Buffered {
                result: Ok(()),
                wake: None,
                notify_closer: false,
                fin_ack: None,
                events: Vec::new(),
            };
        }
        assert(packet_views(packets@)[0] == packets@[0]@);
        let first_type: PacketType = packets[0].header.type_field;
        match first_type {
            PacketType::Ack => Self::buffer_in_ack_packets(&mut conn_bufs.ack_buff, packets),
            PacketType::Fin | PacketType::FinAck => Self::buffer_in_close_packets(
                packets,
                &mut conn_bufs.close_buff,
                &conn_bufs.conn_buff,
            ),
            _ => {
                if conn_bufs.close_buff.peer_fin_observed() {
                    packets.clear();
                    return Buffered {
                        result: Ok(()),
                        wake: None,
                        notify_closer: false,
                        fin_ack: None,
                        events: Vec::new(),
                    };
                }
                Self::buffer_in_data_packets(&mut conn_bufs.conn_buff, packets)
            },
        }
    }

    /// Reads a datagram and puts its packets into the buffers of the connection.
    /// `packets` is overwritten. Nothing is buffered of a datagram that is not a
    /// stream of packets, nor of one that has other packets after one of the close
    /// exchange.
    pub fn receive(
        bytes: &[u8],
        packets: &mut Vec<BluefinPacket>,
        conn_bufs: &mut ConnectionManagedBuffers,
    ) -> (received: Received)
        requires
            old(conn_bufs).conn_buff.valid(),
        ensures
            final(conn_bufs).conn_buff.valid(),
            match received {
                Received::NotPackets => {
                    &&& scan_datagram(bytes@).1 is Some
                    &&& final(conn_bufs)@ == old(conn_bufs)@
                },
                Received::Mixed => {
                    &&& scan_datagram(bytes@).1 is None
                    &&& !uniform(scan_datagram(bytes@).0)
                    &&& final(conn_bufs)@ == old(conn_bufs)@
                },
                Received::Buffered(buffered) => {
                    &&& scan_datagram(bytes@).1 is None
                    &&& uniform(scan_datagram(bytes@).0)
                    &&& buffered_in(
                        old(conn_bufs)@,
                        scan_datagram(bytes@).0,
                        final(conn_bufs)@,
                        buffered,
                    )
                },
            },
    {
        packets.clear();
        if BluefinPacket::from_bytes_into(bytes, packets).is_err() {
            return Received::NotPackets;
        }
        proof {
            assert(packet_views(Seq::<BluefinPacket>::empty()) =~= Seq::empty());
            assert(packet_views(packets@) =~= scan_datagram(bytes@).0);
            law_read_packets_are_well_formed(bytes@);
            assert forall|i: int| 0 <= i < packets@.len() implies (
            #[trigger] packets@[i])@.payload.len() <= u16::MAX by {
                assert(packet_views(packets@)[i] == packets@[i]@);
            }
        }
        if !Self::is_uniform(packets) {
            return Received::Mixed;
        }
        Received::Buffered(Self::buffer_in_packets(packets, conn_bufs))
    }

    /// All packets are of the close exchange, if the first one is.
    pub fn is_uniform(packets: &Vec<BluefinPacket>) -> (answer: bool)
        ensures
            answer == uniform(packet_views(packets@)),
    {
        assert(packets@.len() > 0 ==> packet_views(packets@)[0] == packets@[0]@);
        let total: usize = packets.len();
        if total == 0 {
            return true;
        }
        let first: PacketType = packets[0].header.type_field;
        if first != PacketType::Fin && first != PacketType::FinAck {
            return true;
        }
        let mut i: usize = 0;
        while i < total
            invariant
                i <= total,
                total == packets@.len(),
                forall|j: int| 0 <= j < i ==> is_close_packet((#[trigger] packets@[j])@),
                packets@.len() > 0 && is_close_packet(packets@[0]@),
            decreases total - i,
        {
            let kind: PacketType = packets[i].header.type_field;
            if kind != PacketType::Fin && kind != PacketType::FinAck {
                assert(!is_close_packet(packet_views(packets@)[i as int]));
                return false;
            }
            i = i + 1;
        }
        assert forall|j: int| 0 <= j < packets@.len() implies is_close_packet(
            #[trigger] packet_views(packets@)[j],
        ) by {
            assert(is_close_packet(packets@[j]@));
        }
        true
    }
}

/// The first `Fin` of the peer is answered with its own number, and lets the
/// reader find the end of the stream.
pub proof fn law_first_fin_is_answered(close: CloseBufferModel, packet: PacketView)
    requires
        close.fsm.fin_event(packet.header.packet_number) is PeerFinObserved,
        is_fin(packet),
    ensures
        after_close(close, seq![packet]).fsm.owed == Some(packet.header.packet_number),
        after_close(close, seq![packet]).peer_fin_observed,
{
    reveal_with_fuel(after_close, 2);
    assert(seq![packet].drop_last() =~= Seq::empty());
}

/// That the peer has closed its end is not forgotten, whatever comes after it.
pub proof fn law_peer_fin_is_remembered(close: CloseBufferModel, packets: Seq<PacketView>)
    requires
        close.peer_fin_observed,
    ensures
        after_close(close, packets).peer_fin_observed,
    decreases packets.len(),
{
    if packets.len() > 0 {
        law_peer_fin_is_remembered(close, packets.drop_last());
    }
}

/// The buffers of a connection after the packets of a datagram came. Data that comes
/// after the peer's `Fin` is dropped: what the peer sent ends with what was buffered
/// when its `Fin` came.
pub open spec fn managed_after(before: ManagedModel, packets: Seq<PacketView>) -> ManagedModel {
    if packets.len() == 0 {
        before
    } else if packets[0].header.type_field == PacketType::Ack {
        ManagedModel { acks: after_acks(before.acks, packets), ..before }
    } else if is_close_packet(packets[0]) {
        let close = after_close(before.close, packets);
        ManagedModel {
            close: if has_fin(packets) {
                CloseBufferModel { fsm: close.fsm.on_taken(), ..close }
            } else {
                close
            },
            ..before
        }
    } else if before.close.peer_fin_observed {
        before
    } else {
        ManagedModel { conn: after_data(before.conn, packets), ..before }
    }
}

/// What becomes of the packets of a datagram.
pub open spec fn buffered_in(
    before: ManagedModel,
    packets: Seq<PacketView>,
    after: ManagedModel,
    buffered: Buffered,
) -> bool {
    &&& after == managed_after(before, packets)
    &&& if packets.len() == 0 {
        &&& buffered.result == Ok::<(), BluefinError>(())
        &&& buffered.wake is None
        &&& !buffered.notify_closer
        &&& buffered.fin_ack is None
        &&& buffered.events@.len() == 0
    } else if packets[0].header.type_field == PacketType::Ack {
        &&& answers(buffered.result, woken_or(before.acks.waker, acks_error(packets)))
        &&& buffered.wake == before.acks.waker
        &&& !buffered.notify_closer
        &&& buffered.fin_ack is None
        &&& buffered.events@ == ack_events(packets)
    } else if is_close_packet(packets[0]) {
        &&& buffered.result == Ok::<(), BluefinError>(())
        &&& buffered.wake == if has_fin(packets) {
            before.conn.waker
        } else {
            None
        }
        &&& buffered.notify_closer == has_fin_ack(packets)
        &&& buffered.fin_ack == if has_fin(packets) {
            after_close(before.close, packets).fsm.owed
        } else {
            None
        }
        &&& buffered.events@ == close_events(packets)
    } else if before.close.peer_fin_observed {
        &&& buffered.result == Ok::<(), BluefinError>(())
        &&& buffered.wake is None
        &&& !buffered.notify_closer
        &&& buffered.fin_ack is None
        &&& buffered.events@.len() == 0
    } else {
        &&& answers(
            buffered.result,
            woken_or(before.conn.waker, data_error(before.conn, packets)),
        )
        &&& buffered.wake == before.conn.waker
        &&& !buffered.notify_closer
        &&& buffered.fin_ack is None
        &&& buffered.events@.len() == 0
    }
}

} // verus!

//! How two hosts close a connection with each other.
use vstd::prelude::*;

use crate::connection::close::{CloseEvent, CloseModel, CloseState};
use crate::context::BluefinHost;
use crate::endpoint::EndpointModel;
use crate::error::ErrorView;
use crate::net::close_handler::CloseBufferModel;
use crate::net::connection::ManagedModel;
use crate::net::delivery::{flat, law_batch_numbers_come_before_the_next};
use crate::net::established::{
    BluefinConnectionModel, CloseDriverModel, closed, locally_closed,
};
use crate::net::law_bare_datagram_is_readable;
use crate::net::opening::{after_handshake, law_packets_are_routed};
use crate::wire::header::PacketType;
use crate::wire::packet::{PacketView, scan_datagram};
use crate::worker::arrival::{law_fin_ack_is_known, law_fin_is_answered};
use crate::worker::conn_reader::{Buffered, buffered_in};
use crate::worker::handle::WriterModel;
use crate::worker::pump::{DATAGRAMS_PER_BATCH, DataPumpModel, batch_packets};
use crate::worker::reader::route_of;

verus! {

/// The whole close, whatever the number of our `Fin` is and whatever came before. The
/// peer reads our `Fin` as it was sent and owes an answer with its number, be it for
/// the first time or because the answer was lost; we read the answer as it was sent,
/// and find our `Fin` answered; the connection is then closed. The peer's reader finds
/// the end of the stream.
pub proof fn law_close_is_answered(
    driver: CloseDriverModel,
    ours: ManagedModel,
    theirs: ManagedModel,
    writer: WriterModel,
    ours_after: ManagedModel,
    theirs_after: ManagedModel,
    at_us: Buffered,
    at_them: Buffered,
)
    requires
        !(theirs.close.fsm.state is Closed),
        theirs.close.fsm.peer_fin is None || (theirs.close.fsm.peer_fin == Some(
            driver.fin_packet_num,
        ) && theirs.close.peer_fin_observed),
        buffered_in(theirs, scan_datagram(driver.fin().wire()).0, theirs_after, at_them),
        buffered_in(
            ours,
            scan_datagram(writer.fin_ack(driver.fin_packet_num).wire()).0,
            ours_after,
            at_us,
        ),
    ensures
        scan_datagram(driver.fin().wire()).1 == None::<ErrorView>,
        scan_datagram(writer.fin_ack(driver.fin_packet_num).wire()).1 == None::<ErrorView>,
        at_them.fin_ack == Some(driver.fin_packet_num),
        at_them.wake == theirs.conn.waker,
        theirs_after.close.peer_fin_observed,
        at_us.notify_closer,
        driver.answered(ours_after.close),
        closed(ours_after.close).fsm.state is Closed,
{
    let fin = driver.fin();
    let fin_ack = writer.fin_ack(driver.fin_packet_num);
    fin.header.lemma_wire_len();
    fin_ack.header.lemma_wire_len();
    law_bare_datagram_is_readable(
        driver.src_conn_id,
        driver.dst_conn_id,
        driver.fin_packet_num,
        PacketType::Fin,
    );
    law_bare_datagram_is_readable(
        writer.src_conn_id,
        writer.dst_conn_id,
        driver.fin_packet_num,
        PacketType::FinAck,
    );
    law_fin_is_answered(theirs, fin, theirs_after, at_them);
    law_fin_ack_is_known(ours, fin_ack, ours_after, at_us);
}

/// A `FinAck` with another number than that of our `Fin` does not answer it.
pub proof fn law_other_fin_ack_is_no_answer(
    driver: CloseDriverModel,
    close: CloseBufferModel,
    other: u64,
)
    ensures
        driver.answered(close.on_fin_ack(other)) <==> other == driver.fin_packet_num,
        !driver.answered(CloseBufferModel::fresh()),
{
}

/// A `Fin` gets the number after those of all data packets that were made before it,
/// and goes from and to where the data went.
pub proof fn law_fin_comes_after_the_data(
    connection: BluefinConnectionModel,
    pump: DataPumpModel,
    i: int,
)
    requires
        pump.next_packet_num + batch_packets(pump.queued, DATAGRAMS_PER_BATCH as nat) <= u64::MAX,
        0 <= i < flat(pump.next_batch()).len(),
    ensures
        ({
            let driver = CloseDriverModel::begun(connection, pump.on_batch());
            &&& flat(pump.next_batch())[i].header.packet_number < driver.fin_packet_num
            &&& i == flat(pump.next_batch()).len() - 1 ==> flat(
                pump.next_batch(),
            )[i].header.packet_number + 1 == driver.fin_packet_num
            &&& driver.fin().header.packet_number == driver.fin_packet_num
            &&& driver.fin().header.source_connection_id == connection.src_conn_id
            &&& driver.fin().header.destination_connection_id == connection.dst_conn_id
            &&& driver.attempts == 0
        }),
{
    law_batch_numbers_come_before_the_next(
        pump.queued,
        pump.next_packet_num,
        pump.src_conn_id,
        pump.dst_conn_id,
        DATAGRAMS_PER_BATCH as nat,
        i,
    );
}

/// A `Fin` of the peer is observed with its number, unless one was observed already or
/// the connection is closed: then it is told of, and an answer with its number is owed
/// until it is taken.
pub proof fn law_first_fin_is_observed(model: CloseModel, pn: u64)
    requires
        model.peer_fin is None,
        !(model.state is Closed),
    ensures
        model.fin_event(pn) == (CloseEvent::PeerFinObserved { fin_packet_num: pn }),
        model.on_fin(pn).state == (CloseState::PeerFinReceived { fin_packet_num: pn }),
        model.on_fin(pn).owed == Some(pn),
        model.on_fin(pn).peer_fin == Some(pn),
        model.on_fin(pn).acked == model.acked,
        model.on_fin(pn).on_taken().owed is None,
        model.on_fin(pn).on_taken().state == model.on_fin(pn).state,
{
}

/// Our own `Fin` is recorded with its number, as long as we have not sent one; it
/// changes nothing of what we know of the peer's.
pub proof fn law_local_fin_is_recorded(model: CloseModel, pn: u64)
    requires
        model.state is Active || model.state is PeerFinReceived,
    ensures
        model.on_local_fin(pn).state == (CloseState::LocalFinSent { fin_packet_num: pn }),
        model.on_local_fin(pn).owed == model.owed,
        model.on_local_fin(pn).acked == model.acked,
        model.on_local_fin(pn).peer_fin == model.peer_fin,
        model.on_local_fin(pn).on_closed().state is Closed,
        model.on_local_fin(pn).on_closed().acked == model.acked,
{
}

/// A `FinAck` tells its number, and nothing else: neither the state nor what we owe
/// changes.
pub proof fn law_fin_ack_tells_its_number(model: CloseModel, pn: u64)
    ensures
        model.on_fin_ack(pn).acked == Some(pn),
        model.on_fin_ack(pn).state == model.state,
        model.on_fin_ack(pn).owed == model.owed,
        model.on_fin_ack(pn).peer_fin == model.peer_fin,
        model.on_taken().acked == model.acked,
        model.on_taken().owed is None,
        CloseModel::fresh().state is Active,
        CloseModel::fresh().owed is None,
        CloseModel::fresh().acked is None,
{
}

/// The close begins with the number that the `Fin` gets: it is recorded as ours, the
/// peer's side is left alone, and the number is not used again.
pub proof fn law_close_begins_with_its_number(
    connection: BluefinConnectionModel,
    pump: DataPumpModel,
    close: CloseBufferModel,
)
    requires
        pump.next_packet_num < u64::MAX,
        close.fsm.state is Active || close.fsm.state is PeerFinReceived,
    ensures
        ({
            let driver = CloseDriverModel::begun(connection, pump);
            let begun = locally_closed(close, driver);
            &&& begun.fsm.state == (CloseState::LocalFinSent {
                fin_packet_num: driver.fin_packet_num,
            })
            &&& begun.fsm.peer_fin == close.fsm.peer_fin
            &&& begun.fsm.owed == close.fsm.owed
            &&& begun.peer_fin_observed == close.peer_fin_observed
            &&& driver.fin_packet_num == pump.next_packet_num
            &&& pump.on_reserved().next_packet_num > driver.fin_packet_num
        }),
{
}

/// Once a connection is closed, nothing that the peer sends comes to it any more, and
/// what is for another connection comes there as before.
pub proof fn law_closed_connection_is_not_routed_to(
    driver: CloseDriverModel,
    host_type: BluefinHost,
    endpoint: EndpointModel,
    connections: Map<(u32, u32), u64>,
    packets: Seq<PacketView>,
)
    requires
        packets.len() > 0,
        after_handshake(packets[0]),
    ensures
        ({
            let header = packets[0].header;
            let ours = header.destination_connection_id == driver.src_conn_id
                && header.source_connection_id == driver.dst_conn_id;
            let route = route_of(
                host_type,
                endpoint,
                driver.without_it(connections),
                packets,
            );
            &&& ours ==> route is None
            &&& !ours ==> route == route_of(host_type, endpoint, connections, packets)
        }),
{
    law_packets_are_routed(host_type, endpoint, connections, packets);
    law_packets_are_routed(host_type, endpoint, driver.without_it(connections), packets);
}

} // verus!

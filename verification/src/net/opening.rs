//! How two hosts open a connection with each other, from the first hello on.
use vstd::prelude::*;

use crate::addr::SocketAddr;
use crate::context::BluefinHost;
use crate::endpoint::{EndpointModel, HelloOutcome, spec_is_client_ack, spec_is_hello};
use crate::error::ErrorView;
use crate::net::client::{
    ClientModel, Established, client_ack, client_buffers, client_established, client_hello,
};
use crate::net::established::{BluefinConnectionModel, CloseDriverModel};
use crate::net::handshake_ids::HandshakeIds;
use crate::net::law_bare_datagram_is_readable;
use crate::net::server::{
    ServerModel, acknowledges, server_buffers, server_established, server_hello,
};
use crate::wire::header::PacketType;
use crate::wire::packet::{PacketView, scan};
use crate::worker::ack::{AckData, ack_packets};
use crate::worker::handle::WriterModel;
use crate::worker::packing::{data_packets, packets_in};
use crate::worker::reader::{Route, buffers_after, endpoint_after, of_handshake, route_of};

verus! {

/// Every hello that a client sends is one for the pack leader, and is none for another
/// host. It tells the client's id and number, and no id of the server.
pub proof fn law_client_hello_is_a_hello(ids: HandshakeIds)
    ensures
        spec_is_hello(BluefinHost::PackLeader, client_hello(ids)) <==> ids.src_conn_id != 0,
        !spec_is_hello(BluefinHost::Client, client_hello(ids)),
        !spec_is_hello(BluefinHost::PackFollower, client_hello(ids)),
        !spec_is_client_ack(BluefinHost::PackLeader, client_hello(ids)),
        client_hello(ids).header.source_connection_id == ids.src_conn_id,
        client_hello(ids).header.destination_connection_id == 0,
        client_hello(ids).header.packet_number == ids.packet_number,
        client_hello(ids).header.type_field == PacketType::UnencryptedClientHello,
{
}

/// Every hello with which a server answers is one for the client, and is none for
/// another host. It tells both ids, and the server's number.
pub proof fn law_server_hello_is_a_hello(ids: HandshakeIds, dst_conn_id: u32)
    ensures
        spec_is_hello(BluefinHost::Client, server_hello(ids, dst_conn_id)) <==> ids.src_conn_id
            != 0 && dst_conn_id != 0,
        !spec_is_hello(BluefinHost::PackLeader, server_hello(ids, dst_conn_id)),
        !spec_is_hello(BluefinHost::PackFollower, server_hello(ids, dst_conn_id)),
        server_hello(ids, dst_conn_id).header.source_connection_id == ids.src_conn_id,
        server_hello(ids, dst_conn_id).header.destination_connection_id == dst_conn_id,
        server_hello(ids, dst_conn_id).header.packet_number == ids.packet_number,
        server_hello(ids, dst_conn_id).header.type_field == PacketType::UnencryptedServerHello,
{
}

/// Every ack with which a client ends the handshake is one for the pack leader, and for
/// no other host, and it is no hello.
pub proof fn law_client_ack_is_one(ids: HandshakeIds, dst_conn_id: u32, host_type: BluefinHost)
    requires
        ids.leaves(1),
    ensures
        spec_is_client_ack(host_type, client_ack(ids, dst_conn_id)) <==> host_type
            == BluefinHost::PackLeader && ids.src_conn_id != 0 && dst_conn_id != 0,
        !spec_is_hello(host_type, client_ack(ids, dst_conn_id)),
        client_ack(ids, dst_conn_id).header.source_connection_id == ids.src_conn_id,
        client_ack(ids, dst_conn_id).header.destination_connection_id == dst_conn_id,
        client_ack(ids, dst_conn_id).header.packet_number == ids.packet_number + 1,
        client_ack(ids, dst_conn_id).header.type_field == PacketType::ClientAck,
{
}

/// The packet is not of the handshake.
pub open spec fn after_handshake(packet: PacketView) -> bool {
    ||| packet.header.type_field == PacketType::UnencryptedData
    ||| packet.header.type_field == PacketType::Ack
    ||| packet.header.type_field == PacketType::Fin
    ||| packet.header.type_field == PacketType::FinAck
}

/// Data, acks and the packets of the close are never taken for packets of the
/// handshake.
pub proof fn law_other_packets_are_no_handshake(host_type: BluefinHost, packet: PacketView)
    requires
        after_handshake(packet),
    ensures
        !spec_is_hello(host_type, packet),
        !spec_is_client_ack(host_type, packet),
        !of_handshake(false, host_type, packet),
{
}

/// The hello of a client goes to the slot that waits longest. Where none waits it is
/// queued behind the others, with the address that it came from, and where 64 are
/// queued already it is dropped.
pub proof fn law_client_hello_is_served(
    endpoint: EndpointModel,
    ids: HandshakeIds,
    addr: SocketAddr,
)
    requires
        endpoint.host_type == BluefinHost::PackLeader,
        ids.src_conn_id != 0,
    ensures
        ({
            let hello = client_hello(ids);
            let after = endpoint.on_packet(hello, addr);
            &&& after.host_type == endpoint.host_type
            &&& if endpoint.slots.len() > 0 {
                &&& endpoint.outcome(hello) == (HelloOutcome::Routed { our_id: endpoint.slots[0] })
                &&& seq![endpoint.slots[0]] + after.slots == endpoint.slots
                &&& after.hellos == endpoint.hellos
            } else if endpoint.hellos.len() < 64 {
                &&& endpoint.outcome(hello) == HelloOutcome::Queued
                &&& after.hellos == endpoint.hellos + seq![(hello, addr)]
                &&& after.slots == endpoint.slots
            } else {
                &&& endpoint.outcome(hello) == HelloOutcome::Dropped
                &&& after == endpoint
            }
        }),
{
    let after = endpoint.on_packet(client_hello(ids), addr);
    if endpoint.slots.len() > 0 {
        assert(seq![endpoint.slots[0]] + after.slots =~= endpoint.slots);
    } else if endpoint.hellos.len() < 64 {
        assert(after.hellos =~= endpoint.hellos + seq![(client_hello(ids), addr)]);
    }
}

/// A packet that is no hello changes nothing of an endpoint.
pub proof fn law_other_packets_leave_the_endpoint(
    endpoint: EndpointModel,
    packet: PacketView,
    addr: SocketAddr,
)
    requires
        after_handshake(packet) || packet.header.type_field == PacketType::ClientAck,
    ensures
        endpoint.outcome(packet) == HelloOutcome::NotHello,
        endpoint.on_packet(packet, addr) == endpoint,
{
}

/// The endpoint after hellos came, one after the other.
pub open spec fn on_hellos(
    endpoint: EndpointModel,
    clients: Seq<HandshakeIds>,
    addr: SocketAddr,
) -> EndpointModel
    decreases clients.len(),
{
    if clients.len() == 0 {
        endpoint
    } else {
        on_hellos(endpoint, clients.drop_last(), addr).on_packet(
            client_hello(clients.last()),
            addr,
        )
    }
}

proof fn lemma_accepts(endpoint: EndpointModel, ids: Seq<u32>)
    requires
        endpoint.hellos.len() == 0,
    ensures
        endpoint.on_accepts(ids) == (EndpointModel { slots: endpoint.slots + ids, ..endpoint }),
    decreases ids.len(),
{
    if ids.len() == 0 {
        assert(endpoint.slots + ids =~= endpoint.slots);
    } else {
        lemma_accepts(endpoint, ids.drop_last());
        assert((endpoint.slots + ids.drop_last()).push(ids.last()) =~= endpoint.slots + ids);
    }
}

proof fn lemma_hellos(endpoint: EndpointModel, clients: Seq<HandshakeIds>, addr: SocketAddr)
    requires
        endpoint.host_type == BluefinHost::PackLeader,
        clients.len() <= endpoint.slots.len(),
        forall|i: int| 0 <= i < clients.len() ==> (#[trigger] clients[i]).src_conn_id != 0,
    ensures
        on_hellos(endpoint, clients, addr) == (EndpointModel {
            slots: endpoint.slots.skip(clients.len() as int),
            ..endpoint
        }),
    decreases clients.len(),
{
    if clients.len() == 0 {
        assert(endpoint.slots.skip(0) =~= endpoint.slots);
    } else {
        let fewer = clients.drop_last();
        assert forall|i: int| 0 <= i < fewer.len() implies (
        #[trigger] fewer[i]).src_conn_id != 0 by {
            assert(fewer[i] == clients[i]);
        }
        lemma_hellos(endpoint, fewer, addr);
        assert(clients[clients.len() - 1] == clients.last());
        assert(endpoint.slots.skip(clients.len() - 1).skip(1) =~= endpoint.slots.skip(
            clients.len() as int,
        ));
    }
}

/// Calls of `accept()` are served in their order: of any number of calls that wait, the
/// first gets the first hello that comes, the second the second, and so on.
pub proof fn law_accepts_are_served_in_order(
    ids: Seq<u32>,
    clients: Seq<HandshakeIds>,
    next: HandshakeIds,
    addr: SocketAddr,
)
    requires
        clients.len() < ids.len(),
        forall|i: int| 0 <= i < clients.len() ==> (#[trigger] clients[i]).src_conn_id != 0,
        next.src_conn_id != 0,
    ensures
        ({
            let waiting = EndpointModel::fresh(BluefinHost::PackLeader).on_accepts(ids);
            on_hellos(waiting, clients, addr).outcome(client_hello(next)) == (
            HelloOutcome::Routed { our_id: ids[clients.len() as int] })
        }),
{
    let fresh = EndpointModel::fresh(BluefinHost::PackLeader);
    lemma_accepts(fresh, ids);
    assert(fresh.slots + ids =~= ids);
    lemma_hellos(fresh.on_accepts(ids), clients, addr);
}

/// The hello of a client comes to the connection that the server keeps for the call of
/// `accept()` that waits longest.
pub proof fn law_client_hello_is_routed(
    endpoint: EndpointModel,
    connections: Map<(u32, u32), u64>,
    ids: HandshakeIds,
)
    requires
        endpoint.host_type == BluefinHost::PackLeader,
        endpoint.slots.len() > 0,
        ids.src_conn_id != 0,
    ensures
        ({
            let route = route_of(
                BluefinHost::PackLeader,
                endpoint,
                connections,
                seq![client_hello(ids)],
            );
            if connections.contains_key((endpoint.slots[0], 0u32)) {
                route == Some(
                    Route { handle: connections[(endpoint.slots[0], 0u32)], is_hello: true },
                )
            } else {
                route is None
            }
        }),
{
    assert(seq![client_hello(ids)][0] == client_hello(ids));
}

/// The hello with which a server answers comes to the connection that the client keeps
/// under the id with which it asked.
pub proof fn law_server_hello_is_routed(
    endpoint: EndpointModel,
    connections: Map<(u32, u32), u64>,
    client: HandshakeIds,
    server: HandshakeIds,
)
    requires
        endpoint.host_type == BluefinHost::Client,
        client.src_conn_id != 0,
        server.src_conn_id != 0,
    ensures
        ({
            let answer = server_hello(server, client_hello(client).header.source_connection_id);
            let route = route_of(BluefinHost::Client, endpoint, connections, seq![answer]);
            if connections.contains_key((client.src_conn_id, 0u32)) {
                route == Some(
                    Route { handle: connections[(client.src_conn_id, 0u32)], is_hello: true },
                )
            } else {
                route is None
            }
        }),
{
    let answer = server_hello(server, client_hello(client).header.source_connection_id);
    assert(seq![answer][0] == answer);
}

/// A datagram after the hellos comes to the connection that is kept under the two ids
/// in its first packet, the receiver's first, and to none where there is no such
/// connection.
pub proof fn law_packets_are_routed(
    host_type: BluefinHost,
    endpoint: EndpointModel,
    connections: Map<(u32, u32), u64>,
    packets: Seq<PacketView>,
)
    requires
        packets.len() > 0,
        after_handshake(packets[0]) || packets[0].header.type_field == PacketType::ClientAck,
    ensures
        ({
            let header = packets[0].header;
            let key = (header.destination_connection_id, header.source_connection_id);
            let route = route_of(host_type, endpoint, connections, packets);
            if connections.contains_key(key) {
                route == Some(Route { handle: connections[key], is_hello: false })
            } else {
                route is None
            }
        }),
{
}

/// All that one end of a connection sends, data, acks and the packets of the close,
/// comes at the other end to the connection whose ids are the same two, the other way
/// round.
pub proof fn law_sent_packets_find_their_connection(
    established: Established,
    channels: (nat, nat),
    host_type: BluefinHost,
    endpoint: EndpointModel,
    connections: Map<(u32, u32), u64>,
    stream: Seq<u8>,
    first: u64,
    acks: Seq<AckData>,
    number: u64,
)
    requires
        connections.contains_key((established.dst_conn_id, established.src_conn_id)),
    ensures
        ({
            let src = established.src_conn_id;
            let dst = established.dst_conn_id;
            let route = Some(Route { handle: connections[(dst, src)], is_hello: false });
            let connection = BluefinConnectionModel::opened(established, channels.0, channels.1);
            let writer = connection.writer;
            let fin = (CloseDriverModel {
                src_conn_id: connection.src_conn_id,
                dst_conn_id: connection.dst_conn_id,
                fin_packet_num: number,
                attempts: 0,
            }).fin();
            let data = data_packets(stream, first, writer.src_conn_id, writer.dst_conn_id);
            let acked = ack_packets(acks, writer.src_conn_id, writer.dst_conn_id);
            &&& stream.len() > 0 ==> route_of(host_type, endpoint, connections, data) == route
            &&& acks.len() > 0 ==> route_of(host_type, endpoint, connections, acked) == route
            &&& route_of(host_type, endpoint, connections, seq![fin]) == route
            &&& route_of(host_type, endpoint, connections, seq![writer.fin_ack(number)]) == route
        }),
{
    let src = established.src_conn_id;
    let dst = established.dst_conn_id;
    let fin = (CloseDriverModel {
        src_conn_id: src,
        dst_conn_id: dst,
        fin_packet_num: number,
        attempts: 0,
    }).fin();
    let fin_ack = WriterModel::fresh(first, src, dst).fin_ack(number);
    let data = data_packets(stream, first, src, dst);
    let acked = ack_packets(acks, src, dst);
    if stream.len() > 0 {
        assert(packets_in(stream.len()) > 0);
        assert(data[0].header.type_field == PacketType::UnencryptedData);
        law_packets_are_routed(host_type, endpoint, connections, data);
    }
    if acks.len() > 0 {
        assert(acked[0].header.type_field == PacketType::Ack);
        law_packets_are_routed(host_type, endpoint, connections, acked);
    }
    assert(seq![fin][0] == fin);
    assert(seq![fin_ack][0] == fin_ack);
    law_packets_are_routed(host_type, endpoint, connections, seq![fin]);
    law_packets_are_routed(host_type, endpoint, connections, seq![fin_ack]);
}

/// Once the client has asked for a connection, the hello of a server opens it: the
/// connection is then kept under both ids, no longer under the client's alone, and no
/// other connection is touched. A hello with the number zero, or one that nobody asked
/// for, is refused.
pub proof fn law_client_registers_the_connection(
    client: ClientModel,
    ids: HandshakeIds,
    handle: u64,
    hello: PacketView,
    other: (u32, u32),
)
    requires
        hello.header.source_connection_id != 0,
    ensures
        ({
            let asked = (ids.src_conn_id, 0u32);
            let opened = (ids.src_conn_id, hello.header.source_connection_id);
            let after = client.connections_after_hello(ids, handle, hello);
            &&& client.hello_refusal(ids, hello) is None <==> hello.header.packet_number != 0
                && client.connections.contains_key(asked) && !client.connections.contains_key(
                opened,
            )
            &&& hello.header.packet_number == 0 ==> client.hello_refusal(ids, hello) == Some(
                ErrorView::UnexpectedPacketNumberError,
            ) && after == client.connections
            &&& client.hello_refusal(ids, hello) is None ==> {
                &&& after.contains_key(opened) && after[opened] == handle
                &&& !after.contains_key(asked)
            }
            &&& other != asked && other != opened ==> {
                &&& after.contains_key(other) == client.connections.contains_key(other)
                &&& after.contains_key(other) ==> after[other] == client.connections[other]
            }
        }),
{
}

/// The hello of a client opens a connection at the server: it is then kept under both
/// ids, no longer under the server's alone, and no other connection is touched. A hello
/// with the number zero is refused, and changes nothing.
pub proof fn law_server_registers_the_connection(
    server: ServerModel,
    ids: HandshakeIds,
    handle: u64,
    hello: PacketView,
    other: (u32, u32),
)
    requires
        hello.header.source_connection_id != 0,
    ensures
        ({
            let accepting = (ids.src_conn_id, 0u32);
            let opened = (ids.src_conn_id, hello.header.source_connection_id);
            let after = server.connections_after_hello(ids, handle, hello);
            &&& ServerModel::hello_refusal(hello) is None <==> hello.header.packet_number != 0
            &&& hello.header.packet_number == 0 ==> after == server.connections
            &&& hello.header.packet_number != 0 ==> {
                &&& after.contains_key(opened) && after[opened] == handle
                &&& !after.contains_key(accepting)
            }
            &&& other != accepting && other != opened ==> {
                &&& after.contains_key(other) == server.connections.contains_key(other)
                &&& after.contains_key(other) ==> after[other] == server.connections[other]
            }
        }),
{
}

/// The whole handshake. Whatever ids and numbers the two hosts have drawn: each packet
/// is read by the other host as it was sent, is taken for what it is and is handed over
/// with the address that it came from; the server takes the client's ack; and then each
/// end knows the other under its id, expects as the first data packet the number with
/// which the other will send it, and as the first acknowledged one the number with which
/// it will send its own.
pub proof fn law_handshake_opens_a_connection(
    client: HandshakeIds,
    server: HandshakeIds,
    client_addr: SocketAddr,
    server_addr: SocketAddr,
)
    requires
        client.leaves(2),
        server.leaves(1),
        client.src_conn_id != 0,
        server.src_conn_id != 0,
    ensures
        ({
            let hello = client_hello(client);
            let heard = buffers_after(
                server_buffers(server),
                scan(hello.wire()).0[0],
                client_addr,
                true,
                BluefinHost::PackLeader,
            );
            let answer = server_hello(server, heard.conn.packet->0.header.source_connection_id);
            let answered = buffers_after(
                client_buffers(client),
                scan(answer.wire()).0[0],
                server_addr,
                true,
                BluefinHost::Client,
            );
            let ack = client_ack(client, answered.conn.packet->0.header.source_connection_id);
            let acked = scan(ack.wire()).0[0];
            let at_client = client_established(client, answered.conn.packet->0);
            let at_server = server_established(server, heard.conn.packet->0);
            &&& heard.conn.handshake_ready() == Some((hello, client_addr))
            &&& answered.conn.handshake_ready() == Some((answer, server_addr))
            &&& acked == ack
            &&& acknowledges(acked, heard.conn.packet->0)
            &&& at_client.src_conn_id == client.src_conn_id
            &&& at_client.dst_conn_id == server.src_conn_id
            &&& at_server.src_conn_id == server.src_conn_id
            &&& at_server.dst_conn_id == client.src_conn_id
            &&& heard.conn.ordered.next == at_client.next_send_packet_num
            &&& answered.conn.ordered.next == at_server.next_send_packet_num
            &&& heard.acks.next_expected == at_server.next_send_packet_num
            &&& answered.acks.next_expected == at_client.next_send_packet_num
            &&& at_client.next_send_packet_num == client.packet_number + 2
            &&& at_server.next_send_packet_num == server.packet_number + 1
            &&& !heard.close.peer_fin_observed && !answered.close.peer_fin_observed
            &&& !heard.conn.ordered.readable() && !answered.conn.ordered.readable()
        }),
{
    law_bare_datagram_is_readable(
        client.src_conn_id,
        0,
        client.packet_number,
        PacketType::UnencryptedClientHello,
    );
    law_bare_datagram_is_readable(
        server.src_conn_id,
        client.src_conn_id,
        server.packet_number,
        PacketType::UnencryptedServerHello,
    );
    law_bare_datagram_is_readable(
        client.src_conn_id,
        server.src_conn_id,
        (client.packet_number + 1) as u64,
        PacketType::ClientAck,
    );
}

/// Only the number after that of the hello ends the handshake at the server.
pub proof fn law_only_the_next_number_acknowledges(ack: PacketView, hello: PacketView)
    ensures
        acknowledges(ack, hello) <==> ack.header.packet_number - hello.header.packet_number == 1,
{
}

/// A connection that was opened sends under its own id to that of the peer, from the
/// agreed number on, and takes data at once.
pub proof fn law_opened_connection_takes_data(
    client: HandshakeIds,
    answer: PacketView,
    data_channel: nat,
    ack_channel: nat,
)
    requires
        client.leaves(2),
    ensures
        ({
            let connection = BluefinConnectionModel::opened(
                client_established(client, answer),
                data_channel,
                ack_channel,
            );
            &&& connection.writer.send_refusal() is None
            &&& connection.writer.next_packet_num == client.packet_number + 2
            &&& connection.writer.src_conn_id == client.src_conn_id
            &&& connection.writer.dst_conn_id == answer.header.source_connection_id
            &&& connection.src_conn_id == client.src_conn_id
            &&& connection.dst_conn_id == answer.header.source_connection_id
            &&& connection.writer.data_channel == Some(data_channel)
            &&& connection.writer.ack_channel == Some(ack_channel)
            &&& connection.version == 0
        }),
{
}

/// A connection that a client has asked for is the one that the server's hello comes to,
/// and the hello opens it, unless there is one with both ids already.
pub proof fn law_asked_connection_is_opened(
    client: ClientModel,
    endpoint: EndpointModel,
    ids: HandshakeIds,
    server: HandshakeIds,
    handle: u64,
)
    requires
        endpoint.host_type == BluefinHost::Client,
        ids.src_conn_id != 0,
        server.src_conn_id != 0,
        server.packet_number != 0,
        !client.connections.contains_key((ids.src_conn_id, server.src_conn_id)),
    ensures
        ({
            let asked = client.on_register(ids, handle);
            let answer = server_hello(server, ids.src_conn_id);
            &&& route_of(BluefinHost::Client, endpoint, asked.connections, seq![answer]) == Some(
                Route { handle, is_hello: true },
            )
            &&& asked.hello_refusal(ids, answer) is None
            &&& asked.handshake == client.handshake
            &&& asked.src_addr == client.src_addr
        }),
{
    law_server_hello_is_routed(
        endpoint,
        client.on_register(ids, handle).connections,
        ids,
        server,
    );
}

/// A connection that a server is ready for is the one that the next client's hello comes
/// to, where no other waits.
pub proof fn law_awaited_connection_gets_the_hello(
    server: ServerModel,
    ids: HandshakeIds,
    client: HandshakeIds,
    handle: u64,
)
    requires
        server.endpoint.host_type == BluefinHost::PackLeader,
        server.endpoint.slots.len() == 0,
        server.endpoint.hellos.len() == 0,
        client.src_conn_id != 0,
    ensures
        ({
            let ready = server.on_register(ids, handle);
            &&& route_of(
                BluefinHost::PackLeader,
                ready.endpoint,
                ready.connections,
                seq![client_hello(client)],
            ) == Some(Route { handle, is_hello: true })
            &&& ready.src_addr == server.src_addr
        }),
{
    let ready = server.on_register(ids, handle);
    law_client_hello_is_routed(ready.endpoint, ready.connections, client);
}

/// Only a packet that is alone in its datagram can be a hello; any other datagram leaves
/// the endpoint as it is.
pub proof fn law_only_single_packets_reach_the_endpoint(
    endpoint: EndpointModel,
    packets: Seq<PacketView>,
    addr: SocketAddr,
    host_type: BluefinHost,
    connections: Map<(u32, u32), u64>,
)
    ensures
        packets.len() != 1 ==> endpoint_after(endpoint, packets, addr) == endpoint,
        packets.len() == 1 ==> endpoint_after(endpoint, packets, addr) == endpoint.on_packet(
            packets[0],
            addr,
        ),
        packets.len() > 1 ==> (route_of(host_type, endpoint, connections, packets) matches Some(
            route,
        ) ==> !route.is_hello),
        packets.len() == 0 ==> route_of(host_type, endpoint, connections, packets) is None,
{
}

} // verus!

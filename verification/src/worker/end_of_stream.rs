//! What is read after the peer has closed its end.
use bytes::Bytes;
use vstd::prelude::*;

use crate::addr::SocketAddr;
use crate::context::BluefinHost;
use crate::error::BluefinError;
use crate::net::connection::{ConnectionModel, ManagedModel};
use crate::net::ordered_bytes::{
    law_read_loses_no_byte, law_whole_read_loses_no_byte, lemma_ready,
};
use crate::wire::packet::PacketView;
use crate::worker::conn_reader::{law_peer_fin_is_remembered, managed_after};
use crate::worker::packing::joined;
use crate::worker::reader::{
    ReadOutcome, ReaderRxChannel, at_end_of_stream, buffers_after_all, conn_after_read,
    conn_after_whole_read, nothing_booked, read_answers, read_done, whole_read_done,
};

verus! {

/// What happens to the buffers of a connection.
pub ghost enum LinkStep {
    /// Up to so many bytes are read.
    Read(nat),
    /// Up to so many whole payloads are read.
    ReadWhole(nat),
    /// A datagram comes to the socket of the connection.
    Arrive(Seq<PacketView>),
    /// A datagram comes to the socket of the host.
    ArriveAtHost {
        packets: Seq<PacketView>,
        addr: SocketAddr,
        is_hello: bool,
        host_type: BluefinHost,
    },
}

/// The buffers of a connection and what was read from them.
#[verifier::ext_equal]
pub ghost struct Link {
    pub buffers: ManagedModel,
    pub read: Seq<u8>,
}

impl Link {
    /// Nothing was read yet.
    pub open spec fn of(buffers: ManagedModel) -> Link {
        Link { buffers, read: Seq::empty() }
    }

    pub open spec fn on_step(self, step: LinkStep) -> Link {
        let conn = self.buffers.conn;
        match step {
            LinkStep::Read(limit) => Link {
                buffers: ManagedModel { conn: conn_after_read(conn, limit as int), ..self.buffers },
                read: if conn.ordered.readable() {
                    self.read + conn.ordered.available().take(
                        conn.ordered.read_result(limit as int).bytes as int,
                    )
                } else {
                    self.read
                },
            },
            LinkStep::ReadWhole(max_packets) => Link {
                buffers: ManagedModel {
                    conn: conn_after_whole_read(conn, max_packets),
                    ..self.buffers
                },
                read: if conn.addr is Some && conn.ordered.readable() {
                    self.read + joined(conn.ordered.whole_payloads(max_packets))
                } else {
                    self.read
                },
            },
            LinkStep::Arrive(packets) => Link {
                buffers: managed_after(self.buffers, packets),
                ..self
            },
            LinkStep::ArriveAtHost { packets, addr, is_hello, host_type } => Link {
                buffers: buffers_after_all(self.buffers, packets, addr, is_hello, host_type),
                ..self
            },
        }
    }

    /// The steps happen, one after the other.
    pub open spec fn on_steps(self, steps: Seq<LinkStep>) -> Link
        decreases steps.len(),
    {
        if steps.len() == 0 {
            self
        } else {
            self.on_steps(steps.drop_last()).on_step(steps.last())
        }
    }

    /// The peer has closed its end and all that it sent was read.
    pub open spec fn at_end(self) -> bool {
        at_end_of_stream(self.buffers.conn, self.buffers.close.peer_fin_observed)
    }
}

/// A later state of buffers to which the peer's `Fin` has come, as far as datagrams
/// bring it about.
spec fn only_older(before: ManagedModel, after: ManagedModel) -> bool {
    &&& after.close.peer_fin_observed
    &&& after.conn.host_type == before.conn.host_type
    &&& before.conn.start_known ==> after.conn.start_known
    &&& before.conn.addr is Some ==> after.conn.addr == before.conn.addr
    &&& before.conn.start_known || before.conn.host_type is PackFollower ==> after.conn.ordered
        == before.conn.ordered
    &&& !before.conn.ordered.readable() ==> !after.conn.ordered.readable()
}

proof fn lemma_host_datagram(
    buffers: ManagedModel,
    packets: Seq<PacketView>,
    addr: SocketAddr,
    is_hello: bool,
    host_type: BluefinHost,
)
    requires
        buffers.close.peer_fin_observed,
    ensures
        only_older(buffers, buffers_after_all(buffers, packets, addr, is_hello, host_type)),
    decreases packets.len(),
{
    if packets.len() > 0 {
        lemma_host_datagram(buffers, packets.drop_last(), addr, is_hello, host_type);
    }
}

/// Data that comes after the peer's `Fin` brings no bytes, whichever socket it comes
/// to: no datagram changes what can be read. A packet of the handshake, which tells
/// where the data begins, changes nothing after the first one.
pub proof fn law_datagrams_after_fin_bring_no_bytes(link: Link, step: LinkStep)
    requires
        link.buffers.close.peer_fin_observed,
        link.buffers.conn.start_known || link.buffers.conn.host_type is PackFollower,
        step is Arrive || step is ArriveAtHost,
    ensures
        link.on_step(step).buffers.close.peer_fin_observed,
        link.on_step(step).buffers.conn.ordered == link.buffers.conn.ordered,
        link.on_step(step).read == link.read,
{
    lemma_step(link, step);
}

proof fn lemma_step(link: Link, step: LinkStep)
    requires
        link.buffers.close.peer_fin_observed,
    ensures
        step is Arrive || step is ArriveAtHost ==> only_older(
            link.buffers,
            link.on_step(step).buffers,
        ),
        step is Read || step is ReadWhole ==> link.on_step(step).buffers.close
            == link.buffers.close && link.on_step(step).buffers.conn == (ConnectionModel {
            ordered: link.on_step(step).buffers.conn.ordered,
            ..link.buffers.conn
        }),
{
    match step {
        LinkStep::Arrive(packets) => {
            law_peer_fin_is_remembered(link.buffers.close, packets);
        },
        LinkStep::ArriveAtHost { packets, addr, is_hello, host_type } => {
            lemma_host_datagram(link.buffers, packets, addr, is_hello, host_type);
        },
        _ => {},
    }
}

/// After the peer's `Fin` only the tail of what was already buffered is read. Whatever
/// datagrams and reads follow: what is read, and what can still be read after that, is
/// what could be read when the `Fin` had come.
pub proof fn law_only_the_tail_is_read(buffers: ManagedModel, steps: Seq<LinkStep>)
    requires
        buffers.conn.valid(),
        buffers.close.peer_fin_observed,
        buffers.conn.start_known || buffers.conn.host_type is PackFollower,
    ensures
        ({
            let now = Link::of(buffers).on_steps(steps);
            now.read + now.buffers.conn.ordered.available() == buffers.conn.ordered.available()
        }),
{
    lemma_tail(buffers, steps);
}

proof fn lemma_tail(buffers: ManagedModel, steps: Seq<LinkStep>)
    requires
        buffers.conn.valid(),
        buffers.close.peer_fin_observed,
        buffers.conn.start_known || buffers.conn.host_type is PackFollower,
    ensures
        ({
            let now = Link::of(buffers).on_steps(steps);
            &&& now.buffers.conn.valid()
            &&& now.buffers.close.peer_fin_observed
            &&& now.buffers.conn.start_known || now.buffers.conn.host_type is PackFollower
            &&& now.read + now.buffers.conn.ordered.available()
                == buffers.conn.ordered.available()
        }),
    decreases steps.len(),
{
    if steps.len() == 0 {
        assert(Seq::<u8>::empty() + buffers.conn.ordered.available()
            =~= buffers.conn.ordered.available());
    } else {
        lemma_tail(buffers, steps.drop_last());
        let before = Link::of(buffers).on_steps(steps.drop_last());
        let after = before.on_step(steps.last());
        let ordered = before.buffers.conn.ordered;
        lemma_step(before, steps.last());
        match steps.last() {
            LinkStep::Read(limit) => {
                if ordered.readable() {
                    law_read_loses_no_byte(ordered, limit as int);
                    let taken = ordered.available().take(
                        ordered.read_result(limit as int).bytes as int,
                    );
                    let left = ordered.on_read(limit as int).available();
                    assert((before.read + taken) + left =~= before.read + (taken + left));
                }
            },
            LinkStep::ReadWhole(max_packets) => {
                if ordered.readable() {
                    law_whole_read_loses_no_byte(ordered, max_packets);
                    let taken = joined(ordered.whole_payloads(max_packets));
                    let later = ordered.on_whole_read(max_packets);
                    assert((before.read + taken) + later.available() =~= before.read + (taken
                        + later.available()));
                    let count = ordered.whole_packets(max_packets) as int;
                    lemma_ready(ordered.slots, count);
                    assert forall|i: int|
                        0 <= i < later.slots.len() && later.slots[i] is Some implies (
                    #[trigger] later.slots[i])->0.len() <= u16::MAX by {
                        assert(later.slots[i] == ordered.slots[i + count]);
                    }
                    assert(later.valid());
                }
            },
            _ => {
                assert(after.buffers.conn.ordered == ordered);
            },
        }
    }
}

/// The end of the stream lasts. Once the peer has closed its end and all that it sent
/// was read, this stays so, and each read is answered at once, whatever reads and
/// datagrams follow.
pub proof fn law_end_of_stream_lasts(link: Link, steps: Seq<LinkStep>)
    requires
        link.at_end(),
    ensures
        link.on_steps(steps).at_end(),
        link.on_steps(steps).buffers.conn.addr == link.buffers.conn.addr,
        link.on_steps(steps).read == link.read,
        read_answers(
            link.on_steps(steps).buffers.conn,
            link.on_steps(steps).buffers.close.peer_fin_observed,
        ),
    decreases steps.len(),
{
    if steps.len() > 0 {
        law_end_of_stream_lasts(link, steps.drop_last());
        lemma_step(link.on_steps(steps.drop_last()), steps.last());
    }
}

/// Each read at the end of the stream, be it the first or a later one, gives no bytes:
/// it leaves the caller's buffer and the connection as they are, and nothing is
/// acknowledged.
pub proof fn law_reads_at_the_end_are_empty(
    link: Link,
    steps: Seq<LinkStep>,
    before: ReaderRxChannel,
    limit: int,
    buf: Seq<u8>,
    after: ReaderRxChannel,
    conn_left: ConnectionModel,
    buf_left: Seq<u8>,
    outcome: ReadOutcome,
)
    requires
        link.at_end(),
        read_done(
            before,
            link.on_steps(steps).buffers.conn,
            limit,
            buf,
            after,
            conn_left,
            buf_left,
            outcome,
        ),
    ensures
        outcome.result == Ok::<(u64, SocketAddr), BluefinError>((0, link.buffers.conn.addr->0)),
        buf_left == buf,
        conn_left == link.on_steps(steps).buffers.conn,
        nothing_booked(before, after, outcome),
{
    law_end_of_stream_lasts(link, steps);
}

/// Each read of whole payloads at the end of the stream, be it the first or a later
/// one, gives no payload: it leaves the caller's list and the connection as they are,
/// and nothing is acknowledged.
pub proof fn law_whole_reads_at_the_end_are_empty(
    link: Link,
    steps: Seq<LinkStep>,
    before: ReaderRxChannel,
    max_packets: nat,
    out: Seq<Bytes>,
    after: ReaderRxChannel,
    conn_left: ConnectionModel,
    out_left: Seq<Bytes>,
    outcome: ReadOutcome,
)
    requires
        link.at_end(),
        whole_read_done(
            before,
            link.on_steps(steps).buffers.conn,
            link.on_steps(steps).buffers.close.peer_fin_observed,
            max_packets,
            out,
            after,
            conn_left,
            out_left,
            outcome,
        ),
    ensures
        outcome.result == Ok::<(u64, SocketAddr), BluefinError>((0, link.buffers.conn.addr->0)),
        out_left == out,
        conn_left == link.on_steps(steps).buffers.conn,
        nothing_booked(before, after, outcome),
{
    law_end_of_stream_lasts(link, steps);
}

} // verus!

//! How a stream of bytes is cut into packets, and packets into datagrams.
use vstd::prelude::*;

use crate::error::ErrorView;
use crate::wire::Serialisable;
use crate::wire::header::{BluefinHeader, BluefinSecurityFields, PacketType, lemma_plain};
use crate::wire::packet::{PacketView, law_stream_round_trip, scan, stream_bytes};

verus! {

/// The most payload that one packet carries.
pub const MAX_BLUEFIN_PAYLOAD_SIZE_BYTES: usize = 1500;

/// The most full packets that one datagram carries.
pub const MAX_BLUEFIN_PACKETS_IN_UDP_DATAGRAM: usize = 10;

/// The most bytes that one datagram carries: ten full packets.
pub const MAX_BLUEFIN_BYTES_IN_UDP_DATAGRAM: usize = 15200;

/// The most payload that one datagram carries.
pub open spec fn datagram_payload() -> int {
    15000
}

/// The parts of a queue, one after the other.
pub open spec fn joined(parts: Seq<Seq<u8>>) -> Seq<u8>
    decreases parts.len(),
{
    if parts.len() == 0 {
        Seq::empty()
    } else {
        parts[0] + joined(parts.skip(1))
    }
}

/// What is left of a queue after its first `count` bytes were taken: parts that
/// were used up are gone, and of the part in which the taking stopped the rest
/// stays in front.
pub open spec fn leftover(parts: Seq<Seq<u8>>, count: int) -> Seq<Seq<u8>>
    decreases parts.len(),
{
    if parts.len() == 0 || count <= 0 {
        parts
    } else if parts[0].len() > count {
        seq![parts[0].skip(count)] + parts.skip(1)
    } else {
        leftover(parts.skip(1), count - parts[0].len())
    }
}

/// How many packets the next datagram of a stream of `len` bytes has.
pub open spec fn packets_in(len: nat) -> nat {
    if len >= 15000 {
        10
    } else {
        ((len + 1499) / 1500) as nat
    }
}

/// The header of a data packet.
pub open spec fn data_header(
    src_conn_id: u32,
    dst_conn_id: u32,
    packet_number: u64,
    len: u16,
) -> BluefinHeader {
    BluefinHeader {
        version: 0,
        type_field: PacketType::UnencryptedData,
        type_specific_payload: len,
        security_fields: BluefinSecurityFields::plain(),
        source_connection_id: src_conn_id,
        destination_connection_id: dst_conn_id,
        packet_number,
    }
}

/// The `i`-th slice of a stream that is cut into full payloads.
pub open spec fn slice_of(stream: Seq<u8>, i: int) -> Seq<u8> {
    stream.subrange(
        1500 * i,
        if 1500 * (i + 1) <= stream.len() {
            1500 * (i + 1)
        } else {
            stream.len() as int
        },
    )
}

/// The packet with the `i`-th slice of the stream.
pub open spec fn data_packet(
    stream: Seq<u8>,
    first_number: u64,
    src_conn_id: u32,
    dst_conn_id: u32,
    i: int,
) -> PacketView {
    PacketView {
        header: data_header(
            src_conn_id,
            dst_conn_id,
            (first_number + i) as u64,
            slice_of(stream, i).len() as u16,
        ),
        payload: slice_of(stream, i),
    }
}

/// The first `count` packets of a stream.
pub open spec fn leading_packets(
    stream: Seq<u8>,
    first_number: u64,
    src_conn_id: u32,
    dst_conn_id: u32,
    count: nat,
) -> Seq<PacketView> {
    Seq::new(count, |i: int| data_packet(stream, first_number, src_conn_id, dst_conn_id, i))
}

/// The packets of the next datagram of a stream: the stream is cut into full
/// payloads from its front, ten at most, and only the end of the stream makes a
/// packet that is not full. They are numbered from `first_number`.
pub open spec fn data_packets(
    stream: Seq<u8>,
    first_number: u64,
    src_conn_id: u32,
    dst_conn_id: u32,
) -> Seq<PacketView> {
    leading_packets(stream, first_number, src_conn_id, dst_conn_id, packets_in(stream.len()))
}

/// The payloads of packets, one after the other.
pub open spec fn payloads(packets: Seq<PacketView>) -> Seq<Seq<u8>> {
    packets.map_values(|p: PacketView| p.payload)
}

/// In the midst of filling a datagram: of the queue `parts`, `k` full packets
/// were made, `running` was taken out but not yet used, and `rest` is still
/// queued.
pub(crate) open spec fn packing(
    parts: Seq<Seq<u8>>,
    k: int,
    running: Seq<u8>,
    rest: Seq<Seq<u8>>,
) -> bool {
    &&& 0 <= k <= 10
    &&& 1500 * k <= joined(parts).len()
    &&& joined(parts).skip(1500 * k) == running + joined(rest)
    &&& if 1500 * k + running.len() <= 15000 {
        leftover(parts, 15000) == leftover(rest, 15000 - 1500 * k - running.len())
    } else {
        leftover(parts, 15000) == seq![running.skip(15000 - 1500 * k)] + rest
    }
}

pub(crate) proof fn lemma_packing_start(parts: Seq<Seq<u8>>)
    ensures
        packing(parts, 0, Seq::empty(), parts),
{
    assert(joined(parts).skip(0) =~= Seq::<u8>::empty() + joined(parts));
}

/// The next part is taken out of the queue.
pub(crate) proof fn lemma_packing_pop(
    parts: Seq<Seq<u8>>,
    k: int,
    running: Seq<u8>,
    rest: Seq<Seq<u8>>,
)
    requires
        packing(parts, k, running, rest),
        rest.len() > 0,
        1500 * k + running.len() < 15000,
    ensures
        packing(parts, k, running + rest[0], rest.skip(1)),
{
    assert(running + joined(rest) =~= (running + rest[0]) + joined(rest.skip(1)));
    let budget = 15000 - 1500 * k - running.len();
    if rest[0].len() > budget {
        assert((running + rest[0]).skip(15000 - 1500 * k) =~= rest[0].skip(budget));
    }
}

/// A full packet is made.
pub(crate) proof fn lemma_packing_take(
    parts: Seq<Seq<u8>>,
    k: int,
    running: Seq<u8>,
    rest: Seq<Seq<u8>>,
)
    requires
        packing(parts, k, running, rest),
        k < 10,
        running.len() >= 1500,
    ensures
        packing(parts, k + 1, running.skip(1500), rest),
        running.take(1500) == slice_of(joined(parts), k),
        running.take(1500).len() == 1500,
        packets_in(joined(parts).len()) > k,
{
    let stream = joined(parts);
    let tail = stream.skip(1500 * k);
    assert(tail.len() == running.len() + joined(rest).len());
    assert(stream.skip(1500 * (k + 1)) =~= tail.skip(1500));
    assert(tail.skip(1500) =~= running.skip(1500) + joined(rest));
    assert(running.take(1500) =~= tail.take(1500));
    assert(tail.take(1500) =~= slice_of(stream, k));
    if 1500 * k + running.len() > 15000 {
        assert(running.skip(1500).skip(15000 - 1500 * (k + 1)) =~= running.skip(15000 - 1500 * k));
    }
}

/// The last packet of the stream is made.
pub(crate) proof fn lemma_packing_last(parts: Seq<Seq<u8>>, k: int, running: Seq<u8>)
    requires
        packing(parts, k, running, Seq::empty()),
        k < 10,
        0 < running.len() < 1500,
    ensures
        running == slice_of(joined(parts), k),
        packets_in(joined(parts).len()) == k + 1,
        leftover(parts, 15000).len() == 0,
{
    let stream = joined(parts);
    assert(stream.skip(1500 * k) =~= running);
    assert(running =~= slice_of(stream, k));
}

/// Nothing of the stream is left to be packed, or the datagram is full.
pub(crate) proof fn lemma_packing_end(
    parts: Seq<Seq<u8>>,
    k: int,
    running: Seq<u8>,
    rest: Seq<Seq<u8>>,
)
    requires
        packing(parts, k, running, rest),
        k == 10 || (running.len() == 0 && rest.len() == 0),
    ensures
        packets_in(joined(parts).len()) == k,
        leftover(parts, 15000) == (if running.len() == 0 {
            rest
        } else {
            seq![running] + rest
        }),
{
    let stream = joined(parts);
    assert(stream.skip(1500 * k).len() == stream.len() - 1500 * k);
    if k == 10 {
        assert(running.skip(0) =~= running);
        if rest.len() == 0 {
            assert(leftover(rest, 0) =~= rest);
        }
    } else {
        assert(joined(rest) =~= Seq::empty());
        assert(running + joined(rest) =~= Seq::empty());
    }
}

/// One more packet at the end of a datagram.
pub proof fn lemma_stream_push(packets: Seq<PacketView>, packet: PacketView)
    ensures
        stream_bytes(packets.push(packet)) == stream_bytes(packets) + packet.wire(),
    decreases packets.len(),
{
    let more = packets.push(packet);
    if packets.len() == 0 {
        reveal_with_fuel(stream_bytes, 2);
        assert(more.skip(1) =~= Seq::empty());
        assert(stream_bytes(more) =~= stream_bytes(packets) + packet.wire());
    } else {
        assert(more.skip(1) =~= packets.skip(1).push(packet));
        lemma_stream_push(packets.skip(1), packet);
        assert(stream_bytes(more) =~= stream_bytes(packets) + packet.wire());
    }
}

/// The `k`-th packet is appended to the datagram.
pub(crate) proof fn lemma_leading_step(
    stream: Seq<u8>,
    first_number: u64,
    src_conn_id: u32,
    dst_conn_id: u32,
    k: nat,
)
    ensures
        stream_bytes(
            leading_packets(stream, first_number, src_conn_id, dst_conn_id, k + 1),
        ) == stream_bytes(leading_packets(stream, first_number, src_conn_id, dst_conn_id, k))
            + data_packet(stream, first_number, src_conn_id, dst_conn_id, k as int).wire(),
{
    let now = leading_packets(stream, first_number, src_conn_id, dst_conn_id, k);
    let packet = data_packet(stream, first_number, src_conn_id, dst_conn_id, k as int);
    lemma_stream_push(now, packet);
    assert(leading_packets(stream, first_number, src_conn_id, dst_conn_id, k + 1) =~= now.push(
        packet,
    ));
}

/// The payloads of a datagram and what stays queued are the queue: no byte is
/// lost, doubled or moved.
pub proof fn law_no_byte_is_lost(
    parts: Seq<Seq<u8>>,
    first_number: u64,
    src_conn_id: u32,
    dst_conn_id: u32,
)
    ensures
        joined(payloads(data_packets(joined(parts), first_number, src_conn_id, dst_conn_id)))
            + joined(leftover(parts, datagram_payload())) == joined(parts),
{
    let stream = joined(parts);
    let n = packets_in(stream.len());
    let taken: int = if stream.len() < 15000 {
        stream.len() as int
    } else {
        15000
    };
    lemma_joined_slices(stream, first_number, src_conn_id, dst_conn_id, n);
    lemma_joined_leftover(parts, 15000);
    assert(stream =~= stream.take(taken) + stream.skip(taken));
}

proof fn lemma_joined_slices(
    stream: Seq<u8>,
    first_number: u64,
    src_conn_id: u32,
    dst_conn_id: u32,
    count: nat,
)
    requires
        count <= packets_in(stream.len()),
    ensures
        joined(
            payloads(leading_packets(stream, first_number, src_conn_id, dst_conn_id, count)),
        ) == stream.take(
            if 1500 * count <= stream.len() {
                1500 * count as int
            } else {
                stream.len() as int
            },
        ),
    decreases count,
{
    let now = payloads(leading_packets(stream, first_number, src_conn_id, dst_conn_id, count));
    if count == 0 {
        assert(now =~= Seq::empty());
        assert(joined(now) =~= stream.take(0));
    } else {
        let fewer = (count - 1) as nat;
        let before = payloads(
            leading_packets(stream, first_number, src_conn_id, dst_conn_id, fewer),
        );
        lemma_joined_slices(stream, first_number, src_conn_id, dst_conn_id, fewer);
        assert(now =~= before.push(slice_of(stream, fewer as int)));
        lemma_joined_push(before, slice_of(stream, fewer as int));
        assert(1500 * fewer < stream.len());
        assert(joined(now) =~= stream.take(
            if 1500 * count <= stream.len() {
                1500 * count as int
            } else {
                stream.len() as int
            },
        ));
    }
}

/// One more part at the end.
pub proof fn lemma_joined_push(parts: Seq<Seq<u8>>, part: Seq<u8>)
    ensures
        joined(parts.push(part)) == joined(parts) + part,
    decreases parts.len(),
{
    let more = parts.push(part);
    if parts.len() == 0 {
        reveal_with_fuel(joined, 2);
        assert(more.skip(1) =~= Seq::empty());
        assert(joined(more) =~= joined(parts) + part);
    } else {
        assert(more.skip(1) =~= parts.skip(1).push(part));
        lemma_joined_push(parts.skip(1), part);
        assert(joined(more) =~= joined(parts) + part);
    }
}

/// What stays queued is the stream without the bytes that were taken.
pub proof fn lemma_joined_leftover(parts: Seq<Seq<u8>>, count: int)
    requires
        count >= 0,
    ensures
        joined(leftover(parts, count)) == joined(parts).skip(
            if count <= joined(parts).len() {
                count
            } else {
                joined(parts).len() as int
            },
        ),
    decreases parts.len(),
{
    if parts.len() == 0 || count <= 0 {
        assert(joined(parts).skip(0) =~= joined(parts));
    } else if parts[0].len() > count {
        let left = seq![parts[0].skip(count)] + parts.skip(1);
        assert(left.skip(1) =~= parts.skip(1));
        assert(joined(left) =~= joined(parts).skip(count));
    } else {
        let rest = parts.skip(1);
        lemma_joined_leftover(rest, count - parts[0].len());
        assert(joined(parts).skip(parts[0].len() as int) =~= joined(rest));
        assert(joined(leftover(parts, count)) =~= joined(parts).skip(
            if count <= joined(parts).len() {
                count
            } else {
                joined(parts).len() as int
            },
        ));
    }
}

/// What the packets of a datagram look like: each carries at least one byte and
/// at most a full payload, its header tells the payload's length, all but the
/// last are full, and the datagram is within its bound. Where more than a
/// datagram's payload is queued, the datagram is full.
pub proof fn law_datagram_is_bounded(
    stream: Seq<u8>,
    first_number: u64,
    src_conn_id: u32,
    dst_conn_id: u32,
)
    ensures
        ({
            let packets = data_packets(stream, first_number, src_conn_id, dst_conn_id);
            &&& packets.len() <= MAX_BLUEFIN_PACKETS_IN_UDP_DATAGRAM
            &&& forall|i: int|
                0 <= i < packets.len() ==> {
                    &&& (#[trigger] packets[i]).well_formed()
                    &&& 0 < packets[i].payload.len() <= MAX_BLUEFIN_PAYLOAD_SIZE_BYTES
                    &&& i + 1 < packets.len() ==> packets[i].payload.len()
                        == MAX_BLUEFIN_PAYLOAD_SIZE_BYTES
                }
            &&& stream_bytes(packets).len() <= MAX_BLUEFIN_BYTES_IN_UDP_DATAGRAM
            &&& stream.len() >= datagram_payload() ==> stream_bytes(packets).len()
                == MAX_BLUEFIN_BYTES_IN_UDP_DATAGRAM
        }),
{
    let packets = data_packets(stream, first_number, src_conn_id, dst_conn_id);
    lemma_plain();
    assert forall|i: int| 0 <= i < packets.len() implies {
        &&& (#[trigger] packets[i]).well_formed()
        &&& 0 < packets[i].payload.len() <= MAX_BLUEFIN_PAYLOAD_SIZE_BYTES
        &&& i + 1 < packets.len() ==> packets[i].payload.len() == MAX_BLUEFIN_PAYLOAD_SIZE_BYTES
    } by {
        assert(packets[i] == data_packet(stream, first_number, src_conn_id, dst_conn_id, i));
        assert(1500 * i < stream.len());
    }
    lemma_leading_len(
        stream,
        first_number,
        src_conn_id,
        dst_conn_id,
        packets_in(stream.len()),
    );
}

proof fn lemma_leading_len(
    stream: Seq<u8>,
    first_number: u64,
    src_conn_id: u32,
    dst_conn_id: u32,
    count: nat,
)
    requires
        count <= packets_in(stream.len()),
    ensures
        stream_bytes(leading_packets(stream, first_number, src_conn_id, dst_conn_id, count)).len()
            == 20 * count + (if 1500 * count <= stream.len() {
            1500 * count as int
        } else {
            stream.len() as int
        }),
    decreases count,
{
    if count > 0 {
        let fewer = (count - 1) as nat;
        lemma_leading_len(stream, first_number, src_conn_id, dst_conn_id, fewer);
        lemma_leading_step(stream, first_number, src_conn_id, dst_conn_id, fewer);
        data_packet(
            stream,
            first_number,
            src_conn_id,
            dst_conn_id,
            fewer as int,
        ).header.lemma_wire_len();
        assert(1500 * fewer < stream.len());
    }
}

/// A datagram is as long as its headers and its payloads.
pub(crate) proof fn lemma_datagram_len(
    stream: Seq<u8>,
    first_number: u64,
    src_conn_id: u32,
    dst_conn_id: u32,
)
    ensures
        ({
            let packets = data_packets(stream, first_number, src_conn_id, dst_conn_id);
            stream_bytes(packets).len() == 20 * packets.len() + joined(payloads(packets)).len()
        }),
{
    let count = packets_in(stream.len());
    lemma_leading_len(stream, first_number, src_conn_id, dst_conn_id, count);
    lemma_joined_slices(stream, first_number, src_conn_id, dst_conn_id, count);
}

/// The receiver reads from a datagram exactly the packets that the sender cut.
pub proof fn law_datagram_is_readable(
    stream: Seq<u8>,
    first_number: u64,
    src_conn_id: u32,
    dst_conn_id: u32,
)
    ensures
        scan(stream_bytes(data_packets(stream, first_number, src_conn_id, dst_conn_id))) == (
            data_packets(stream, first_number, src_conn_id, dst_conn_id),
            None::<ErrorView>,
        ),
{
    law_datagram_is_bounded(stream, first_number, src_conn_id, dst_conn_id);
    law_stream_round_trip(data_packets(stream, first_number, src_conn_id, dst_conn_id));
}

} // verus!

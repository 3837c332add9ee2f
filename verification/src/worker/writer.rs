//! The writer divides what is to be sent into packets and datagrams.
use std::collections::VecDeque;

use bytes::{Bytes, BytesMut};
use vstd::prelude::*;

use crate::shared_bytes::contents;
use crate::wire::Serialisable;
use crate::wire::header::{BluefinHeader, BluefinSecurityFields, PacketType};
use crate::wire::packet::{scan, stream_bytes};
use crate::worker::handle::WriterHandler;
use crate::worker::packing::{
    MAX_BLUEFIN_BYTES_IN_UDP_DATAGRAM, MAX_BLUEFIN_PAYLOAD_SIZE_BYTES, data_header, data_packet,
    data_packets, datagram_payload, joined, law_datagram_is_bounded, law_datagram_is_readable,
    law_no_byte_is_lost, leading_packets, leftover, lemma_datagram_len, lemma_joined_leftover,
    lemma_leading_step, lemma_packing_end, lemma_packing_last, lemma_packing_pop,
    lemma_packing_start, lemma_packing_take, packets_in, packing, payloads, slice_of,
};

verus! {

/// The bytes of each queued payload.
pub open spec fn vec_parts(queue: Seq<Vec<u8>>) -> Seq<Seq<u8>> {
    queue.map_values(|part: Vec<u8>| part@)
}

/// The bytes of each queued payload.
pub open spec fn bytes_parts(queue: Seq<Bytes>) -> Seq<Seq<u8>> {
    queue.map_values(|part: Bytes| contents(part))
}

/// The smaller of two lengths.
fn min(a: usize, b: usize) -> (least: usize)
    ensures
        least == if a <= b {
            a
        } else {
            b
        },
{
    if a <= b {
        a
    } else {
        b
    }
}

/// The header is that of a data packet between the two ends.
pub(crate) open spec fn is_data(header: BluefinHeader, src_conn_id: u32, dst_conn_id: u32) -> bool {
    header == data_header(
        src_conn_id,
        dst_conn_id,
        header.packet_number,
        header.type_specific_payload,
    )
}

/// After `base`, the buffer holds the first `k` packets of the stream.
pub(crate) open spec fn filled(
    base: Seq<u8>,
    stream: Seq<u8>,
    first: u64,
    src_conn_id: u32,
    dst_conn_id: u32,
    k: nat,
    buffer: Seq<u8>,
) -> bool {
    buffer == base + stream_bytes(leading_packets(stream, first, src_conn_id, dst_conn_id, k))
}

proof fn lemma_no_packets(stream: Seq<u8>, first: u64, src_conn_id: u32, dst_conn_id: u32)
    ensures
        stream_bytes(leading_packets(stream, first, src_conn_id, dst_conn_id, 0))
            == Seq::<u8>::empty(),
{
}

/// The next packet was appended.
proof fn lemma_filled_step(
    base: Seq<u8>,
    stream: Seq<u8>,
    first: u64,
    src_conn_id: u32,
    dst_conn_id: u32,
    k: nat,
    before: Seq<u8>,
    header: BluefinHeader,
    payload: Seq<u8>,
    after: Seq<u8>,
)
    requires
        filled(base, stream, first, src_conn_id, dst_conn_id, k, before),
        header == data_header(
            src_conn_id,
            dst_conn_id,
            (first + k) as u64,
            payload.len() as u16,
        ),
        payload == slice_of(stream, k as int),
        after == before + header.wire_bytes() + payload,
    ensures
        filled(base, stream, first, src_conn_id, dst_conn_id, k + 1, after),
{
    lemma_leading_step(stream, first, src_conn_id, dst_conn_id, k);
    let packet = data_packet(stream, first, src_conn_id, dst_conn_id, k as int);
    let so_far = stream_bytes(leading_packets(stream, first, src_conn_id, dst_conn_id, k));
    assert(packet.wire() == header.wire_bytes() + payload);
    assert(after =~= base + (so_far + packet.wire()));
}

/// A buffer with packets is not empty.
pub(crate) proof fn lemma_filled_len(
    base: Seq<u8>,
    stream: Seq<u8>,
    first: u64,
    src_conn_id: u32,
    dst_conn_id: u32,
    k: nat,
    buffer: Seq<u8>,
)
    requires
        filled(base, stream, first, src_conn_id, dst_conn_id, k, buffer),
    ensures
        k == 0 ==> buffer == base,
        k > 0 ==> buffer.len() > base.len(),
{
    if k == 0 {
        lemma_no_packets(stream, first, src_conn_id, dst_conn_id);
        assert(base + Seq::<u8>::empty() =~= base);
    } else {
        let fewer = (k - 1) as nat;
        lemma_leading_step(stream, first, src_conn_id, dst_conn_id, fewer);
        data_packet(stream, first, src_conn_id, dst_conn_id, fewer as int).header.lemma_wire_len();
    }
}

proof fn lemma_vec_parts_pop(queue: Seq<Vec<u8>>)
    requires
        queue.len() > 0,
    ensures
        vec_parts(queue).len() > 0,
        vec_parts(queue)[0] == queue[0]@,
        vec_parts(queue).skip(1) == vec_parts(queue.skip(1)),
{
    assert(vec_parts(queue).skip(1) =~= vec_parts(queue.skip(1)));
}

proof fn lemma_vec_parts_push_front(queue: Seq<Vec<u8>>, front: Vec<u8>)
    ensures
        vec_parts(seq![front] + queue) == seq![front@] + vec_parts(queue),
{
    assert(vec_parts(seq![front] + queue) =~= seq![front@] + vec_parts(queue));
}

/// Each payload is short enough to be joined in one allocation to the part of a
/// packet that goes before it.
pub open spec fn mergeable(queue: Seq<Bytes>) -> bool {
    forall|i: int|
        0 <= i < queue.len() ==> contents(#[trigger] queue[i]).len() + 1500 <= isize::MAX
}

proof fn lemma_bytes_parts_pop(queue: Seq<Bytes>)
    requires
        queue.len() > 0,
    ensures
        bytes_parts(queue).len() > 0,
        bytes_parts(queue)[0] == contents(queue[0]),
        bytes_parts(queue).skip(1) == bytes_parts(queue.skip(1)),
{
    assert(bytes_parts(queue).skip(1) =~= bytes_parts(queue.skip(1)));
}

proof fn lemma_bytes_parts_push_front(queue: Seq<Bytes>, front: Bytes)
    ensures
        bytes_parts(seq![front] + queue) == seq![contents(front)] + bytes_parts(queue),
{
    assert(bytes_parts(seq![front] + queue) =~= seq![contents(front)] + bytes_parts(queue));
}

/// What [`WriterHandler::consume_data`] makes of queued parts: the datagram, `None` where
/// no byte was queued; the parts that stay queued; the number of the next packet.
pub open spec fn consumed_data(
    parts: Seq<Seq<u8>>,
    first: u64,
    src_conn_id: u32,
    dst_conn_id: u32,
    datagram: Option<Vec<u8>>,
    rest: Seq<Seq<u8>>,
    next: u64,
) -> bool {
    let stream = joined(parts);
    &&& match datagram {
        Some(bytes) => {
            &&& stream.len() > 0
            &&& bytes@ == stream_bytes(data_packets(stream, first, src_conn_id, dst_conn_id))
        },
        None => stream.len() == 0,
    }
    &&& rest == leftover(parts, datagram_payload())
    &&& next == first + packets_in(stream.len())
}

/// What [`WriterHandler::consume_data_into`] makes of queued parts: whether there is
/// something to send; what stands in the buffer, behind what stood there; the parts
/// that stay queued; the number of the next packet.
pub open spec fn consumed_data_into(
    parts: Seq<Seq<u8>>,
    first: u64,
    src_conn_id: u32,
    dst_conn_id: u32,
    before: Seq<u8>,
    ready: bool,
    after: Seq<u8>,
    rest: Seq<Seq<u8>>,
    next: u64,
) -> bool {
    let stream = joined(parts);
    &&& ready == (parts.len() > 0 && after.len() > 0)
    &&& after == before + stream_bytes(data_packets(stream, first, src_conn_id, dst_conn_id))
    &&& rest == leftover(parts, datagram_payload())
    &&& next == first + packets_in(stream.len())
}

/// A datagram and what stays queued are the queue: the peer reads from the datagram
/// packets with numbers from `first` on, without a gap, under the given ids; their
/// payloads, followed by what stays queued, are what was queued; and the next packet
/// gets the number after the last of them. There is a datagram exactly where a byte was
/// queued.
pub proof fn law_datagram_and_rest_are_the_queue(
    parts: Seq<Seq<u8>>,
    first: u64,
    src_conn_id: u32,
    dst_conn_id: u32,
    datagram: Option<Vec<u8>>,
    rest: Seq<Seq<u8>>,
    next: u64,
    i: int,
)
    requires
        first + packets_in(joined(parts).len()) <= u64::MAX,
        consumed_data(parts, first, src_conn_id, dst_conn_id, datagram, rest, next),
    ensures
        datagram is Some <==> joined(parts).len() > 0,
        datagram is None ==> next == first && joined(rest).len() == 0,
        datagram matches Some(bytes) ==> {
            let packets = scan(bytes@).0;
            &&& scan(bytes@).1 is None
            &&& bytes@.len() <= 15200
            &&& joined(payloads(packets)) + joined(rest) == joined(parts)
            &&& next == first + packets.len()
            &&& 0 <= i < packets.len() ==> {
                &&& packets[i].header.packet_number == first + i
                &&& packets[i].header.type_field == PacketType::UnencryptedData
                &&& packets[i].header.source_connection_id == src_conn_id
                &&& packets[i].header.destination_connection_id == dst_conn_id
                &&& packets[i].header.type_specific_payload == packets[i].payload.len()
                &&& 0 < packets[i].payload.len() <= 1500
                &&& i < packets.len() - 1 ==> packets[i].payload.len() == 1500
            }
        },
{
    let stream = joined(parts);
    law_datagram_is_readable(stream, first, src_conn_id, dst_conn_id);
    law_datagram_is_bounded(stream, first, src_conn_id, dst_conn_id);
    law_no_byte_is_lost(parts, first, src_conn_id, dst_conn_id);
    lemma_joined_leftover(parts, 15000);
    let packets = data_packets(stream, first, src_conn_id, dst_conn_id);
    if 0 <= i < packets.len() {
        assert(packets[i].well_formed());
    }
}

/// The two ways to make a datagram agree. Of the same parts, with the same number for
/// the first packet and the same connection ids, and with an empty buffer for the one
/// that fills a buffer, both make a datagram or neither does, and both make the same
/// bytes, leave the same parts queued and go on with the same number.
pub proof fn law_packetizers_agree(
    parts: Seq<Seq<u8>>,
    first: u64,
    src_conn_id: u32,
    dst_conn_id: u32,
    datagram: Option<Vec<u8>>,
    rest: Seq<Seq<u8>>,
    next: u64,
    ready: bool,
    after: Seq<u8>,
    rest_into: Seq<Seq<u8>>,
    next_into: u64,
)
    requires
        consumed_data(parts, first, src_conn_id, dst_conn_id, datagram, rest, next),
        consumed_data_into(
            parts,
            first,
            src_conn_id,
            dst_conn_id,
            Seq::empty(),
            ready,
            after,
            rest_into,
            next_into,
        ),
    ensures
        ready == (datagram is Some),
        datagram matches Some(bytes) ==> bytes@ == after,
        datagram is None ==> after.len() == 0,
        rest == rest_into,
        next == next_into,
{
    let stream = joined(parts);
    assert(packets_in(stream.len()) > 0 <==> stream.len() > 0);
    lemma_datagram_len(stream, first, src_conn_id, dst_conn_id);
}

/// Takes the first `count` bytes out of the buffer.
fn take_front(buffer: &mut Vec<u8>, count: usize) -> (front: Vec<u8>)
    requires
        count <= old(buffer)@.len(),
    ensures
        front@ == old(buffer)@.take(count as int),
        final(buffer)@ == old(buffer)@.skip(count as int),
{
    let ghost before = buffer@;
    let mut other: Vec<u8> = buffer.split_off(count);
    core::mem::swap(buffer, &mut other);
    assert(buffer@ =~= before.skip(count as int));
    assert(other@ =~= before.take(count as int));
    other
}

impl WriterHandler {
    /// Appends a packet with the given header and payload.
    #[inline]
    pub fn serialize_packet_direct(ans: &mut Vec<u8>, header: &BluefinHeader, payload: &[u8])
        ensures
            final(ans)@ == old(ans)@ + header.wire_bytes() + payload@,
    {
        let ghost before = ans@;
        let bytes: Vec<u8> = header.serialise();
        ans.extend_from_slice(bytes.as_slice());
        ans.extend_from_slice(payload);
        assert(ans@ =~= before + header.wire_bytes() + payload@);
    }

    /// Appends the next data packet, and counts it.
    #[inline]
    fn push_data_packet(
        ans: &mut Vec<u8>,
        header: &mut BluefinHeader,
        next_packet_num: &mut u64,
        payload: &[u8],
    )
        requires
            payload@.len() <= 1500,
            *old(next_packet_num) < u64::MAX,
        ensures
            *final(next_packet_num) == *old(next_packet_num) + 1,
            *final(header) == (BluefinHeader {
                packet_number: *old(next_packet_num),
                type_specific_payload: payload@.len() as u16,
                ..*old(header)
            }),
            final(ans)@ == old(ans)@ + final(header).wire_bytes() + payload@,
    {
        header.with_packet_number(*next_packet_num);
        header.type_specific_payload = payload.len() as u16;
        Self::serialize_packet_direct(ans, header, payload);
        *next_packet_num = *next_packet_num + 1;
    }

    /// Takes the payload of the next datagram out of the queue and returns the
    /// datagram, or nothing where no bytes are queued.
    pub fn consume_data(
        queue: &mut VecDeque<Vec<u8>>,
        next_packet_num: &mut u64,
        src_conn_id: u32,
        dst_conn_id: u32,
    ) -> (datagram: Option<Vec<u8>>)
        requires
            *old(next_packet_num) + packets_in(joined(vec_parts(old(queue)@)).len()) <= u64::MAX,
        ensures
            consumed_data(
                vec_parts(old(queue)@),
                *old(next_packet_num),
                src_conn_id,
                dst_conn_id,
                datagram,
                vec_parts(final(queue)@),
                *final(next_packet_num),
            ),
    {
        let ghost parts = vec_parts(queue@);
        let ghost stream = joined(parts);
        let ghost first = *next_packet_num;
        let mut ans: Vec<u8> = Vec::with_capacity(MAX_BLUEFIN_BYTES_IN_UDP_DATAGRAM);
        let mut bytes_remaining: usize = MAX_BLUEFIN_BYTES_IN_UDP_DATAGRAM;
        let mut running_payload: Vec<u8> = Vec::with_capacity(MAX_BLUEFIN_PAYLOAD_SIZE_BYTES * 2);
        let security_fields = BluefinSecurityFields::new(false, 0x0);
        let mut header = BluefinHeader::new(
            src_conn_id,
            dst_conn_id,
            PacketType::UnencryptedData,
            0,
            security_fields,
        );
        let ghost mut k: nat = 0;
        proof {
            lemma_packing_start(parts);
            assert(running_payload@ =~= Seq::empty());
            lemma_no_packets(stream, first, src_conn_id, dst_conn_id);
            assert(ans@ =~= Seq::<u8>::empty() + Seq::<u8>::empty());
        }
        while queue.len() > 0 && bytes_remaining > 20
            invariant
                parts == vec_parts(old(queue)@),
                stream == joined(parts),
                first == *old(next_packet_num),
                first + packets_in(stream.len()) <= u64::MAX,
                *next_packet_num == first + k,
                bytes_remaining == 15200 - 1520 * k,
                is_data(header, src_conn_id, dst_conn_id),
                packing(parts, k as int, running_payload@, vec_parts(queue@)),
                filled(Seq::empty(), stream, first, src_conn_id, dst_conn_id, k, ans@),
            decreases queue@.len() + 10 - k,
        {
            // What was taken out of the queue is more than there is room for.
            if running_payload.len() >= bytes_remaining - 20 {
                while running_payload.len() > 0 && bytes_remaining >= 20
                    invariant
                        parts == vec_parts(old(queue)@),
                        stream == joined(parts),
                        first == *old(next_packet_num),
                        first + packets_in(stream.len()) <= u64::MAX,
                        *next_packet_num == first + k,
                        bytes_remaining == 15200 - 1520 * k,
                        running_payload@.len() >= 1500 * (10 - k),
                        is_data(header, src_conn_id, dst_conn_id),
                        packing(parts, k as int, running_payload@, vec_parts(queue@)),
                        filled(Seq::empty(), stream, first, src_conn_id, dst_conn_id, k, ans@),
                    decreases 10 - k,
                {
                    let max_bytes_to_take: usize = min(
                        running_payload.len(),
                        min(MAX_BLUEFIN_PAYLOAD_SIZE_BYTES, bytes_remaining - 20),
                    );
                    let ghost before = ans@;
                    let ghost running = running_payload@;
                    let payload: Vec<u8> = take_front(&mut running_payload, max_bytes_to_take);
                    proof {
                        lemma_packing_take(parts, k as int, running, vec_parts(queue@));
                    }
                    Self::push_data_packet(&mut ans, &mut header, next_packet_num, &payload);
                    bytes_remaining = bytes_remaining - (max_bytes_to_take + 20);
                    proof {
                        lemma_filled_step(
                            Seq::empty(),
                            stream,
                            first,
                            src_conn_id,
                            dst_conn_id,
                            k,
                            before,
                            header,
                            payload@,
                            ans@,
                        );
                        k = k + 1;
                    }
                }
                proof {
                    lemma_packing_end(parts, k as int, running_payload@, vec_parts(queue@));
                }
                if running_payload.len() > 0 {
                    let ghost rest = queue@;
                    queue.push_front(running_payload);
                    proof {
                        lemma_vec_parts_push_front(rest, running_payload);
                    }
                }
                return Some(ans);
            }
            // What was taken out of the queue fills a packet.
            if running_payload.len() >= MAX_BLUEFIN_PAYLOAD_SIZE_BYTES {
                let max_bytes_to_take: usize = min(
                    running_payload.len(),
                    min(bytes_remaining - 20, MAX_BLUEFIN_PAYLOAD_SIZE_BYTES),
                );
                let ghost before = ans@;
                let ghost running = running_payload@;
                let payload: Vec<u8> = take_front(&mut running_payload, max_bytes_to_take);
                proof {
                    lemma_packing_take(parts, k as int, running, vec_parts(queue@));
                }
                Self::push_data_packet(&mut ans, &mut header, next_packet_num, &payload);
                bytes_remaining = bytes_remaining - (max_bytes_to_take + 20);
                proof {
                    lemma_filled_step(
                        Seq::empty(),
                        stream,
                        first,
                        src_conn_id,
                        dst_conn_id,
                        k,
                        before,
                        header,
                        payload@,
                        ans@,
                    );
                    k = k + 1;
                }
                continue;
            }
            let ghost queued = queue@;
            let data: Vec<u8> = queue.pop_front().unwrap();
            let ghost taken = running_payload@;
            let fits: bool = data.len() <= MAX_BLUEFIN_PAYLOAD_SIZE_BYTES - running_payload.len();
            running_payload.extend_from_slice(data.as_slice());
            proof {
                lemma_vec_parts_pop(queued);
                assert(queue@ =~= queued.skip(1));
                assert(running_payload@ =~= taken + data@);
                lemma_packing_pop(parts, k as int, taken, vec_parts(queued));
            }
            if !fits {
                let max_bytes_to_take: usize = min(
                    running_payload.len(),
                    min(MAX_BLUEFIN_PAYLOAD_SIZE_BYTES, bytes_remaining - 20),
                );
                let ghost before = ans@;
                let ghost running = running_payload@;
                let payload: Vec<u8> = take_front(&mut running_payload, max_bytes_to_take);
                proof {
                    lemma_packing_take(parts, k as int, running, vec_parts(queue@));
                }
                Self::push_data_packet(&mut ans, &mut header, next_packet_num, &payload);
                bytes_remaining = bytes_remaining - (max_bytes_to_take + 20);
                proof {
                    lemma_filled_step(
                        Seq::empty(),
                        stream,
                        first,
                        src_conn_id,
                        dst_conn_id,
                        k,
                        before,
                        header,
                        payload@,
                        ans@,
                    );
                    k = k + 1;
                }
            }
        }
        let ghost mut short: bool = false;
        while running_payload.len() > 0 && bytes_remaining >= 20
            invariant
                parts == vec_parts(old(queue)@),
                stream == joined(parts),
                first == *old(next_packet_num),
                first + packets_in(stream.len()) <= u64::MAX,
                *next_packet_num == first + k,
                !short ==> bytes_remaining == 15200 - 1520 * k,
                !short ==> packing(parts, k as int, running_payload@, vec_parts(queue@)),
                !short ==> queue@.len() == 0 || k == 10,
                short ==> running_payload@.len() == 0,
                short ==> queue@.len() == 0,
                short ==> packets_in(stream.len()) == k,
                short ==> leftover(parts, datagram_payload()).len() == 0,
                is_data(header, src_conn_id, dst_conn_id),
                filled(Seq::empty(), stream, first, src_conn_id, dst_conn_id, k, ans@),
            decreases running_payload@.len(),
        {
            let max_bytes_to_take: usize = min(
                running_payload.len(),
                min(MAX_BLUEFIN_PAYLOAD_SIZE_BYTES, bytes_remaining - 20),
            );
            let ghost before = ans@;
            let ghost running = running_payload@;
            let payload: Vec<u8> = take_front(&mut running_payload, max_bytes_to_take);
            proof {
                assert(vec_parts(queue@) =~= Seq::empty());
                if running.len() >= 1500 {
                    lemma_packing_take(parts, k as int, running, vec_parts(queue@));
                } else {
                    lemma_packing_last(parts, k as int, running);
                    assert(payload@ =~= running);
                    short = true;
                }
            }
            Self::push_data_packet(&mut ans, &mut header, next_packet_num, &payload);
            bytes_remaining = bytes_remaining - (max_bytes_to_take + 20);
            proof {
                lemma_filled_step(
                    Seq::empty(),
                    stream,
                    first,
                    src_conn_id,
                    dst_conn_id,
                    k,
                    before,
                    header,
                    payload@,
                    ans@,
                );
                k = k + 1;
            }
        }
        proof {
            if !short {
                lemma_packing_end(parts, k as int, running_payload@, vec_parts(queue@));
            } else {
                assert(vec_parts(queue@) =~= leftover(parts, datagram_payload()));
            }
            lemma_filled_len(Seq::empty(), stream, first, src_conn_id, dst_conn_id, k, ans@);
        }
        // Re-queue the remaining bytes.
        if running_payload.len() > 0 {
            let ghost rest = queue@;
            queue.push_front(running_payload);
            proof {
                lemma_vec_parts_push_front(rest, running_payload);
            }
        }
        if ans.len() == 0 {
            return None;
        }
        Some(ans)
    }

    /// Takes the payload of the next datagram out of the queue and appends the
    /// datagram to `ans`. Says whether `ans` then holds something to be sent; it
    /// does not say so where nothing was queued.
    pub fn consume_data_into(
        queue: &mut VecDeque<Bytes>,
        next_packet_num: &mut u64,
        src_conn_id: u32,
        dst_conn_id: u32,
        ans: &mut Vec<u8>,
    ) -> (ready: bool)
        requires
            *old(next_packet_num) + packets_in(joined(bytes_parts(old(queue)@)).len()) <= u64::MAX,
            mergeable(old(queue)@),
        ensures
            consumed_data_into(
                bytes_parts(old(queue)@),
                *old(next_packet_num),
                src_conn_id,
                dst_conn_id,
                old(ans)@,
                ready,
                final(ans)@,
                bytes_parts(final(queue)@),
                *final(next_packet_num),
            ),
    {
        let ghost parts = bytes_parts(queue@);
        let ghost stream = joined(parts);
        let ghost first = *next_packet_num;
        let ghost base = ans@;
        let ghost mut k: nat = 0;
        proof {
            lemma_packing_start(parts);
            lemma_no_packets(stream, first, src_conn_id, dst_conn_id);
            assert(ans@ =~= base + Seq::<u8>::empty());
        }
        if queue.len() == 0 {
            assert(bytes_parts(queue@) =~= Seq::empty());
            return false;
        }
        let ghost queued = queue@;
        let mut running_payload: Bytes = queue.pop_front().unwrap();
        proof {
            lemma_bytes_parts_pop(queued);
            assert(queue@ =~= queued.skip(1));
            lemma_packing_pop(parts, 0, Seq::empty(), parts);
            assert(contents(running_payload) =~= Seq::<u8>::empty() + parts[0]);
        }
        let mut bytes_remaining: usize = MAX_BLUEFIN_BYTES_IN_UDP_DATAGRAM;
        let mut header = BluefinHeader::new(
            src_conn_id,
            dst_conn_id,
            PacketType::UnencryptedData,
            0,
            BluefinSecurityFields::default(),
        );
        while queue.len() > 0 && bytes_remaining > 20
            invariant
                parts == bytes_parts(old(queue)@),
                stream == joined(parts),
                base == old(ans)@,
                first == *old(next_packet_num),
                first + packets_in(stream.len()) <= u64::MAX,
                *next_packet_num == first + k,
                bytes_remaining == 15200 - 1520 * k,
                is_data(header, src_conn_id, dst_conn_id),
                mergeable(queue@),
                packing(parts, k as int, contents(running_payload), bytes_parts(queue@)),
                filled(base, stream, first, src_conn_id, dst_conn_id, k, ans@),
            decreases queue@.len() + 10 - k,
        {
            // What was taken out of the queue is more than there is room for.
            if running_payload.len() >= bytes_remaining - 20 {
                while !running_payload.is_empty() && bytes_remaining >= 20
                    invariant
                        parts == bytes_parts(old(queue)@),
                        stream == joined(parts),
                        base == old(ans)@,
                        first == *old(next_packet_num),
                        first + packets_in(stream.len()) <= u64::MAX,
                        *next_packet_num == first + k,
                        bytes_remaining == 15200 - 1520 * k,
                        contents(running_payload).len() >= 1500 * (10 - k),
                        is_data(header, src_conn_id, dst_conn_id),
                        packing(parts, k as int, contents(running_payload), bytes_parts(queue@)),
                        filled(base, stream, first, src_conn_id, dst_conn_id, k, ans@),
                    decreases 10 - k,
                {
                    let max_bytes_to_take: usize = min(
                        running_payload.len(),
                        min(MAX_BLUEFIN_PAYLOAD_SIZE_BYTES, bytes_remaining - 20),
                    );
                    let ghost before = ans@;
                    let ghost running = contents(running_payload);
                    let chunk: Bytes = running_payload.split_to(max_bytes_to_take);
                    proof {
                        lemma_packing_take(parts, k as int, running, bytes_parts(queue@));
                    }
                    Self::push_data_packet(ans, &mut header, next_packet_num, &chunk);
                    bytes_remaining = bytes_remaining - (max_bytes_to_take + 20);
                    proof {
                        lemma_filled_step(
                            base,
                            stream,
                            first,
                            src_conn_id,
                            dst_conn_id,
                            k,
                            before,
                            header,
                            contents(chunk),
                            ans@,
                        );
                        k = k + 1;
                    }
                }
                proof {
                    lemma_packing_end(
                        parts,
                        k as int,
                        contents(running_payload),
                        bytes_parts(queue@),
                    );
                    lemma_filled_len(base, stream, first, src_conn_id, dst_conn_id, k, ans@);
                }
                if !running_payload.is_empty() {
                    let ghost rest = queue@;
                    queue.push_front(running_payload);
                    proof {
                        lemma_bytes_parts_push_front(rest, running_payload);
                    }
                }
                return ans.len() > 0;
            }
            // What was taken out of the queue fills a packet.
            if running_payload.len() >= MAX_BLUEFIN_PAYLOAD_SIZE_BYTES {
                let max_bytes_to_take: usize = min(
                    running_payload.len(),
                    min(bytes_remaining - 20, MAX_BLUEFIN_PAYLOAD_SIZE_BYTES),
                );
                let ghost before = ans@;
                let ghost running = contents(running_payload);
                let chunk: Bytes = running_payload.split_to(max_bytes_to_take);
                proof {
                    lemma_packing_take(parts, k as int, running, bytes_parts(queue@));
                }
                Self::push_data_packet(ans, &mut header, next_packet_num, &chunk);
                bytes_remaining = bytes_remaining - (max_bytes_to_take + 20);
                proof {
                    lemma_filled_step(
                        base,
                        stream,
                        first,
                        src_conn_id,
                        dst_conn_id,
                        k,
                        before,
                        header,
                        contents(chunk),
                        ans@,
                    );
                    k = k + 1;
                }
                continue;
            }
            // The next payload is merged onto the tail of what was taken out.
            let ghost queued = queue@;
            let data: Bytes = queue.pop_front().unwrap();
            let ghost taken = contents(running_payload);
            let fits: bool = data.len() <= MAX_BLUEFIN_PAYLOAD_SIZE_BYTES - running_payload.len();
            let mut merged = BytesMut::with_capacity(running_payload.len() + data.len());
            merged.extend_from_slice(&running_payload);
            merged.extend_from_slice(&data);
            running_payload = merged.freeze();
            proof {
                lemma_bytes_parts_pop(queued);
                assert(queue@ =~= queued.skip(1));
                assert(contents(running_payload) =~= taken + contents(data));
                lemma_packing_pop(parts, k as int, taken, bytes_parts(queued));
            }
            if !fits {
                let max_bytes_to_take: usize = min(
                    running_payload.len(),
                    min(MAX_BLUEFIN_PAYLOAD_SIZE_BYTES, bytes_remaining - 20),
                );
                let ghost before = ans@;
                let ghost running = contents(running_payload);
                let chunk: Bytes = running_payload.split_to(max_bytes_to_take);
                proof {
                    lemma_packing_take(parts, k as int, running, bytes_parts(queue@));
                }
                Self::push_data_packet(ans, &mut header, next_packet_num, &chunk);
                bytes_remaining = bytes_remaining - (max_bytes_to_take + 20);
                proof {
                    lemma_filled_step(
                        base,
                        stream,
                        first,
                        src_conn_id,
                        dst_conn_id,
                        k,
                        before,
                        header,
                        contents(chunk),
                        ans@,
                    );
                    k = k + 1;
                }
            }
        }
        let ghost mut short: bool = false;
        while !running_payload.is_empty() && bytes_remaining >= 20
            invariant
                parts == bytes_parts(old(queue)@),
                stream == joined(parts),
                base == old(ans)@,
                first == *old(next_packet_num),
                first + packets_in(stream.len()) <= u64::MAX,
                *next_packet_num == first + k,
                !short ==> bytes_remaining == 15200 - 1520 * k,
                !short ==> packing(
                    parts,
                    k as int,
                    contents(running_payload),
                    bytes_parts(queue@),
                ),
                !short ==> queue@.len() == 0 || k == 10,
                short ==> contents(running_payload).len() == 0,
                short ==> queue@.len() == 0,
                short ==> packets_in(stream.len()) == k,
                short ==> leftover(parts, datagram_payload()).len() == 0,
                is_data(header, src_conn_id, dst_conn_id),
                filled(base, stream, first, src_conn_id, dst_conn_id, k, ans@),
            decreases contents(running_payload).len(),
        {
            let max_bytes_to_take: usize = min(
                running_payload.len(),
                min(MAX_BLUEFIN_PAYLOAD_SIZE_BYTES, bytes_remaining - 20),
            );
            let ghost before = ans@;
            let ghost running = contents(running_payload);
            let chunk: Bytes = running_payload.split_to(max_bytes_to_take);
            proof {
                assert(bytes_parts(queue@) =~= Seq::empty());
                if running.len() >= 1500 {
                    lemma_packing_take(parts, k as int, running, bytes_parts(queue@));
                } else {
                    lemma_packing_last(parts, k as int, running);
                    assert(contents(chunk) =~= running);
                    short = true;
                }
            }
            Self::push_data_packet(ans, &mut header, next_packet_num, &chunk);
            bytes_remaining = bytes_remaining - (max_bytes_to_take + 20);
            proof {
                lemma_filled_step(
                    base,
                    stream,
                    first,
                    src_conn_id,
                    dst_conn_id,
                    k,
                    before,
                    header,
                    contents(chunk),
                    ans@,
                );
                k = k + 1;
            }
        }
        proof {
            if !short {
                lemma_packing_end(parts, k as int, contents(running_payload), bytes_parts(queue@));
            } else {
                assert(bytes_parts(queue@) =~= leftover(parts, datagram_payload()));
            }
        }
        if !running_payload.is_empty() {
            let ghost rest = queue@;
            queue.push_front(running_payload);
            proof {
                lemma_bytes_parts_push_front(rest, running_payload);
            }
        }
        ans.len() > 0
    }
}

} // verus!

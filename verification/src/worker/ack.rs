//! Acks, and how they are divided into datagrams.
use std::collections::VecDeque;

use vstd::prelude::*;

use crate::error::ErrorView;
use crate::wire::Serialisable;
use crate::wire::header::{BluefinHeader, BluefinSecurityFields, PacketType, lemma_plain};
use crate::wire::packet::{PacketView, law_stream_round_trip, scan, stream_bytes};
use crate::worker::handle::WriterHandler;
use crate::worker::packing::{MAX_BLUEFIN_BYTES_IN_UDP_DATAGRAM, lemma_stream_push};

verus! {

/// What an ack packet is made of.
#[derive(Clone, Copy)]
pub struct AckData {
    pub base_packet_num: u64,
    pub num_packets_consumed: usize,
}

impl Default for AckData {
    fn default() -> (data: Self)
        ensures
            data == (AckData { base_packet_num: 0, num_packets_consumed: 0 }),
    {
        AckData { base_packet_num: 0, num_packets_consumed: 0 }
    }
}

/// The header of an ack packet. The count is truncated to the field's width.
pub open spec fn ack_header(ack: AckData, src_conn_id: u32, dst_conn_id: u32) -> BluefinHeader {
    BluefinHeader {
        version: 0,
        type_field: PacketType::Ack,
        type_specific_payload: ack.num_packets_consumed as u16,
        security_fields: BluefinSecurityFields::plain(),
        source_connection_id: src_conn_id,
        destination_connection_id: dst_conn_id,
        packet_number: ack.base_packet_num,
    }
}

/// The ack packet for each ack, in order.
pub open spec fn ack_packets(
    acks: Seq<AckData>,
    src_conn_id: u32,
    dst_conn_id: u32,
) -> Seq<PacketView> {
    acks.map_values(
        |ack: AckData|
            PacketView {
                header: ack_header(ack, src_conn_id, dst_conn_id),
                payload: Seq::empty(),
            },
    )
}

/// How many of `queued` acks go into a datagram of which `used` bytes are used
/// already.
pub open spec fn acks_taken(queued: nat, used: nat) -> nat {
    let room: nat = if used <= 15200 {
        ((15200 - used) / 20) as nat
    } else {
        0
    };
    if queued <= room {
        queued
    } else {
        room
    }
}

/// One more ack.
proof fn lemma_ack_step(acks: Seq<AckData>, src_conn_id: u32, dst_conn_id: u32, k: nat)
    requires
        k < acks.len(),
    ensures
        stream_bytes(ack_packets(acks.take(k as int + 1), src_conn_id, dst_conn_id)) == stream_bytes(
            ack_packets(acks.take(k as int), src_conn_id, dst_conn_id),
        ) + ack_header(acks[k as int], src_conn_id, dst_conn_id).wire_bytes(),
{
    let packet = PacketView {
        header: ack_header(acks[k as int], src_conn_id, dst_conn_id),
        payload: Seq::empty(),
    };
    let now = ack_packets(acks.take(k as int), src_conn_id, dst_conn_id);
    lemma_stream_push(now, packet);
    assert(ack_packets(acks.take(k as int + 1), src_conn_id, dst_conn_id) =~= now.push(packet));
    assert(packet.wire() =~= packet.header.wire_bytes());
}

/// The receiver reads from a datagram of acks exactly the acks that were put
/// into it, in order.
pub proof fn law_acks_are_readable(acks: Seq<AckData>, src_conn_id: u32, dst_conn_id: u32)
    ensures
        scan(stream_bytes(ack_packets(acks, src_conn_id, dst_conn_id))) == (
            ack_packets(acks, src_conn_id, dst_conn_id),
            None::<ErrorView>,
        ),
{
    lemma_plain();
    law_stream_round_trip(ack_packets(acks, src_conn_id, dst_conn_id));
}

/// A datagram of acks is within its bound.
pub proof fn law_ack_datagram_is_bounded(acks: Seq<AckData>, src_conn_id: u32, dst_conn_id: u32)
    ensures
        stream_bytes(
            ack_packets(acks.take(acks_taken(acks.len(), 0) as int), src_conn_id, dst_conn_id),
        ).len() <= MAX_BLUEFIN_BYTES_IN_UDP_DATAGRAM,
{
    lemma_ack_bytes_len(acks, src_conn_id, dst_conn_id, acks_taken(acks.len(), 0));
}

pub(crate) proof fn lemma_ack_bytes_len(acks: Seq<AckData>, src_conn_id: u32, dst_conn_id: u32, count: nat)
    requires
        count <= acks.len(),
    ensures
        stream_bytes(ack_packets(acks.take(count as int), src_conn_id, dst_conn_id)).len() == 20
            * count,
    decreases count,
{
    if count == 0 {
        assert(ack_packets(acks.take(0), src_conn_id, dst_conn_id) =~= Seq::empty());
    } else {
        let fewer = (count - 1) as nat;
        lemma_ack_bytes_len(acks, src_conn_id, dst_conn_id, fewer);
        lemma_ack_step(acks, src_conn_id, dst_conn_id, fewer);
        ack_header(acks[fewer as int], src_conn_id, dst_conn_id).lemma_wire_len();
    }
}

impl WriterHandler {
    /// Appends to `bytes` an ack packet for each queued ack, from the front of
    /// the queue, as long as they fit into a datagram. Says whether `bytes` then
    /// holds something to be sent; it does not say so where no ack was queued.
    pub fn consume_acks_into(
        queue: &mut VecDeque<AckData>,
        src_conn_id: u32,
        dst_conn_id: u32,
        bytes: &mut Vec<u8>,
    ) -> (ready: bool)
        ensures
            ready == (old(queue)@.len() > 0 && final(bytes)@.len() > 0),
            final(bytes)@ == old(bytes)@ + stream_bytes(
                ack_packets(
                    old(queue)@.take(acks_taken(old(queue)@.len(), old(bytes)@.len()) as int),
                    src_conn_id,
                    dst_conn_id,
                ),
            ),
            final(queue)@ == old(queue)@.skip(
                acks_taken(old(queue)@.len(), old(bytes)@.len()) as int,
            ),
    {
        let ghost acks = queue@;
        let ghost base = bytes@;
        let ghost mut k: nat = 0;
        proof {
            assert(acks.skip(0) =~= acks);
            assert(ack_packets(acks.take(0), src_conn_id, dst_conn_id) =~= Seq::empty());
            assert(bytes@ =~= base + Seq::<u8>::empty());
        }
        if queue.len() == 0 {
            return false;
        }
        let mut header = BluefinHeader::new(
            src_conn_id,
            dst_conn_id,
            PacketType::Ack,
            0,
            BluefinSecurityFields::default(),
        );
        let total: usize = queue.len();
        while queue.len() > 0
            invariant_except_break
                k <= acks.len(),
                queue@ == acks.skip(k as int),
                total == acks.len(),
                bytes@.len() == base.len() + 20 * k,
                k > 0 ==> bytes@.len() <= 15200,
                bytes@ == base + stream_bytes(
                    ack_packets(acks.take(k as int), src_conn_id, dst_conn_id),
                ),
                header == ack_header(
                    AckData {
                        base_packet_num: header.packet_number,
                        num_packets_consumed: header.type_specific_payload as usize,
                    },
                    src_conn_id,
                    dst_conn_id,
                ),
            ensures
                k == acks_taken(acks.len(), base.len()),
                queue@ == acks.skip(k as int),
                bytes@ == base + stream_bytes(
                    ack_packets(acks.take(k as int), src_conn_id, dst_conn_id),
                ),
            decreases queue@.len(),
        {
            if bytes.len() > MAX_BLUEFIN_BYTES_IN_UDP_DATAGRAM - 20 {
                break;
            }
            let ghost before = bytes@;
            let ack_data: AckData = queue.pop_front().unwrap();
            header.with_packet_number(ack_data.base_packet_num);
            header.type_specific_payload = ack_data.num_packets_consumed as u16;
            Self::serialize_packet_direct(bytes, &header, &[]);
            proof {
                lemma_ack_step(acks, src_conn_id, dst_conn_id, k);
                header.lemma_wire_len();
                assert(acks.skip(k as int)[0] == acks[k as int]);
                assert(queue@ =~= acks.skip(k as int + 1));
                assert(bytes@ =~= base + stream_bytes(
                    ack_packets(acks.take(k as int + 1), src_conn_id, dst_conn_id),
                ));
                k = k + 1;
            }
        }
        bytes.len() > 0
    }

    /// Takes the acks of the next datagram out of the queue and returns the
    /// datagram, or nothing where no ack is queued.
    pub fn consume_acks(
        queue: &mut VecDeque<AckData>,
        src_conn_id: u32,
        dst_conn_id: u32,
    ) -> (datagram: Option<Vec<u8>>)
        ensures
            match datagram {
                Some(bytes) => {
                    &&& old(queue)@.len() > 0
                    &&& bytes@ == stream_bytes(
                        ack_packets(
                            old(queue)@.take(acks_taken(old(queue)@.len(), 0) as int),
                            src_conn_id,
                            dst_conn_id,
                        ),
                    )
                },
                None => old(queue)@.len() == 0,
            },
            final(queue)@ == old(queue)@.skip(acks_taken(old(queue)@.len(), 0) as int),
    {
        let ghost acks = queue@;
        let ghost mut k: nat = 0;
        let mut bytes: Vec<u8> = Vec::with_capacity(MAX_BLUEFIN_BYTES_IN_UDP_DATAGRAM);
        let security_fields = BluefinSecurityFields::new(false, 0x0);
        let mut header = BluefinHeader::new(
            src_conn_id,
            dst_conn_id,
            PacketType::Ack,
            0,
            security_fields,
        );
        proof {
            assert(acks.skip(0) =~= acks);
            assert(ack_packets(acks.take(0), src_conn_id, dst_conn_id) =~= Seq::empty());
            assert(bytes@ =~= Seq::<u8>::empty());
        }
        while queue.len() > 0 && bytes.len() <= MAX_BLUEFIN_BYTES_IN_UDP_DATAGRAM
            invariant_except_break
                k <= acks.len(),
                queue@ == acks.skip(k as int),
                bytes@.len() == 20 * k,
                bytes@.len() <= 15200,
                bytes@ == stream_bytes(
                    ack_packets(acks.take(k as int), src_conn_id, dst_conn_id),
                ),
                header == ack_header(
                    AckData {
                        base_packet_num: header.packet_number,
                        num_packets_consumed: header.type_specific_payload as usize,
                    },
                    src_conn_id,
                    dst_conn_id,
                ),
            ensures
                k == acks_taken(acks.len(), 0),
                bytes@.len() == 20 * k,
                queue@ == acks.skip(k as int),
                bytes@ == stream_bytes(
                    ack_packets(acks.take(k as int), src_conn_id, dst_conn_id),
                ),
            decreases queue@.len(),
        {
            let data: AckData = queue.pop_front().unwrap();
            header.packet_number = data.base_packet_num;
            header.type_specific_payload = data.num_packets_consumed as u16;
            if bytes.len() + 20 <= MAX_BLUEFIN_BYTES_IN_UDP_DATAGRAM {
                Self::serialize_packet_direct(&mut bytes, &header, &[]);
                proof {
                    lemma_ack_step(acks, src_conn_id, dst_conn_id, k);
                    header.lemma_wire_len();
                    assert(acks.skip(k as int)[0] == acks[k as int]);
                    assert(queue@ =~= acks.skip(k as int + 1));
                    assert(bytes@ =~= stream_bytes(
                        ack_packets(acks.take(k as int + 1), src_conn_id, dst_conn_id),
                    ));
                    k = k + 1;
                }
            } else {
                queue.push_front(data);
                assert(queue@ =~= acks.skip(k as int));
                break;
            }
        }
        if bytes.len() == 0 {
            return None;
        }
        Some(bytes)
    }
}

/// As many acks go into a datagram as fit behind what it holds already, and no more:
/// where one is left over there is no room for it.
pub proof fn law_acks_fill_a_datagram(queued: nat, used: nat)
    requires
        used <= 15200,
    ensures
        acks_taken(queued, used) <= queued,
        used + 20 * acks_taken(queued, used) <= 15200,
        acks_taken(queued, used) < queued ==> used + 20 * (acks_taken(queued, used) + 1) > 15200,
{
}

} // verus!

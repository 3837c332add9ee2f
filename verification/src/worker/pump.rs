//! The two tasks of a writer: one makes datagrams of the data that callers sent,
//! the other of the acks.
use std::collections::VecDeque;

use bytes::Bytes;
use vstd::prelude::*;

use crate::error::ErrorView;
use crate::net::DiagnosticEvent;
use crate::shared_bytes::contents;
use crate::wire::Extract;
use crate::wire::packet::{PacketView, scan, stream_bytes};
use crate::worker::ack::{AckData, ack_packets, acks_taken, lemma_ack_bytes_len};
use crate::worker::handle::WriterHandler;
use crate::worker::packing::{
    MAX_BLUEFIN_BYTES_IN_UDP_DATAGRAM, data_packets, datagram_payload, joined,
    law_datagram_is_bounded, law_datagram_is_readable, law_no_byte_is_lost, leftover,
    lemma_datagram_len, lemma_joined_leftover, packets_in, payloads,
};
use crate::worker::writer::{bytes_parts, lemma_filled_len, mergeable};

verus! {

/// How many datagrams are made before more work is asked for.
pub const DATAGRAMS_PER_BATCH: usize = 12;

/// How much work is asked for at once.
pub const RECEIVE_LIMIT: usize = 20;

/// The datagrams that are made of a queue, `limit` at most.
pub open spec fn batch(
    parts: Seq<Seq<u8>>,
    first_number: u64,
    src_conn_id: u32,
    dst_conn_id: u32,
    limit: nat,
) -> Seq<Seq<PacketView>>
    decreases limit,
{
    if limit == 0 || joined(parts).len() == 0 {
        Seq::empty()
    } else {
        seq![data_packets(joined(parts), first_number, src_conn_id, dst_conn_id)] + batch(
            leftover(parts, datagram_payload()),
            (first_number + packets_in(joined(parts).len())) as u64,
            src_conn_id,
            dst_conn_id,
            (limit - 1) as nat,
        )
    }
}

/// What stays queued after `limit` datagrams.
pub open spec fn batch_rest(parts: Seq<Seq<u8>>, limit: nat) -> Seq<Seq<u8>>
    decreases limit,
{
    if limit == 0 {
        parts
    } else if joined(parts).len() == 0 {
        Seq::empty()
    } else {
        batch_rest(leftover(parts, datagram_payload()), (limit - 1) as nat)
    }
}

/// How many packets `limit` datagrams have.
pub open spec fn batch_packets(parts: Seq<Seq<u8>>, limit: nat) -> nat
    decreases limit,
{
    if limit == 0 || joined(parts).len() == 0 {
        0
    } else {
        packets_in(joined(parts).len()) + batch_packets(
            leftover(parts, datagram_payload()),
            (limit - 1) as nat,
        )
    }
}

/// The bytes of each datagram.
pub open spec fn datagram_bytes(datagrams: Seq<Vec<u8>>) -> Seq<Seq<u8>> {
    datagrams.map_values(|datagram: Vec<u8>| datagram@)
}

/// The bytes of each datagram.
pub open spec fn batch_bytes(datagrams: Seq<Seq<PacketView>>) -> Seq<Seq<u8>> {
    datagrams.map_values(|packets: Seq<PacketView>| stream_bytes(packets))
}

/// How many bytes of payload each datagram has.
pub open spec fn batch_loads(datagrams: Seq<Seq<PacketView>>) -> Seq<usize> {
    datagrams.map_values(|packets: Seq<PacketView>| joined(payloads(packets)).len() as usize)
}

/// The payloads of all packets of all datagrams, one after the other.
pub open spec fn batch_payload(datagrams: Seq<Seq<PacketView>>) -> Seq<u8>
    decreases datagrams.len(),
{
    if datagrams.len() == 0 {
        Seq::empty()
    } else {
        joined(payloads(datagrams[0])) + batch_payload(datagrams.skip(1))
    }
}

/// One more datagram.
proof fn lemma_batch_payload_push(datagrams: Seq<Seq<PacketView>>, packets: Seq<PacketView>)
    ensures
        batch_payload(datagrams.push(packets)).len() == batch_payload(datagrams).len() + joined(
            payloads(packets),
        ).len(),
    decreases datagrams.len(),
{
    let more = datagrams.push(packets);
    if datagrams.len() == 0 {
        reveal_with_fuel(batch_payload, 2);
        assert(more.skip(1) =~= Seq::empty());
    } else {
        assert(more.skip(1) =~= datagrams.skip(1).push(packets));
        lemma_batch_payload_push(datagrams.skip(1), packets);
    }
}

/// The bytes in the datagrams and what stays queued are the queue: no byte is
/// lost, doubled or moved, however many datagrams are made.
pub proof fn law_batch_loses_no_byte(
    parts: Seq<Seq<u8>>,
    first_number: u64,
    src_conn_id: u32,
    dst_conn_id: u32,
    limit: nat,
)
    ensures
        batch_payload(batch(parts, first_number, src_conn_id, dst_conn_id, limit)) + joined(
            batch_rest(parts, limit),
        ) == joined(parts),
    decreases limit,
{
    let datagrams = batch(parts, first_number, src_conn_id, dst_conn_id, limit);
    if limit == 0 || joined(parts).len() == 0 {
        assert(Seq::<u8>::empty() + joined(parts) =~= joined(parts));
        assert(joined(parts).len() == 0 ==> joined(parts) =~= Seq::empty());
    } else {
        let rest = leftover(parts, datagram_payload());
        let next = (first_number + packets_in(joined(parts).len())) as u64;
        law_no_byte_is_lost(parts, first_number, src_conn_id, dst_conn_id);
        law_batch_loses_no_byte(rest, next, src_conn_id, dst_conn_id, (limit - 1) as nat);
        let later = batch(rest, next, src_conn_id, dst_conn_id, (limit - 1) as nat);
        assert(datagrams.skip(1) =~= later);
        assert(datagrams[0] == data_packets(
            joined(parts),
            first_number,
            src_conn_id,
            dst_conn_id,
        ));
        assert(batch_payload(datagrams) + joined(batch_rest(parts, limit)) =~= joined(
            payloads(datagrams[0]),
        ) + (batch_payload(later) + joined(batch_rest(parts, limit))));
    }
}

/// Every packet of a batch has the number after the packet before it.
pub open spec fn numbered_from(datagrams: Seq<Seq<PacketView>>, first_number: int) -> bool
    decreases datagrams.len(),
{
    datagrams.len() == 0 || {
        &&& forall|i: int|
            0 <= i < datagrams[0].len() ==> (#[trigger] datagrams[0][i]).header.packet_number
                == first_number + i
        &&& numbered_from(datagrams.skip(1), first_number + datagrams[0].len())
    }
}

/// The packets of a batch are numbered without a gap.
pub proof fn law_batch_is_numbered_without_gaps(
    parts: Seq<Seq<u8>>,
    first_number: u64,
    src_conn_id: u32,
    dst_conn_id: u32,
    limit: nat,
)
    requires
        first_number + batch_packets(parts, limit) <= u64::MAX,
    ensures
        numbered_from(
            batch(parts, first_number, src_conn_id, dst_conn_id, limit),
            first_number as int,
        ),
    decreases limit,
{
    let datagrams = batch(parts, first_number, src_conn_id, dst_conn_id, limit);
    if limit > 0 && joined(parts).len() > 0 {
        let rest = leftover(parts, datagram_payload());
        let next = (first_number + packets_in(joined(parts).len())) as u64;
        law_batch_is_numbered_without_gaps(
            rest,
            next,
            src_conn_id,
            dst_conn_id,
            (limit - 1) as nat,
        );
        assert(datagrams.skip(1) =~= batch(
            rest,
            next,
            src_conn_id,
            dst_conn_id,
            (limit - 1) as nat,
        ));
    }
}

proof fn lemma_leftover_bounded(parts: Seq<Seq<u8>>, count: int, bound: int)
    requires
        count >= 0,
        forall|i: int| 0 <= i < parts.len() ==> (#[trigger] parts[i]).len() <= bound,
    ensures
        forall|i: int|
            0 <= i < leftover(parts, count).len() ==> (#[trigger] leftover(parts, count)[i]).len()
                <= bound,
    decreases parts.len(),
{
    let left = leftover(parts, count);
    if parts.len() == 0 || count <= 0 {
        assert(left == parts);
    } else if parts[0].len() > count {
        assert forall|i: int| 0 <= i < left.len() implies (#[trigger] left[i]).len() <= bound by {
            if i > 0 {
                assert(left[i] == parts[i]);
            } else {
                assert(parts[0].len() <= bound);
            }
        }
    } else {
        let rest = parts.skip(1);
        assert forall|i: int| 0 <= i < rest.len() implies (#[trigger] rest[i]).len() <= bound by {
            assert(rest[i] == parts[i + 1]);
        }
        lemma_leftover_bounded(rest, count - parts[0].len(), bound);
        assert(left == leftover(rest, count - parts[0].len()));
    }
}

/// The payloads that stay queued can still be merged.
proof fn lemma_still_mergeable(before: Seq<Bytes>, after: Seq<Bytes>)
    requires
        mergeable(before),
        bytes_parts(after) == leftover(bytes_parts(before), datagram_payload()),
    ensures
        mergeable(after),
{
    let bound = isize::MAX - 1500;
    assert forall|i: int| 0 <= i < bytes_parts(before).len() implies (
    #[trigger] bytes_parts(before)[i]).len() <= bound by {
        assert(bytes_parts(before)[i] == contents(before[i]));
    }
    lemma_leftover_bounded(bytes_parts(before), datagram_payload(), bound);
    assert forall|i: int| 0 <= i < after.len() implies contents(#[trigger] after[i]).len() + 1500
        <= isize::MAX by {
        assert(bytes_parts(after)[i] == contents(after[i]));
    }
}

/// A queue without bytes is emptied by the next datagram.
proof fn lemma_empty_leftover(parts: Seq<Seq<u8>>)
    requires
        joined(parts).len() == 0,
    ensures
        leftover(parts, datagram_payload()).len() == 0,
    decreases parts.len(),
{
    if parts.len() > 0 {
        assert(parts[0].len() == 0);
        assert(joined(parts.skip(1)).len() == 0);
        lemma_empty_leftover(parts.skip(1));
    }
}

/// The task that makes datagrams of the data that callers sent.
pub struct DataPump {
    queue: VecDeque<Bytes>,
    next_packet_num: u64,
    src_conn_id: u32,
    dst_conn_id: u32,
}

/// Datagrams that are ready to be sent.
pub struct Batch {
    pub datagrams: Vec<Vec<u8>>,
    /// How many bytes of payload each datagram has. They are on the wire once it is.
    pub loads: Vec<usize>,
    /// What a listener is told of them.
    pub sent: Option<DiagnosticEvent>,
}

/// The mathematical value of a [`DataPump`].
#[verifier::ext_equal]
pub ghost struct DataPumpModel {
    pub queued: Seq<Seq<u8>>,
    pub next_packet_num: u64,
    pub src_conn_id: u32,
    pub dst_conn_id: u32,
}

impl DataPumpModel {
    /// More is queued.
    pub open spec fn on_receive(self, parts: Seq<Seq<u8>>) -> DataPumpModel {
        DataPumpModel { queued: self.queued + parts, ..self }
    }

    /// The next number is taken for a packet that is sent apart from the data.
    pub open spec fn on_reserved(self) -> DataPumpModel {
        DataPumpModel { next_packet_num: (self.next_packet_num + 1) as u64, ..self }
    }

    /// What a listener is told of the next datagrams.
    pub open spec fn batch_event(self) -> Option<DiagnosticEvent> {
        if self.next_batch().len() == 0 {
            None
        } else {
            Some(
                DiagnosticEvent::DataSent {
                    start_packet_num: self.next_packet_num,
                    num_packets: batch_packets(self.queued, DATAGRAMS_PER_BATCH as nat) as u64,
                    num_bytes: batch_payload(self.next_batch()).len() as usize,
                },
            )
        }
    }

    /// The datagrams that are made next.
    pub open spec fn next_batch(self) -> Seq<Seq<PacketView>> {
        batch(
            self.queued,
            self.next_packet_num,
            self.src_conn_id,
            self.dst_conn_id,
            DATAGRAMS_PER_BATCH as nat,
        )
    }

    /// The next datagrams are made.
    pub open spec fn on_batch(self) -> DataPumpModel {
        DataPumpModel {
            queued: batch_rest(self.queued, DATAGRAMS_PER_BATCH as nat),
            next_packet_num: (self.next_packet_num + batch_packets(
                self.queued,
                DATAGRAMS_PER_BATCH as nat,
            )) as u64,
            ..self
        }
    }
}

impl View for DataPump {
    type V = DataPumpModel;

    closed spec fn view(&self) -> DataPumpModel {
        DataPumpModel {
            queued: bytes_parts(self.queue@),
            next_packet_num: self.next_packet_num,
            src_conn_id: self.src_conn_id,
            dst_conn_id: self.dst_conn_id,
        }
    }
}

impl DataPump {
    /// Each queued payload is short enough to be merged with another.
    pub closed spec fn valid(self) -> bool {
        mergeable(self.queue@)
    }

    pub fn new(next_packet_num: u64, src_conn_id: u32, dst_conn_id: u32) -> (pump: Self)
        ensures
            pump.valid(),
            pump@ == (DataPumpModel {
                queued: Seq::empty(),
                next_packet_num,
                src_conn_id,
                dst_conn_id,
            }),
    {
        let pump = DataPump {
            queue: VecDeque::with_capacity(64),
            next_packet_num,
            src_conn_id,
            dst_conn_id,
        };
        assert(bytes_parts(pump.queue@) =~= Seq::empty());
        pump
    }

    /// The number of the next packet.
    pub fn next_packet_num(&self) -> (number: u64)
        ensures
            number == self@.next_packet_num,
    {
        self.next_packet_num
    }

    /// Takes a packet number, for a packet that is sent apart from the data.
    pub fn reserve_close_packet_num(&mut self) -> (number: u64)
        requires
            old(self).valid(),
            old(self)@.next_packet_num < u64::MAX,
        ensures
            final(self).valid(),
            number == old(self)@.next_packet_num,
            final(self)@ == (DataPumpModel { next_packet_num: (number + 1) as u64, ..old(self)@ }),
            final(self)@ == old(self)@.on_reserved(),
    {
        let number: u64 = self.next_packet_num;
        self.next_packet_num = number + 1;
        number
    }

    /// Queues what was received, and leaves empty payloads behind.
    pub fn receive(&mut self, received: &mut Vec<Bytes>)
        requires
            old(self).valid(),
            mergeable(old(received)@),
        ensures
            final(self).valid(),
            final(self)@ == old(self)@.on_receive(bytes_parts(old(received)@)),
            final(received)@.len() == old(received)@.len(),
            forall|i: int|
                0 <= i < final(received)@.len() ==> contents(#[trigger] final(received)@[i]).len()
                    == 0,
    {
        let ghost before = received@;
        let ghost queued = self.queue@;
        let size: usize = received.len();
        let mut i: usize = 0;
        assert(bytes_parts(queued) + bytes_parts(before.take(0)) =~= bytes_parts(queued));
        while i < size
            invariant
                i <= size,
                size == before.len(),
                received@.len() == size,
                mergeable(before),
                mergeable(self.queue@),
                self.queue@ == queued + before.take(i as int),
                self.next_packet_num == old(self).next_packet_num,
                self.src_conn_id == old(self).src_conn_id,
                self.dst_conn_id == old(self).dst_conn_id,
                forall|j: int| 0 <= j < i ==> contents(#[trigger] received@[j]).len() == 0,
                forall|j: int| i <= j < size ==> #[trigger] received@[j] == before[j],
            decreases size - i,
        {
            let payload: Bytes = received[i].extract();
            self.queue.push_back(payload);
            assert(before.take(i + 1) =~= before.take(i as int).push(before[i as int]));
            assert(self.queue@ =~= queued + before.take(i + 1));
            i = i + 1;
        }
        assert(before.take(size as int) =~= before);
        assert(bytes_parts(self.queue@) =~= bytes_parts(queued) + bytes_parts(before));
    }

    /// Makes the next datagrams.
    pub fn make_datagrams(&mut self) -> (batch_made: Batch)
        requires
            old(self).valid(),
            old(self)@.next_packet_num + batch_packets(
                old(self)@.queued,
                DATAGRAMS_PER_BATCH as nat,
            ) <= u64::MAX,
        ensures
            final(self).valid(),
            datagram_bytes(batch_made.datagrams@) == batch_bytes(old(self)@.next_batch()),
            batch_made.sent == if old(self)@.next_batch().len() == 0 {
                None
            } else {
                Some(
                    DiagnosticEvent::DataSent {
                        start_packet_num: old(self)@.next_packet_num,
                        num_packets: batch_packets(
                            old(self)@.queued,
                            DATAGRAMS_PER_BATCH as nat,
                        ) as u64,
                        num_bytes: batch_payload(old(self)@.next_batch()).len() as usize,
                    },
                )
            },
            batch_made.sent == old(self)@.batch_event(),
            batch_made.loads@ == batch_loads(old(self)@.next_batch()),
            final(self)@ == old(self)@.on_batch(),
    {
        let ghost start = self@;
        let start_packet_num: u64 = self.next_packet_num;
        let mut num_bytes: usize = 0;
        let mut datagrams: Vec<Vec<u8>> = Vec::new();
        let mut loads: Vec<usize> = Vec::new();
        let mut i: usize = 0;
        let ghost all = batch(
            start.queued,
            start.next_packet_num,
            start.src_conn_id,
            start.dst_conn_id,
            12,
        );
        assert(all =~= Seq::<Seq<PacketView>>::empty() + all);
        assert(datagram_bytes(datagrams@) =~= batch_bytes(Seq::empty()));
        assert(loads@ =~= batch_loads(Seq::empty()));
        let ghost mut made: Seq<Seq<PacketView>> = Seq::empty();
        while i < DATAGRAMS_PER_BATCH
            invariant_except_break
                i <= 12,
                self.valid(),
                self@.src_conn_id == start.src_conn_id,
                self@.dst_conn_id == start.dst_conn_id,
                datagram_bytes(datagrams@) == batch_bytes(made),
                loads@ == batch_loads(made),
                num_bytes == batch_payload(made).len(),
                num_bytes <= 15200 * i,
                datagrams@.len() == i,
                all == made + batch(
                    self@.queued,
                    self@.next_packet_num,
                    start.src_conn_id,
                    start.dst_conn_id,
                    (12 - i) as nat,
                ),
                batch_rest(start.queued, 12) == batch_rest(self@.queued, (12 - i) as nat),
                self@.next_packet_num + batch_packets(self@.queued, (12 - i) as nat) <= u64::MAX,
                start.next_packet_num + batch_packets(start.queued, 12) == self@.next_packet_num
                    + batch_packets(self@.queued, (12 - i) as nat),
            ensures
                self.valid(),
                self@.src_conn_id == start.src_conn_id,
                self@.dst_conn_id == start.dst_conn_id,
                datagram_bytes(datagrams@) == batch_bytes(all),
                loads@ == batch_loads(all),
                num_bytes == batch_payload(all).len(),
                self@.queued == batch_rest(start.queued, 12),
                self@.next_packet_num == start.next_packet_num + batch_packets(start.queued, 12),
            decreases 12 - i,
        {
            let ghost now = self@;
            let ghost queue = self.queue@;
            let before_num: u64 = self.next_packet_num;
            let mut datagram: Vec<u8> = Vec::with_capacity(MAX_BLUEFIN_BYTES_IN_UDP_DATAGRAM);
            let ready: bool = WriterHandler::consume_data_into(
                &mut self.queue,
                &mut self.next_packet_num,
                self.src_conn_id,
                self.dst_conn_id,
                &mut datagram,
            );
            let ghost stream = joined(now.queued);
            let ghost packets = data_packets(
                stream,
                now.next_packet_num,
                now.src_conn_id,
                now.dst_conn_id,
            );
            proof {
                lemma_still_mergeable(queue, self.queue@);
                assert(datagram@ =~= Seq::<u8>::empty() + stream_bytes(packets));
                assert(datagram@ =~= stream_bytes(packets));
                lemma_filled_len(
                    Seq::empty(),
                    stream,
                    now.next_packet_num,
                    now.src_conn_id,
                    now.dst_conn_id,
                    packets_in(stream.len()),
                    datagram@,
                );
            }
            if !ready {
                proof {
                    if queue.len() == 0 {
                        assert(now.queued =~= Seq::empty());
                    }
                    lemma_empty_leftover(now.queued);
                    assert(self@.queued =~= Seq::empty());
                    assert(all =~= made);
                }
                break;
            }
            let ghost so_far = datagrams@;
            let packets_made: usize = (self.next_packet_num - before_num) as usize;
            proof {
                lemma_datagram_len(
                    stream,
                    now.next_packet_num,
                    now.src_conn_id,
                    now.dst_conn_id,
                );
                law_datagram_is_bounded(
                    stream,
                    now.next_packet_num,
                    now.src_conn_id,
                    now.dst_conn_id,
                );
                lemma_batch_payload_push(made, packets);
            }
            let load: usize = datagram.len() - 20 * packets_made;
            num_bytes = num_bytes + load;
            datagrams.push(datagram);
            loads.push(load);
            proof {
                let later = batch(
                    self@.queued,
                    self@.next_packet_num,
                    start.src_conn_id,
                    start.dst_conn_id,
                    (12 - i - 1) as nat,
                );
                assert(made + (seq![packets] + later) =~= made.push(packets) + later);
                assert(datagram_bytes(datagrams@) =~= datagram_bytes(so_far).push(datagram@));
                assert(batch_bytes(made.push(packets)) =~= batch_bytes(made).push(datagram@));
                assert(batch_loads(made.push(packets)) =~= batch_loads(made).push(load));
                made = made.push(packets);
            }
            i = i + 1;
        }
        let mut sent: Option<DiagnosticEvent> = None;
        if datagrams.len() > 0 {
            sent = Some(
                DiagnosticEvent::DataSent {
                    start_packet_num,
                    num_packets: self.next_packet_num - start_packet_num,
                    num_bytes,
                },
            );
        }
        assert(datagram_bytes(datagrams@).len() == batch_bytes(all).len());
        Batch { datagrams, loads, sent }
    }
}

/// What the task that sends acks does next.
pub enum AckStep {
    /// Try to send the datagram, which was refused before. Where it is refused
    /// again, wait until the socket is writable.
    Retry(Vec<u8>),
    /// Try to send the datagram.
    Send(Vec<u8>),
    /// Wait for more acks.
    Receive,
}

/// The mathematical value of an [`AckStep`].
pub ghost enum AckStepView {
    Retry(Seq<u8>),
    Send(Seq<u8>),
    Receive,
}

impl View for AckStep {
    type V = AckStepView;

    open spec fn view(&self) -> AckStepView {
        match *self {
            AckStep::Retry(datagram) => AckStepView::Retry(datagram@),
            AckStep::Send(datagram) => AckStepView::Send(datagram@),
            AckStep::Receive => AckStepView::Receive,
        }
    }
}

/// The task that makes datagrams of acks.
pub struct AckPump {
    queue: VecDeque<AckData>,
    refused: Option<Vec<u8>>,
    budget: usize,
    src_conn_id: u32,
    dst_conn_id: u32,
}

/// The mathematical value of an [`AckPump`].
#[verifier::ext_equal]
pub ghost struct AckPumpModel {
    /// The acks that no datagram was made of yet.
    pub queued: Seq<AckData>,
    /// The datagram that the socket refused.
    pub refused: Option<Seq<u8>>,
    /// How many datagrams may be made before more acks are asked for.
    pub budget: nat,
    pub src_conn_id: u32,
    pub dst_conn_id: u32,
}

impl View for AckPump {
    type V = AckPumpModel;

    closed spec fn view(&self) -> AckPumpModel {
        AckPumpModel {
            queued: self.queue@,
            refused: match self.refused {
                Some(datagram) => Some(datagram@),
                None => None,
            },
            budget: self.budget as nat,
            src_conn_id: self.src_conn_id,
            dst_conn_id: self.dst_conn_id,
        }
    }
}

impl AckPumpModel {
    pub open spec fn fresh(src_conn_id: u32, dst_conn_id: u32) -> AckPumpModel {
        AckPumpModel { queued: Seq::empty(), refused: None, budget: 0, src_conn_id, dst_conn_id }
    }

    /// The acks that go into the next datagram.
    pub open spec fn next_acks(self) -> Seq<AckData> {
        self.queued.take(acks_taken(self.queued.len(), 0) as int)
    }

    /// What is done next, and the state after that.
    pub open spec fn next(self) -> (AckStepView, AckPumpModel) {
        if self.refused is Some {
            (
                AckStepView::Retry(self.refused->0),
                AckPumpModel { refused: None, ..self },
            )
        } else if self.budget == 0 {
            (AckStepView::Receive, self)
        } else if self.queued.len() == 0 {
            (AckStepView::Receive, AckPumpModel { budget: 0, ..self })
        } else {
            (
                AckStepView::Send(
                    stream_bytes(
                        ack_packets(self.next_acks(), self.src_conn_id, self.dst_conn_id),
                    ),
                ),
                AckPumpModel {
                    queued: self.queued.skip(self.next_acks().len() as int),
                    budget: (self.budget - 1) as nat,
                    ..self
                },
            )
        }
    }

    /// The socket refused the datagram.
    pub open spec fn on_refused(self, datagram: Seq<u8>) -> AckPumpModel {
        AckPumpModel { refused: Some(datagram), budget: 0, ..self }
    }

    /// More acks came.
    pub open spec fn on_received(self, acks: Seq<AckData>) -> AckPumpModel {
        if acks.len() == 0 {
            self
        } else {
            AckPumpModel {
                queued: self.queued + acks,
                budget: DATAGRAMS_PER_BATCH as nat,
                ..self
            }
        }
    }
}

impl AckPump {
    pub fn new(src_conn_id: u32, dst_conn_id: u32) -> (pump: Self)
        ensures
            pump@ == AckPumpModel::fresh(src_conn_id, dst_conn_id),
    {
        AckPump {
            queue: VecDeque::with_capacity(64),
            refused: None,
            budget: 0,
            src_conn_id,
            dst_conn_id,
        }
    }

    /// Says what to do next.
    pub fn next(&mut self) -> (step: AckStep)
        ensures
            step@ == old(self)@.next().0,
            final(self)@ == old(self)@.next().1,
    {
        let ghost start = self@;
        let refused: Option<Vec<u8>> = self.refused.take();
        match refused {
            Some(datagram) => AckStep::Retry(datagram),
            None => {
                if self.budget == 0 {
                    return AckStep::Receive;
                }
                let mut datagram: Vec<u8> = Vec::with_capacity(MAX_BLUEFIN_BYTES_IN_UDP_DATAGRAM);
                let ready: bool = WriterHandler::consume_acks_into(
                    &mut self.queue,
                    self.src_conn_id,
                    self.dst_conn_id,
                    &mut datagram,
                );
                proof {
                    lemma_ack_bytes_len(
                        start.queued,
                        start.src_conn_id,
                        start.dst_conn_id,
                        acks_taken(start.queued.len(), 0),
                    );
                    assert(datagram@ =~= stream_bytes(
                        ack_packets(start.next_acks(), start.src_conn_id, start.dst_conn_id),
                    ));
                    assert(start.queued.skip(0) =~= start.queued);
                }
                if !ready {
                    self.budget = 0;
                    return AckStep::Receive;
                }
                self.budget = self.budget - 1;
                AckStep::Send(datagram)
            },
        }
    }

    /// Takes back a datagram that the socket refused.
    pub fn refused(&mut self, datagram: Vec<u8>)
        ensures
            final(self)@ == old(self)@.on_refused(datagram@),
    {
        self.refused = Some(datagram);
        self.budget = 0;
    }

    /// Queues what was received.
    pub fn receive(&mut self, received: &Vec<AckData>)
        ensures
            final(self)@ == old(self)@.on_received(received@),
    {
        let size: usize = received.len();
        if size == 0 {
            return;
        }
        let ghost start = self@;
        let mut i: usize = 0;
        assert(start.queued + received@.take(0) =~= start.queued);
        while i < size
            invariant
                i <= size,
                size == received@.len(),
                self@ == (AckPumpModel { queued: start.queued + received@.take(i as int), ..start }),
            decreases size - i,
        {
            let ghost before = self@;
            self.queue.push_back(received[i]);
            assert(received@.take(i + 1) =~= received@.take(i as int).push(received@[i as int]));
            assert(self@.queued =~= start.queued + received@.take(i + 1));
            i = i + 1;
        }
        assert(received@.take(size as int) =~= received@);
        self.budget = DATAGRAMS_PER_BATCH;
    }
}

/// A datagram of acks that the socket refused is tried again, unchanged, before
/// anything else is sent or received, and until then no ack leaves the queue.
pub proof fn law_refused_acks_come_first(pump: AckPumpModel, datagram: Seq<u8>)
    ensures
        pump.on_refused(datagram).next().0 == AckStepView::Retry(datagram),
        pump.on_refused(datagram).next().1 == (AckPumpModel { refused: None, budget: 0, ..pump }),
{
}

/// Each step either sends the acks at the front of the queue, which are then
/// gone from it, or leaves the queue alone: no ack is lost, doubled or moved.
pub proof fn law_no_ack_is_lost(pump: AckPumpModel)
    ensures
        match pump.next().0 {
            AckStepView::Send(datagram) => {
                &&& datagram == stream_bytes(
                    ack_packets(pump.next_acks(), pump.src_conn_id, pump.dst_conn_id),
                )
                &&& pump.next_acks() + pump.next().1.queued == pump.queued
                &&& pump.next_acks().len() > 0
            },
            _ => pump.next().1.queued == pump.queued,
        },
{
    assert(pump.next_acks() + pump.queued.skip(pump.next_acks().len() as int) =~= pump.queued);
}

/// A batch is as large as is allowed: it has so many datagrams that either no byte
/// stays queued or `limit` datagrams were made, and only the last of them can be one
/// that is not full.
pub proof fn law_batch_is_as_large_as_allowed(
    parts: Seq<Seq<u8>>,
    first_number: u64,
    src_conn_id: u32,
    dst_conn_id: u32,
    limit: nat,
)
    ensures
        ({
            let made = batch(parts, first_number, src_conn_id, dst_conn_id, limit);
            &&& made.len() <= limit
            &&& made.len() < limit ==> joined(batch_rest(parts, limit)).len() == 0
            &&& forall|i: int|
                0 <= i < made.len() - 1 ==> joined(payloads(#[trigger] made[i])).len() == 15000
            &&& forall|i: int|
                0 <= i < made.len() ==> 0 < joined(payloads(#[trigger] made[i])).len() <= 15000
        }),
    decreases limit,
{
    let made = batch(parts, first_number, src_conn_id, dst_conn_id, limit);
    if limit > 0 && joined(parts).len() > 0 {
        let rest = leftover(parts, datagram_payload());
        let next = (first_number + packets_in(joined(parts).len())) as u64;
        let later = batch(rest, next, src_conn_id, dst_conn_id, (limit - 1) as nat);
        law_batch_is_as_large_as_allowed(
            rest,
            next,
            src_conn_id,
            dst_conn_id,
            (limit - 1) as nat,
        );
        law_no_byte_is_lost(parts, first_number, src_conn_id, dst_conn_id);
        lemma_joined_leftover(parts, 15000);
        assert(made[0] == data_packets(joined(parts), first_number, src_conn_id, dst_conn_id));
        assert forall|i: int| 0 <= i < made.len() implies (0 < joined(
            payloads(#[trigger] made[i]),
        ).len() <= 15000 && (i < made.len() - 1 ==> joined(payloads(made[i])).len() == 15000)) by {
            if i > 0 {
                assert(made[i] == later[i - 1]);
            } else if made.len() > 1 {
                assert(joined(rest).len() > 0);
            }
        }
    }
}

/// What is received is queued behind what waits, and the numbers go on where they were:
/// the next batch begins with the number after the last packet of this one, under the
/// same ids. Twelve datagrams are made at a time.
pub proof fn law_pump_goes_on(pump: DataPumpModel, parts: Seq<Seq<u8>>, more: Seq<Seq<u8>>)
    requires
        pump.next_packet_num + batch_packets(pump.queued, 12) <= u64::MAX,
    ensures
        pump.on_receive(parts).queued == pump.queued + parts,
        pump.on_receive(parts).on_receive(more).queued == pump.queued + (parts + more),
        pump.on_receive(parts).next_packet_num == pump.next_packet_num,
        pump.on_batch().next_packet_num == pump.next_packet_num + batch_packets(pump.queued, 12),
        pump.on_batch().src_conn_id == pump.src_conn_id,
        pump.on_batch().dst_conn_id == pump.dst_conn_id,
        pump.on_batch().queued == batch_rest(pump.queued, 12),
        pump.next_batch() == batch(
            pump.queued,
            pump.next_packet_num,
            pump.src_conn_id,
            pump.dst_conn_id,
            12,
        ),
        pump.queued.len() == 0 ==> pump.next_batch().len() == 0,
{
    assert((pump.queued + parts) + more =~= pump.queued + (parts + more));
}

/// Acks that came are sent: a pump that was given acks makes a datagram of those that
/// wait longest, 760 or all, and goes on until none waits or twelve datagrams were
/// made; only then, or after a refused one was tried again, does it ask for more.
pub proof fn law_received_acks_are_sent(pump: AckPumpModel, acks: Seq<AckData>)
    requires
        acks.len() > 0,
        pump.refused is None,
    ensures
        pump.on_received(acks).queued == pump.queued + acks,
        pump.on_received(acks).budget == 12,
        pump.on_received(acks).next().0 is Send,
        pump.on_received(acks).next().1.budget == 11,
        pump.on_received(acks).next_acks().len() == if pump.queued.len() + acks.len() <= 760 {
            pump.queued.len() + acks.len()
        } else {
            760
        },
        pump.next().0 is Send <==> pump.budget > 0 && pump.queued.len() > 0,
        pump.next().0 is Send ==> pump.next().1.budget == pump.budget - 1,
        pump.next().0 is Receive <==> pump.budget == 0 || pump.queued.len() == 0,
        pump.next().1.refused is None,
        pump.on_received(Seq::empty()) == pump,
{
}

/// Whatever is received, refused or sent, the acks go under the ids of the connection.
pub proof fn law_ack_pump_keeps_its_ids(
    pump: AckPumpModel,
    acks: Seq<AckData>,
    datagram: Seq<u8>,
)
    ensures
        pump.on_received(acks).src_conn_id == pump.src_conn_id,
        pump.on_received(acks).dst_conn_id == pump.dst_conn_id,
        pump.on_refused(datagram).src_conn_id == pump.src_conn_id,
        pump.on_refused(datagram).dst_conn_id == pump.dst_conn_id,
        pump.on_refused(datagram).queued == pump.queued,
        pump.next().1.src_conn_id == pump.src_conn_id,
        pump.next().1.dst_conn_id == pump.dst_conn_id,
        pump.on_received(acks).refused == pump.refused,
{
}

/// A number that is taken for another packet is not used again, and changes nothing of
/// what is queued.
pub proof fn law_reserved_number_is_used_once(pump: DataPumpModel)
    requires
        pump.next_packet_num < u64::MAX,
    ensures
        pump.on_reserved().next_packet_num == pump.next_packet_num + 1,
        pump.on_reserved().queued == pump.queued,
        pump.on_reserved().src_conn_id == pump.src_conn_id,
        pump.on_reserved().dst_conn_id == pump.dst_conn_id,
{
}

/// The peer reads from each datagram of a batch exactly the packets that were cut for
/// it.
pub proof fn law_batch_is_readable(
    parts: Seq<Seq<u8>>,
    first_number: u64,
    src_conn_id: u32,
    dst_conn_id: u32,
    limit: nat,
    i: int,
)
    requires
        0 <= i < batch(parts, first_number, src_conn_id, dst_conn_id, limit).len(),
    ensures
        ({
            let made = batch(parts, first_number, src_conn_id, dst_conn_id, limit);
            &&& batch_bytes(made).len() == made.len()
            &&& scan(batch_bytes(made)[i]) == (made[i], None::<ErrorView>)
            &&& batch_bytes(made)[i].len() <= 15200
            &&& batch_loads(made)[i] == joined(payloads(made[i])).len()
        }),
    decreases limit,
{
    let made = batch(parts, first_number, src_conn_id, dst_conn_id, limit);
    let stream = joined(parts);
    if i == 0 {
        law_datagram_is_readable(stream, first_number, src_conn_id, dst_conn_id);
        law_datagram_is_bounded(stream, first_number, src_conn_id, dst_conn_id);
        lemma_datagram_len(stream, first_number, src_conn_id, dst_conn_id);
    } else {
        let rest = leftover(parts, datagram_payload());
        let next = (first_number + packets_in(stream.len())) as u64;
        let later = batch(rest, next, src_conn_id, dst_conn_id, (limit - 1) as nat);
        law_batch_is_readable(
            rest,
            next,
            src_conn_id,
            dst_conn_id,
            (limit - 1) as nat,
            i - 1,
        );
        assert(made[i] == later[i - 1]);
    }
}

/// The listener is told of each batch that has a datagram: the number of its first
/// packet, and how many bytes of what was queued it has.
pub proof fn law_batches_are_told(pump: DataPumpModel)
    ensures
        pump.batch_event() is None <==> joined(pump.queued).len() == 0,
        pump.batch_event() matches Some(DiagnosticEvent::DataSent {
            start_packet_num,
            num_packets,
            num_bytes,
        }) ==> {
            &&& start_packet_num == pump.next_packet_num
            &&& num_packets == batch_packets(pump.queued, 12)
            &&& num_bytes + joined(pump.on_batch().queued).len() == joined(pump.queued).len()
        },
        pump.batch_event() is Some ==> pump.batch_event()->0 is DataSent,
{
    law_batch_loses_no_byte(
        pump.queued,
        pump.next_packet_num,
        pump.src_conn_id,
        pump.dst_conn_id,
        12,
    );
    law_batch_is_as_large_as_allowed(
        pump.queued,
        pump.next_packet_num,
        pump.src_conn_id,
        pump.dst_conn_id,
        12,
    );
    lemma_batch_payload_bound(pump.next_batch());
    lemma_batch_packets_bound(pump.queued, 12);
}

proof fn lemma_batch_payload_bound(datagrams: Seq<Seq<PacketView>>)
    requires
        forall|i: int|
            0 <= i < datagrams.len() ==> joined(payloads(#[trigger] datagrams[i])).len() <= 15000,
    ensures
        batch_payload(datagrams).len() <= 15000 * datagrams.len(),
    decreases datagrams.len(),
{
    if datagrams.len() > 0 {
        let later = datagrams.skip(1);
        assert forall|i: int| 0 <= i < later.len() implies joined(
            payloads(#[trigger] later[i]),
        ).len() <= 15000 by {
            assert(later[i] == datagrams[i + 1]);
        }
        lemma_batch_payload_bound(later);
        assert(joined(payloads(datagrams[0])).len() <= 15000);
    }
}

proof fn lemma_batch_packets_bound(parts: Seq<Seq<u8>>, limit: nat)
    ensures
        batch_packets(parts, limit) <= 10 * limit,
    decreases limit,
{
    if limit > 0 && joined(parts).len() > 0 {
        lemma_batch_packets_bound(leftover(parts, datagram_payload()), (limit - 1) as nat);
    }
}

} // verus!

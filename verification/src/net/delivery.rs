//! What one end writes is what the other end reads.
use vstd::prelude::*;

use crate::error::ErrorView;
use crate::net::connection::MAX_BUFFER_SIZE;
use crate::net::ordered_bytes::{
    OrderedModel, law_read_loses_no_byte, least, lemma_joined_take, lemma_needed, lemma_ready, ready,
};
use crate::wire::packet::{PacketView, scan, stream_bytes};
use crate::worker::packing::{
    data_packets, datagram_payload, joined, law_datagram_is_bounded, law_datagram_is_readable,
    law_no_byte_is_lost, leftover, lemma_joined_leftover, packets_in, payloads,
};
use crate::worker::pump::{
    batch, batch_packets, batch_payload, batch_rest, law_batch_is_numbered_without_gaps,
    law_batch_loses_no_byte, numbered_from,
};

verus! {

/// The receive buffer after the packets arrived, one after the other.
pub open spec fn received(buffer: OrderedModel, packets: Seq<PacketView>) -> OrderedModel
    decreases packets.len(),
{
    if packets.len() == 0 {
        buffer
    } else {
        received(buffer, packets.drop_last()).on_packet(
            packets.last().header.packet_number,
            packets.last().payload,
        )
    }
}

/// The packets are numbered from `first` without a gap.
pub open spec fn consecutive(packets: Seq<PacketView>, first: u64) -> bool {
    forall|i: int|
        0 <= i < packets.len() ==> (#[trigger] packets[i]).header.packet_number == first + i
}

proof fn lemma_slots(packets: Seq<PacketView>, first: u64)
    requires
        consecutive(packets, first),
        packets.len() <= MAX_BUFFER_SIZE,
        first + packets.len() <= u64::MAX,
    ensures
        received(OrderedModel::fresh(first), packets) == (OrderedModel {
            next: first,
            slots: Seq::new(packets.len(), |i: int| Some(packets[i].payload)),
            carry: Seq::empty(),
        }),
    decreases packets.len(),
{
    let expected = OrderedModel {
        next: first,
        slots: Seq::new(packets.len(), |i: int| Some(packets[i].payload)),
        carry: Seq::empty(),
    };
    if packets.len() == 0 {
        assert(OrderedModel::fresh(first) =~= expected);
    } else {
        let fewer = packets.drop_last();
        assert forall|i: int| 0 <= i < fewer.len() implies (
        #[trigger] fewer[i]).header.packet_number == first + i by {
            assert(fewer[i] == packets[i]);
        }
        lemma_slots(fewer, first);
        assert(packets.last().header.packet_number == first + (packets.len() - 1));
        assert(received(OrderedModel::fresh(first), packets).slots =~= expected.slots);
    }
}

proof fn lemma_all_ready(packets: Seq<PacketView>)
    ensures
        ready(Seq::new(packets.len(), |i: int| Some(packets[i].payload))) == payloads(packets),
    decreases packets.len(),
{
    let slots = Seq::new(packets.len(), |i: int| Some(packets[i].payload));
    if packets.len() > 0 {
        let rest = packets.skip(1);
        lemma_all_ready(rest);
        assert(slots.skip(1) =~= Seq::new(rest.len(), |i: int| Some(rest[i].payload)));
        assert(payloads(packets) =~= seq![packets[0].payload] + payloads(rest));
    } else {
        assert(payloads(packets) =~= Seq::empty());
    }
}

/// Packets that arrive in the order of their numbers can be read at once.
pub proof fn law_packets_are_delivered(packets: Seq<PacketView>, first: u64)
    requires
        consecutive(packets, first),
        packets.len() <= MAX_BUFFER_SIZE,
        first + packets.len() <= u64::MAX,
    ensures
        received(OrderedModel::fresh(first), packets).available() == joined(payloads(packets)),
        received(OrderedModel::fresh(first), packets).next == first,
{
    lemma_slots(packets, first);
    lemma_all_ready(packets);
    assert(received(OrderedModel::fresh(first), packets).available() =~= joined(payloads(packets)));
}

/// The buffer holds what arrived so far, each payload at its place.
spec fn holds(
    buffer: OrderedModel,
    packets: Seq<PacketView>,
    first: u64,
    arrived: Seq<PacketView>,
) -> bool {
    &&& buffer.next == first
    &&& buffer.carry.len() == 0
    &&& buffer.slots.len() <= packets.len()
    &&& forall|i: int|
        0 <= i < buffer.slots.len() && (#[trigger] buffer.slots[i]) is Some ==> buffer.slots[i]
            == Some(packets[i].payload)
    &&& forall|j: int|
        0 <= j < arrived.len() ==> {
            let at = (#[trigger] arrived[j]).header.packet_number - first;
            0 <= at < buffer.slots.len() && buffer.slots[at] is Some
        }
}

proof fn lemma_holds(packets: Seq<PacketView>, first: u64, arrived: Seq<PacketView>)
    requires
        consecutive(packets, first),
        packets.len() <= MAX_BUFFER_SIZE,
        first + packets.len() <= u64::MAX,
        forall|j: int| 0 <= j < arrived.len() ==> packets.contains(#[trigger] arrived[j]),
    ensures
        holds(received(OrderedModel::fresh(first), arrived), packets, first, arrived),
    decreases arrived.len(),
{
    if arrived.len() > 0 {
        let fewer = arrived.drop_last();
        assert forall|j: int| 0 <= j < fewer.len() implies packets.contains(
            #[trigger] fewer[j],
        ) by {
            assert(fewer[j] == arrived[j]);
        }
        lemma_holds(packets, first, fewer);
        let before = received(OrderedModel::fresh(first), fewer);
        let after = received(OrderedModel::fresh(first), arrived);
        assert(packets.contains(arrived[arrived.len() - 1]));
        let m = packets.index_of(arrived.last());
        assert(packets[m] == arrived.last());
        assert(arrived.last().header.packet_number == first + m);
        assert forall|j: int| 0 <= j < arrived.len() implies {
            let at = (#[trigger] arrived[j]).header.packet_number - first;
            0 <= at < after.slots.len() && after.slots[at] is Some
        } by {
            if j < fewer.len() {
                assert(arrived[j] == fewer[j]);
            }
        }
    }
}

/// Packets can arrive in any order, and more than once: as soon as each of them has
/// arrived, the peer can read their payloads in the order of their numbers.
pub proof fn law_any_order_is_delivered(
    packets: Seq<PacketView>,
    first: u64,
    arrived: Seq<PacketView>,
)
    requires
        consecutive(packets, first),
        packets.len() <= MAX_BUFFER_SIZE,
        first + packets.len() <= u64::MAX,
        forall|j: int| 0 <= j < arrived.len() ==> packets.contains(#[trigger] arrived[j]),
        forall|i: int| 0 <= i < packets.len() ==> arrived.contains(#[trigger] packets[i]),
    ensures
        received(OrderedModel::fresh(first), arrived) == received(
            OrderedModel::fresh(first),
            packets,
        ),
        received(OrderedModel::fresh(first), arrived).available() == joined(payloads(packets)),
{
    let buffer = received(OrderedModel::fresh(first), arrived);
    lemma_holds(packets, first, arrived);
    assert forall|i: int| 0 <= i < packets.len() implies i < buffer.slots.len() && (
    #[trigger] buffer.slots[i]) == Some(packets[i].payload) by {
        assert(arrived.contains(packets[i]));
        let j = arrived.index_of(packets[i]);
        assert(arrived[j].header.packet_number == first + i);
    }
    if packets.len() > 0 {
        assert(buffer.slots[packets.len() - 1] == Some(packets[packets.len() - 1].payload));
    }
    let expected = received(OrderedModel::fresh(first), packets);
    lemma_slots(packets, first);
    assert(buffer.slots =~= expected.slots);
    assert(buffer =~= expected);
    law_packets_are_delivered(packets, first);
}

/// What can happen to a receive buffer.
pub ghost enum BufferStep {
    /// A packet arrives.
    Arrive(PacketView),
    /// Up to so many bytes are read.
    Read(nat),
    /// Up to so many whole payloads are read.
    ReadWhole(nat),
}

/// A receive buffer and what was read from it.
#[verifier::ext_equal]
pub ghost struct Progress {
    pub buffer: OrderedModel,
    pub read: Seq<u8>,
}

impl Progress {
    /// Nothing has arrived yet.
    pub open spec fn fresh(first: u64) -> Progress {
        Progress { buffer: OrderedModel::fresh(first), read: Seq::empty() }
    }

    pub open spec fn on_step(self, step: BufferStep) -> Progress {
        match step {
            BufferStep::Arrive(packet) => Progress {
                buffer: self.buffer.on_packet(packet.header.packet_number, packet.payload),
                ..self
            },
            BufferStep::Read(limit) => Progress {
                buffer: self.buffer.on_read(limit as int),
                read: self.read + self.buffer.available().take(
                    self.buffer.read_result(limit as int).bytes as int,
                ),
            },
            BufferStep::ReadWhole(max_packets) => Progress {
                buffer: self.buffer.on_whole_read(max_packets),
                read: self.read + joined(self.buffer.whole_payloads(max_packets)),
            },
        }
    }

    /// The steps happen, one after the other.
    pub open spec fn on_steps(self, steps: Seq<BufferStep>) -> Progress
        decreases steps.len(),
    {
        if steps.len() == 0 {
            self
        } else {
            self.on_steps(steps.drop_last()).on_step(steps.last())
        }
    }

    /// How many of the packets from `first` on were read or can be read.
    pub open spec fn reached(self, first: u64) -> int {
        self.buffer.next - first + ready(self.buffer.slots).len()
    }

    /// The `i`-th packet from `first` on was read, or is kept.
    pub open spec fn has(self, first: u64, i: int) -> bool {
        let at = i - (self.buffer.next - first);
        at < 0 || (at < self.buffer.slots.len() && self.buffer.slots[at] is Some)
    }
}

/// Only these packets arrive.
pub open spec fn only_arrive(steps: Seq<BufferStep>, packets: Seq<PacketView>) -> bool {
    forall|j: int|
        0 <= j < steps.len() ==> ((#[trigger] steps[j]) matches BufferStep::Arrive(packet)
            ==> packets.contains(packet))
}

/// No payload is longer than the length field of a header can tell.
pub open spec fn lengths_fit(packets: Seq<PacketView>) -> bool {
    forall|i: int| 0 <= i < packets.len() ==> (#[trigger] packets[i]).payload.len() <= u16::MAX
}

/// The packet arrives in the `j`-th step, when the buffer has room for it.
pub open spec fn arrives_in_time(
    packet: PacketView,
    first: u64,
    steps: Seq<BufferStep>,
    j: int,
) -> bool {
    &&& 0 <= j < steps.len()
    &&& steps[j] == BufferStep::Arrive(packet)
    &&& packet.header.packet_number - Progress::fresh(first).on_steps(steps.take(j)).buffer.next
        < MAX_BUFFER_SIZE
}

/// Each packet arrives, at least once, at a moment when the buffer has room for it.
pub open spec fn all_arrive_in_time(
    packets: Seq<PacketView>,
    first: u64,
    steps: Seq<BufferStep>,
) -> bool {
    forall|i: int|
        0 <= i < packets.len() ==> exists|j: int|
            arrives_in_time(#[trigger] packets[i], first, steps, j)
}

/// What holds at every moment: the kept payloads are at their places, and what was
/// read, with what is left of the last packet, are the payloads in front of them.
spec fn in_step(progress: Progress, packets: Seq<PacketView>, first: u64) -> bool {
    let base = progress.buffer.next - first;
    &&& progress.buffer.valid()
    &&& 0 <= base <= packets.len()
    &&& progress.buffer.slots.len() <= packets.len() - base
    &&& forall|i: int|
        0 <= i < progress.buffer.slots.len() && (#[trigger] progress.buffer.slots[i]) is Some
            ==> progress.buffer.slots[i] == Some(packets[base + i].payload)
    &&& progress.read + progress.buffer.carry == joined(payloads(packets).take(base))
}

/// The payloads that can be read are the next ones.
proof fn lemma_ready_are_next(progress: Progress, packets: Seq<PacketView>, first: u64, k: int)
    requires
        in_step(progress, packets, first),
        0 <= k <= ready(progress.buffer.slots).len(),
    ensures
        ({
            let base = progress.buffer.next - first;
            &&& base + ready(progress.buffer.slots).len() <= packets.len()
            &&& joined(payloads(packets).take(base)) + joined(
                ready(progress.buffer.slots).take(k),
            ) == joined(payloads(packets).take(base + k))
        }),
{
    let base = progress.buffer.next - first;
    let slots = progress.buffer.slots;
    lemma_ready(slots, k);
    let next = ready(slots).take(k);
    assert forall|i: int| 0 <= i < k implies next[i] == payloads(packets)[base + i] by {
        lemma_ready(slots, i);
        assert(slots[i] == Some(ready(slots)[i]));
    }
    assert(payloads(packets).take(base + k) =~= payloads(packets).take(base) + next);
    lemma_joined_append(payloads(packets).take(base), next);
}

proof fn lemma_step(
    progress: Progress,
    packets: Seq<PacketView>,
    first: u64,
    step: BufferStep,
)
    requires
        in_step(progress, packets, first),
        consecutive(packets, first),
        lengths_fit(packets),
        first + packets.len() <= u64::MAX,
        step matches BufferStep::Arrive(packet) ==> packets.contains(packet),
    ensures
        in_step(progress.on_step(step), packets, first),
        forall|i: int| #[trigger] progress.has(first, i) ==> progress.on_step(step).has(first, i),
        step matches BufferStep::Arrive(packet) ==> packet.header.packet_number
            - progress.buffer.next < MAX_BUFFER_SIZE ==> progress.on_step(step).has(
            first,
            packet.header.packet_number - first,
        ),
{
    let after = progress.on_step(step);
    let buffer = progress.buffer;
    let base = buffer.next - first;
    match step {
        BufferStep::Arrive(packet) => {
            let m = packets.index_of(packet);
            assert(packets[m] == packet);
            assert(packet.header.packet_number == first + m);
        },
        BufferStep::Read(limit) => {
            let count = buffer.packets_for(limit as int) as int;
            let taken = buffer.carry + joined(ready(buffer.slots).take(count));
            let n = buffer.read_result(limit as int).bytes as int;
            law_read_loses_no_byte(buffer, limit as int);
            lemma_needed(ready(buffer.slots), limit - buffer.carry.len());
            lemma_ready(buffer.slots, count);
            lemma_joined_take(ready(buffer.slots), count);
            lemma_ready_are_next(progress, packets, first, count);
            let rest = joined(ready(buffer.slots).skip(count));
            assert(buffer.available() =~= taken + rest);
            if count == ready(buffer.slots).len() {
                assert(ready(buffer.slots).skip(count) =~= Seq::empty());
                assert(rest.len() == 0);
            }
            assert(n == least(limit as int, taken.len() as int));
            assert(buffer.available().take(n) =~= taken.take(n));
            assert(after.read + after.buffer.carry =~= (progress.read + buffer.carry) + joined(
                ready(buffer.slots).take(count),
            ));
        },
        BufferStep::ReadWhole(max_packets) => {
            let count = buffer.whole_packets(max_packets) as int;
            let handed = ready(buffer.slots).take(count);
            lemma_ready(buffer.slots, count);
            lemma_ready_are_next(progress, packets, first, count);
            if buffer.carry.len() > 0 {
                let all = seq![buffer.carry] + handed;
                assert(all.skip(1) =~= handed);
                assert(all[0] == buffer.carry);
            } else {
                assert(Seq::<Seq<u8>>::empty() + handed =~= handed);
            }
            assert(joined(buffer.whole_payloads(max_packets)) =~= buffer.carry + joined(handed));
            assert(after.read + after.buffer.carry =~= (progress.read + buffer.carry) + joined(
                handed,
            ));
        },
    }
}

proof fn lemma_steps(packets: Seq<PacketView>, first: u64, steps: Seq<BufferStep>)
    requires
        consecutive(packets, first),
        lengths_fit(packets),
        first + packets.len() <= u64::MAX,
        only_arrive(steps, packets),
    ensures
        in_step(Progress::fresh(first).on_steps(steps), packets, first),
    decreases steps.len(),
{
    if steps.len() == 0 {
        assert(payloads(packets).take(0) =~= Seq::empty());
        assert(Seq::<u8>::empty() + Seq::<u8>::empty() =~= Seq::<u8>::empty());
    } else {
        let fewer = steps.drop_last();
        assert(only_arrive(fewer, packets)) by {
            assert forall|j: int| 0 <= j < fewer.len() implies ((
            #[trigger] fewer[j]) matches BufferStep::Arrive(packet) ==> packets.contains(
                packet,
            )) by {
                assert(fewer[j] == steps[j]);
            }
        }
        lemma_steps(packets, first, fewer);
        assert(steps[steps.len() - 1] == steps.last());
        lemma_step(Progress::fresh(first).on_steps(fewer), packets, first, steps.last());
    }
}

/// A packet that arrived in time was read, or is kept.
proof fn lemma_arrived_is_had(
    packets: Seq<PacketView>,
    first: u64,
    steps: Seq<BufferStep>,
    i: int,
    j: int,
)
    requires
        consecutive(packets, first),
        lengths_fit(packets),
        first + packets.len() <= u64::MAX,
        only_arrive(steps, packets),
        0 <= i < packets.len(),
        arrives_in_time(packets[i], first, steps, j),
    ensures
        Progress::fresh(first).on_steps(steps).has(first, i),
    decreases steps.len(),
{
    let fewer = steps.drop_last();
    assert(only_arrive(fewer, packets)) by {
        assert forall|j: int| 0 <= j < fewer.len() implies ((
        #[trigger] fewer[j]) matches BufferStep::Arrive(packet) ==> packets.contains(packet)) by {
            assert(fewer[j] == steps[j]);
        }
    }
    lemma_steps(packets, first, fewer);
    assert(steps[steps.len() - 1] == steps.last());
    lemma_step(Progress::fresh(first).on_steps(fewer), packets, first, steps.last());
    if j < fewer.len() {
        assert(fewer.take(j) =~= steps.take(j));
        assert(fewer[j] == steps[j]);
        lemma_arrived_is_had(packets, first, fewer, i, j);
        assert(Progress::fresh(first).on_steps(fewer).has(first, i));
    } else {
        assert(steps.take(j) =~= fewer);
        assert(packets[i].header.packet_number == first + i);
    }
}

/// However arrivals and reads follow each other, and however many packets there are:
/// what was read, followed by what can be read, is the payloads of the first packets
/// in the order of their numbers. Nothing is lost, doubled or moved.
pub proof fn law_reads_are_in_order(
    packets: Seq<PacketView>,
    first: u64,
    steps: Seq<BufferStep>,
)
    requires
        consecutive(packets, first),
        lengths_fit(packets),
        first + packets.len() <= u64::MAX,
        only_arrive(steps, packets),
    ensures
        ({
            let now = Progress::fresh(first).on_steps(steps);
            &&& 0 <= now.reached(first) <= packets.len()
            &&& now.read + now.buffer.available() == joined(
                payloads(packets).take(now.reached(first)),
            )
            &&& joined(payloads(packets)) == (now.read + now.buffer.available()) + joined(
                payloads(packets).skip(now.reached(first)),
            )
        }),
{
    let now = Progress::fresh(first).on_steps(steps);
    let all = ready(now.buffer.slots);
    lemma_steps(packets, first, steps);
    lemma_ready_are_next(now, packets, first, all.len() as int);
    assert(all.take(all.len() as int) =~= all);
    assert(now.read + now.buffer.available() =~= (now.read + now.buffer.carry) + joined(all));
    lemma_joined_take(payloads(packets), now.reached(first));
}

/// However arrivals and reads follow each other: once each packet has arrived at a
/// moment when the buffer had room for it, all payloads were read or can be read.
pub proof fn law_all_is_delivered(packets: Seq<PacketView>, first: u64, steps: Seq<BufferStep>)
    requires
        consecutive(packets, first),
        lengths_fit(packets),
        first + packets.len() <= u64::MAX,
        only_arrive(steps, packets),
        all_arrive_in_time(packets, first, steps),
    ensures
        ({
            let now = Progress::fresh(first).on_steps(steps);
            now.read + now.buffer.available() == joined(payloads(packets))
        }),
{
    let now = Progress::fresh(first).on_steps(steps);
    let base = now.buffer.next - first;
    let slots = now.buffer.slots;
    lemma_steps(packets, first, steps);
    law_reads_are_in_order(packets, first, steps);
    let k = ready(slots).len() as int;
    lemma_ready(slots, k);
    if base + k < packets.len() {
        let i = base + k;
        let j = choose|j: int| arrives_in_time(packets[i], first, steps, j);
        lemma_arrived_is_had(packets, first, steps, i, j);
        assert(false);
    }
    assert(payloads(packets).take(now.reached(first)) =~= payloads(packets));
}

/// What was queued for sending arrives: the peer finds in the datagram the
/// packets that were cut, and can read from them, in order, exactly the bytes
/// that left the queue, the whole stream where it fits a datagram.
pub proof fn law_stream_is_delivered(
    parts: Seq<Seq<u8>>,
    first: u64,
    src_conn_id: u32,
    dst_conn_id: u32,
)
    requires
        first + packets_in(joined(parts).len()) <= u64::MAX,
    ensures
        ({
            let stream = joined(parts);
            let packets = data_packets(stream, first, src_conn_id, dst_conn_id);
            let arrived = scan(stream_bytes(packets));
            &&& arrived.1 == None::<ErrorView>
            &&& received(OrderedModel::fresh(first), arrived.0).available() == stream.take(
                if stream.len() <= datagram_payload() {
                    stream.len() as int
                } else {
                    datagram_payload()
                },
            )
        }),
{
    let stream = joined(parts);
    let packets = data_packets(stream, first, src_conn_id, dst_conn_id);
    law_datagram_is_readable(stream, first, src_conn_id, dst_conn_id);
    law_packets_are_delivered(packets, first);
    law_no_byte_is_lost(parts, first, src_conn_id, dst_conn_id);
    lemma_joined_leftover(parts, datagram_payload());
    let n: int = if stream.len() <= datagram_payload() {
        stream.len() as int
    } else {
        datagram_payload()
    };
    let read = joined(payloads(packets));
    assert(read.len() + stream.skip(n).len() == stream.len());
    assert(read =~= stream.take(n)) by {
        assert forall|i: int| 0 <= i < n implies read[i] == stream[i] by {
            assert((read + stream.skip(n))[i] == read[i]);
        }
    }
}

/// The packets of all datagrams, one after the other.
pub open spec fn flat(datagrams: Seq<Seq<PacketView>>) -> Seq<PacketView>
    decreases datagrams.len(),
{
    if datagrams.len() == 0 {
        Seq::empty()
    } else {
        datagrams[0] + flat(datagrams.skip(1))
    }
}

proof fn lemma_flat_consecutive(datagrams: Seq<Seq<PacketView>>, first: int)
    requires
        numbered_from(datagrams, first),
    ensures
        forall|i: int|
            0 <= i < flat(datagrams).len() ==> (
            #[trigger] flat(datagrams)[i]).header.packet_number == first + i,
    decreases datagrams.len(),
{
    if datagrams.len() > 0 {
        let later = datagrams.skip(1);
        lemma_flat_consecutive(later, first + datagrams[0].len());
        assert forall|i: int| 0 <= i < flat(datagrams).len() implies (
        #[trigger] flat(datagrams)[i]).header.packet_number == first + i by {
            if i < datagrams[0].len() {
                assert(flat(datagrams)[i] == datagrams[0][i]);
            } else {
                assert(flat(datagrams)[i] == flat(later)[i - datagrams[0].len()]);
            }
        }
    }
}

proof fn lemma_joined_append(a: Seq<Seq<u8>>, b: Seq<Seq<u8>>)
    ensures
        joined(a + b) == joined(a) + joined(b),
    decreases a.len(),
{
    if a.len() == 0 {
        assert(a + b =~= b);
        assert(joined(a + b) =~= joined(a) + joined(b));
    } else {
        lemma_joined_append(a.skip(1), b);
        assert((a + b).skip(1) =~= a.skip(1) + b);
        assert(joined(a + b) =~= joined(a) + joined(b));
    }
}

proof fn lemma_flat_payload(datagrams: Seq<Seq<PacketView>>)
    ensures
        joined(payloads(flat(datagrams))) == batch_payload(datagrams),
    decreases datagrams.len(),
{
    if datagrams.len() == 0 {
        assert(payloads(flat(datagrams)) =~= Seq::empty());
    } else {
        let later = datagrams.skip(1);
        lemma_flat_payload(later);
        assert(payloads(flat(datagrams)) =~= payloads(datagrams[0]) + payloads(flat(later)));
        lemma_joined_append(payloads(datagrams[0]), payloads(flat(later)));
    }
}

proof fn lemma_flat_len(
    parts: Seq<Seq<u8>>,
    first: u64,
    src_conn_id: u32,
    dst_conn_id: u32,
    limit: nat,
)
    ensures
        flat(batch(parts, first, src_conn_id, dst_conn_id, limit)).len() == batch_packets(
            parts,
            limit,
        ),
        batch_packets(parts, limit) <= 10 * limit,
    decreases limit,
{
    let datagrams = batch(parts, first, src_conn_id, dst_conn_id, limit);
    if limit > 0 && joined(parts).len() > 0 {
        let rest = leftover(parts, datagram_payload());
        let next = (first + packets_in(joined(parts).len())) as u64;
        lemma_flat_len(rest, next, src_conn_id, dst_conn_id, (limit - 1) as nat);
        assert(datagrams.skip(1) =~= batch(
            rest,
            next,
            src_conn_id,
            dst_conn_id,
            (limit - 1) as nat,
        ));
    }
}

/// Over any number of datagrams that the receive buffer holds: what the peer can
/// read and what is still queued are, in order, what was queued for sending.
pub proof fn law_batch_is_delivered(
    parts: Seq<Seq<u8>>,
    first: u64,
    src_conn_id: u32,
    dst_conn_id: u32,
    limit: nat,
)
    requires
        first + batch_packets(parts, limit) <= u64::MAX,
        10 * limit <= MAX_BUFFER_SIZE,
    ensures
        received(
            OrderedModel::fresh(first),
            flat(batch(parts, first, src_conn_id, dst_conn_id, limit)),
        ).available() + joined(batch_rest(parts, limit)) == joined(parts),
{
    let datagrams = batch(parts, first, src_conn_id, dst_conn_id, limit);
    law_batch_is_numbered_without_gaps(parts, first, src_conn_id, dst_conn_id, limit);
    lemma_flat_consecutive(datagrams, first as int);
    lemma_flat_len(parts, first, src_conn_id, dst_conn_id, limit);
    law_packets_are_delivered(flat(datagrams), first);
    lemma_flat_payload(datagrams);
    law_batch_loses_no_byte(parts, first, src_conn_id, dst_conn_id, limit);
}

proof fn lemma_flat_fits(
    parts: Seq<Seq<u8>>,
    first: u64,
    src_conn_id: u32,
    dst_conn_id: u32,
    limit: nat,
)
    ensures
        lengths_fit(flat(batch(parts, first, src_conn_id, dst_conn_id, limit))),
    decreases limit,
{
    let datagrams = batch(parts, first, src_conn_id, dst_conn_id, limit);
    if limit > 0 && joined(parts).len() > 0 {
        let rest = leftover(parts, datagram_payload());
        let next = (first + packets_in(joined(parts).len())) as u64;
        let later = batch(rest, next, src_conn_id, dst_conn_id, (limit - 1) as nat);
        lemma_flat_fits(rest, next, src_conn_id, dst_conn_id, (limit - 1) as nat);
        law_datagram_is_bounded(joined(parts), first, src_conn_id, dst_conn_id);
        assert(datagrams.skip(1) =~= later);
        assert forall|i: int| 0 <= i < flat(datagrams).len() implies (
        #[trigger] flat(datagrams)[i]).payload.len() <= u16::MAX by {
            if i < datagrams[0].len() {
                assert(flat(datagrams)[i] == datagrams[0][i]);
            } else {
                assert(flat(datagrams)[i] == flat(later)[i - datagrams[0].len()]);
            }
        }
    }
}

/// From end to end, over any number of datagrams and however the arrival of their
/// packets and the reads of the peer follow each other: once each packet has arrived
/// at a moment when the buffer had room for it, what the peer has read, followed by
/// what it can read and by what is still queued, is what was queued for sending.
pub proof fn law_batch_is_read(
    parts: Seq<Seq<u8>>,
    first: u64,
    src_conn_id: u32,
    dst_conn_id: u32,
    limit: nat,
    steps: Seq<BufferStep>,
)
    requires
        first + batch_packets(parts, limit) <= u64::MAX,
        only_arrive(steps, flat(batch(parts, first, src_conn_id, dst_conn_id, limit))),
        all_arrive_in_time(
            flat(batch(parts, first, src_conn_id, dst_conn_id, limit)),
            first,
            steps,
        ),
    ensures
        ({
            let now = Progress::fresh(first).on_steps(steps);
            (now.read + now.buffer.available()) + joined(batch_rest(parts, limit)) == joined(parts)
        }),
{
    let datagrams = batch(parts, first, src_conn_id, dst_conn_id, limit);
    law_batch_is_numbered_without_gaps(parts, first, src_conn_id, dst_conn_id, limit);
    lemma_flat_consecutive(datagrams, first as int);
    lemma_flat_len(parts, first, src_conn_id, dst_conn_id, limit);
    lemma_flat_fits(parts, first, src_conn_id, dst_conn_id, limit);
    law_all_is_delivered(flat(datagrams), first, steps);
    lemma_flat_payload(datagrams);
    law_batch_loses_no_byte(parts, first, src_conn_id, dst_conn_id, limit);
}

/// All packets of a batch have numbers from the first on and below the one that comes
/// next, without a gap, and there are as many as are counted.
pub proof fn law_batch_numbers_come_before_the_next(
    parts: Seq<Seq<u8>>,
    first: u64,
    src_conn_id: u32,
    dst_conn_id: u32,
    limit: nat,
    i: int,
)
    requires
        first + batch_packets(parts, limit) <= u64::MAX,
        0 <= i < flat(batch(parts, first, src_conn_id, dst_conn_id, limit)).len(),
    ensures
        flat(batch(parts, first, src_conn_id, dst_conn_id, limit)).len() == batch_packets(
            parts,
            limit,
        ),
        flat(
            batch(parts, first, src_conn_id, dst_conn_id, limit),
        )[i].header.packet_number == first + i,
{
    law_batch_is_numbered_without_gaps(parts, first, src_conn_id, dst_conn_id, limit);
    lemma_flat_consecutive(
        batch(parts, first, src_conn_id, dst_conn_id, limit),
        first as int,
    );
    lemma_flat_len(parts, first, src_conn_id, dst_conn_id, limit);
}

} // verus!

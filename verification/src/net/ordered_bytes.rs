//! Puts the payloads of data packets, which may arrive in any order, back into
//! the order of their packet numbers.
use std::collections::VecDeque;

use bytes::Bytes;
use vstd::prelude::*;

use crate::error::{BluefinError, BluefinResult, ErrorView, fails_with};
use crate::net::connection::MAX_BUFFER_SIZE;
use crate::wire::packet::BluefinPacket;
use crate::worker::packing::{joined, lemma_joined_push};
use crate::worker::writer::bytes_parts;

verus! {

broadcast use vstd::string::group_string_axioms;

/// What a read took out of the buffer.
#[derive(Clone, Copy, Debug)]
pub struct ConsumeResult {
    num_packets_consumed: usize,
    base_packet_number: u64,
    bytes_consumed: u64,
}

/// The mathematical value of a [`ConsumeResult`].
pub ghost struct ConsumeView {
    /// How many packets were taken out of the buffer.
    pub packets: nat,
    /// The number of the first of them, or zero where there is none.
    pub base: u64,
    /// How many bytes were handed out.
    pub bytes: nat,
}

impl View for ConsumeResult {
    type V = ConsumeView;

    closed spec fn view(&self) -> ConsumeView {
        ConsumeView {
            packets: self.num_packets_consumed as nat,
            base: self.base_packet_number,
            bytes: self.bytes_consumed as nat,
        }
    }
}

impl ConsumeResult {
    pub fn new(num_packets_consumed: usize, base_packet_number: u64, bytes_consumed: u64) -> (result:
        Self)
        ensures
            result@ == (ConsumeView {
                packets: num_packets_consumed as nat,
                base: base_packet_number,
                bytes: bytes_consumed as nat,
            }),
    {
        ConsumeResult { num_packets_consumed, base_packet_number, bytes_consumed }
    }

    pub fn get_num_packets_consumed(&self) -> (packets: usize)
        ensures
            packets == self@.packets,
    {
        self.num_packets_consumed
    }

    pub fn get_base_packet_number(&self) -> (base: u64)
        ensures
            base == self@.base,
    {
        self.base_packet_number
    }

    pub fn get_bytes_consumed(&self) -> (bytes: u64)
        ensures
            bytes == self@.bytes,
    {
        self.bytes_consumed
    }
}

/// The receive buffer of a connection.
pub struct OrderedBytes {
    src_conn_id: u32,
    /// The number of the next packet to be read.
    next: u64,
    /// The payloads of the packets from `next` on, where they arrived.
    slots: VecDeque<Option<Vec<u8>>>,
    /// What is left of the last packet that was read in part.
    carry: Vec<u8>,
}

/// The mathematical value of an [`OrderedBytes`].
#[verifier::ext_equal]
pub ghost struct OrderedModel {
    pub next: u64,
    pub slots: Seq<Option<Seq<u8>>>,
    pub carry: Seq<u8>,
}

pub open spec fn slot_view(slot: Option<Vec<u8>>) -> Option<Seq<u8>> {
    match slot {
        Some(payload) => Some(payload@),
        None => None,
    }
}

impl View for OrderedBytes {
    type V = OrderedModel;

    closed spec fn view(&self) -> OrderedModel {
        OrderedModel {
            next: self.next,
            slots: self.slots@.map_values(|slot: Option<Vec<u8>>| slot_view(slot)),
            carry: self.carry@,
        }
    }
}

/// The payloads that arrived without a gap.
pub open spec fn ready(slots: Seq<Option<Seq<u8>>>) -> Seq<Seq<u8>>
    decreases slots.len(),
{
    if slots.len() == 0 || slots[0] is None {
        Seq::empty()
    } else {
        seq![slots[0]->0] + ready(slots.skip(1))
    }
}

/// How many of the payloads are needed for `wanted` bytes.
pub open spec fn needed(payloads: Seq<Seq<u8>>, wanted: int) -> nat
    decreases payloads.len(),
{
    if payloads.len() == 0 || wanted <= 0 {
        0
    } else {
        1 + needed(payloads.skip(1), wanted - payloads[0].len())
    }
}

pub open spec fn least(a: int, b: int) -> int {
    if a <= b {
        a
    } else {
        b
    }
}

impl OrderedModel {
    pub open spec fn fresh(start: u64) -> OrderedModel {
        OrderedModel { next: start, slots: Seq::empty(), carry: Seq::empty() }
    }

    /// No more packets are kept than allowed, all have a number, and none is
    /// longer than the length field of a header can tell.
    pub open spec fn valid(self) -> bool {
        &&& self.slots.len() <= MAX_BUFFER_SIZE
        &&& self.next + self.slots.len() <= u64::MAX
        &&& self.carry.len() <= u16::MAX
        &&& forall|i: int|
            0 <= i < self.slots.len() && self.slots[i] is Some ==> (#[trigger] self.slots[i])->0.len()
                <= u16::MAX
    }

    /// What can be read now.
    pub open spec fn available(self) -> Seq<u8> {
        self.carry + joined(ready(self.slots))
    }

    /// Something can be read now.
    pub open spec fn readable(self) -> bool {
        self.carry.len() > 0 || (self.slots.len() > 0 && self.slots[0] is Some)
    }

    /// Why a packet with the number is refused.
    pub open spec fn refusal(self, number: u64) -> Option<ErrorView> {
        if number < self.next || number == u64::MAX {
            Some(ErrorView::UnexpectedPacketNumberError)
        } else if number - self.next >= MAX_BUFFER_SIZE {
            Some(
                ErrorView::BufferFullError(
                    "Packet number is too far ahead of what can be buffered."@,
                ),
            )
        } else if number - self.next < self.slots.len() && self.slots[number - self.next] is Some {
            Some(ErrorView::UnexpectedPacketNumberError)
        } else {
            None
        }
    }

    /// The packet is put into its slot.
    pub open spec fn on_packet(self, number: u64, payload: Seq<u8>) -> OrderedModel {
        if self.refusal(number) is Some {
            self
        } else {
            let at = number - self.next;
            let len: nat = if at < self.slots.len() {
                self.slots.len()
            } else {
                (at + 1) as nat
            };
            OrderedModel {
                slots: Seq::new(
                    len,
                    |i: int|
                        if i == at {
                            Some(payload)
                        } else if i < self.slots.len() {
                            self.slots[i]
                        } else {
                            None
                        },
                ),
                ..self
            }
        }
    }

    /// How many packets a read of `limit` bytes takes out of the buffer.
    pub open spec fn packets_for(self, limit: int) -> nat {
        needed(ready(self.slots), limit - self.carry.len())
    }

    /// A read of `limit` bytes.
    pub open spec fn on_read(self, limit: int) -> OrderedModel {
        let count = self.packets_for(limit);
        let taken = self.carry + joined(ready(self.slots).take(count as int));
        OrderedModel {
            next: (self.next + count) as u64,
            slots: self.slots.skip(count as int),
            carry: taken.skip(least(limit, taken.len() as int)),
        }
    }

    /// What a read of `limit` bytes answers.
    pub open spec fn read_result(self, limit: int) -> ConsumeView {
        ConsumeView {
            packets: self.packets_for(limit),
            base: if self.packets_for(limit) > 0 {
                self.next
            } else {
                0
            },
            bytes: least(limit, self.available().len() as int) as nat,
        }
    }

    /// How many packets a read of `max_packets` whole payloads takes.
    pub open spec fn whole_packets(self, max_packets: nat) -> nat {
        if ready(self.slots).len() <= max_packets {
            ready(self.slots).len()
        } else {
            max_packets
        }
    }

    /// The payloads that a read of whole payloads hands out. What is left of a
    /// packet that was read in part goes first.
    pub open spec fn whole_payloads(self, max_packets: nat) -> Seq<Seq<u8>> {
        (if self.carry.len() > 0 {
            seq![self.carry]
        } else {
            Seq::empty()
        }) + ready(self.slots).take(self.whole_packets(max_packets) as int)
    }

    /// A read of whole payloads.
    pub open spec fn on_whole_read(self, max_packets: nat) -> OrderedModel {
        let count = self.whole_packets(max_packets);
        OrderedModel {
            next: (self.next + count) as u64,
            slots: self.slots.skip(count as int),
            carry: Seq::empty(),
        }
    }

    /// What a read of whole payloads answers.
    pub open spec fn whole_read_result(self, max_packets: nat) -> ConsumeView {
        ConsumeView {
            packets: self.whole_packets(max_packets),
            base: if self.whole_packets(max_packets) > 0 {
                self.next
            } else {
                0
            },
            bytes: joined(self.whole_payloads(max_packets)).len(),
        }
    }
}

pub proof fn lemma_ready(slots: Seq<Option<Seq<u8>>>, k: int)
    requires
        0 <= k <= ready(slots).len(),
    ensures
        ready(slots).len() <= slots.len(),
        ready(slots.skip(k)) == ready(slots).skip(k),
        k < ready(slots).len() ==> slots[k] == Some(ready(slots)[k]),
        k == ready(slots).len() && k < slots.len() ==> slots[k] is None,
    decreases slots.len(),
{
    let payloads = ready(slots);
    if slots.len() == 0 || slots[0] is None {
        assert(slots.skip(0) =~= slots);
        assert(payloads.skip(0) =~= payloads);
    } else if k == 0 {
        assert(slots.skip(0) =~= slots);
        assert(payloads.skip(0) =~= payloads);
        lemma_ready(slots.skip(1), 0);
    } else {
        lemma_ready(slots.skip(1), k - 1);
        assert(slots.skip(1).skip(k - 1) =~= slots.skip(k));
        assert(payloads.skip(k) =~= ready(slots.skip(1)).skip(k - 1));
    }
}

/// One more payload.
proof fn lemma_take_step(payloads: Seq<Seq<u8>>, k: int)
    requires
        0 <= k < payloads.len(),
    ensures
        joined(payloads.take(k + 1)) == joined(payloads.take(k)) + payloads[k],
{
    lemma_joined_push(payloads.take(k), payloads[k]);
    assert(payloads.take(k + 1) =~= payloads.take(k).push(payloads[k]));
}

/// Enough payloads are taken: either all of them or at least `wanted` bytes.
pub proof fn lemma_needed(payloads: Seq<Seq<u8>>, wanted: int)
    ensures
        needed(payloads, wanted) <= payloads.len(),
        needed(payloads, wanted) < payloads.len() ==> joined(
            payloads.take(needed(payloads, wanted) as int),
        ).len() >= wanted,
    decreases payloads.len(),
{
    if payloads.len() == 0 || wanted <= 0 {
        assert(payloads.take(0) =~= Seq::empty());
    } else {
        let rest = payloads.skip(1);
        lemma_needed(rest, wanted - payloads[0].len());
        let k = needed(payloads, wanted) as int;
        assert(payloads.take(k).skip(1) =~= rest.take(k - 1));
        assert(payloads.take(k)[0] == payloads[0]);
    }
}

/// The first payloads are the beginning of all of them.
pub(crate) proof fn lemma_joined_take(payloads: Seq<Seq<u8>>, k: int)
    requires
        0 <= k <= payloads.len(),
    ensures
        joined(payloads) == joined(payloads.take(k)) + joined(payloads.skip(k)),
    decreases payloads.len(),
{
    if k == 0 {
        assert(payloads.take(0) =~= Seq::empty());
        assert(payloads.skip(0) =~= payloads);
        assert(joined(payloads) =~= Seq::<u8>::empty() + joined(payloads));
    } else {
        let rest = payloads.skip(1);
        lemma_joined_take(rest, k - 1);
        assert(payloads.take(k).skip(1) =~= rest.take(k - 1));
        assert(payloads.take(k)[0] == payloads[0]);
        assert(payloads.skip(k) =~= rest.skip(k - 1));
        assert(joined(payloads) =~= joined(payloads.take(k)) + joined(payloads.skip(k)));
    }
}

/// A read hands out the beginning of what was available and leaves the rest: no
/// byte is lost, doubled or moved.
pub proof fn law_read_loses_no_byte(buffer: OrderedModel, limit: int)
    requires
        buffer.valid(),
        limit >= 0,
    ensures
        buffer.available() == buffer.available().take(buffer.read_result(limit).bytes as int)
            + buffer.on_read(limit).available(),
        buffer.on_read(limit).valid(),
{
    let payloads = ready(buffer.slots);
    let count = buffer.packets_for(limit) as int;
    let taken = buffer.carry + joined(payloads.take(count));
    let n = least(limit, taken.len() as int);
    lemma_needed(payloads, limit - buffer.carry.len());
    lemma_ready(buffer.slots, count);
    lemma_joined_take(payloads, count);
    assert(buffer.available() =~= taken + joined(payloads.skip(count)));
    if count == payloads.len() {
        assert(payloads.skip(count) =~= Seq::empty());
    }
    assert(n == least(limit, buffer.available().len() as int));
    assert(buffer.on_read(limit).available() =~= taken.skip(n) + joined(payloads.skip(count)));
    assert(buffer.available() =~= buffer.available().take(n) + (taken.skip(n) + joined(
        payloads.skip(count),
    )));
    lemma_read_stays_valid(buffer, limit);
}

/// A read of whole payloads hands out the beginning of what was available and
/// leaves the rest.
pub proof fn law_whole_read_loses_no_byte(buffer: OrderedModel, max_packets: nat)
    ensures
        buffer.available() == joined(buffer.whole_payloads(max_packets)) + buffer.on_whole_read(
            max_packets,
        ).available(),
{
    let payloads = ready(buffer.slots);
    let count = buffer.whole_packets(max_packets) as int;
    let handed = payloads.take(count);
    lemma_ready(buffer.slots, count);
    lemma_joined_take(payloads, count);
    if buffer.carry.len() > 0 {
        let all = seq![buffer.carry] + handed;
        assert(all.skip(1) =~= handed);
        assert(all[0] == buffer.carry);
    } else {
        assert(Seq::<Seq<u8>>::empty() + handed =~= handed);
        assert(buffer.carry =~= Seq::empty());
    }
    assert(joined(buffer.whole_payloads(max_packets)) =~= buffer.carry + joined(handed));
    assert(buffer.on_whole_read(max_packets).available() =~= joined(payloads.skip(count)));
    assert(buffer.available() =~= (buffer.carry + joined(handed)) + joined(payloads.skip(count)));
}

/// What a read of whole payloads hands out can be counted.
pub proof fn lemma_whole_read_fits(buffer: OrderedModel, max_packets: nat)
    requires
        buffer.valid(),
    ensures
        buffer.whole_read_result(max_packets).packets <= MAX_BUFFER_SIZE,
        buffer.whole_read_result(max_packets).bytes <= u32::MAX,
{
    let payloads = ready(buffer.slots);
    let count = buffer.whole_packets(max_packets) as int;
    lemma_ready(buffer.slots, count);
    let handed = buffer.whole_payloads(max_packets);
    assert forall|i: int| 0 <= i < handed.len() implies (#[trigger] handed[i]).len()
        <= u16::MAX by {
        let first: int = if buffer.carry.len() > 0 {
            1
        } else {
            0
        };
        if i >= first {
            let k = i - first;
            assert(handed[i] == payloads[k]);
            lemma_ready(buffer.slots, k);
            assert(buffer.slots[k]->0.len() <= u16::MAX);
        }
    }
    lemma_joined_bounded(handed, u16::MAX as int);
    assert(handed.len() * (u16::MAX as int) <= 10_001 * (u16::MAX as int)) by (nonlinear_arith)
        requires
            handed.len() <= 10_001,
    ;
}

proof fn lemma_joined_bounded(parts: Seq<Seq<u8>>, bound: int)
    requires
        forall|i: int| 0 <= i < parts.len() ==> (#[trigger] parts[i]).len() <= bound,
    ensures
        joined(parts).len() <= parts.len() * bound,
    decreases parts.len(),
{
    if parts.len() > 0 {
        let rest = parts.skip(1);
        assert forall|i: int| 0 <= i < rest.len() implies (#[trigger] rest[i]).len() <= bound by {
            assert(rest[i] == parts[i + 1]);
        }
        lemma_joined_bounded(rest, bound);
        assert(parts[0].len() <= bound);
        assert(rest.len() * bound + bound == parts.len() * bound) by (nonlinear_arith)
            requires
                rest.len() + 1 == parts.len(),
        ;
    }
}

proof fn lemma_read_stays_valid(buffer: OrderedModel, limit: int)
    requires
        buffer.valid(),
        limit >= 0,
    ensures
        buffer.on_read(limit).valid(),
{
    let payloads = ready(buffer.slots);
    let count = buffer.packets_for(limit) as int;
    lemma_needed(payloads, limit - buffer.carry.len());
    lemma_ready(buffer.slots, count);
    let after = buffer.on_read(limit);
    assert forall|i: int| 0 <= i < after.slots.len() && after.slots[i] is Some implies (
    #[trigger] after.slots[i])->0.len() <= u16::MAX by {
        assert(after.slots[i] == buffer.slots[i + count]);
    }
    lemma_needed_tight(payloads, limit - buffer.carry.len());
    if count > 0 {
        lemma_ready(buffer.slots, count - 1);
        lemma_take_step(payloads, count - 1);
        assert(buffer.slots[count - 1]->0.len() <= u16::MAX);
    } else {
        assert(payloads.take(0) =~= Seq::empty());
    }
}

/// No payload is taken in vain.
proof fn lemma_needed_tight(payloads: Seq<Seq<u8>>, wanted: int)
    ensures
        needed(payloads, wanted) > 0 ==> joined(
            payloads.take(needed(payloads, wanted) - 1),
        ).len() < wanted,
    decreases payloads.len(),
{
    if payloads.len() == 0 || wanted <= 0 {
    } else {
        let rest = payloads.skip(1);
        lemma_needed_tight(rest, wanted - payloads[0].len());
        lemma_needed(payloads, wanted);
        lemma_needed(rest, wanted - payloads[0].len());
        let k = needed(payloads, wanted) - 1;
        if k == 0 {
            assert(payloads.take(0) =~= Seq::empty());
        } else {
            assert(payloads.take(k).skip(1) =~= rest.take(k - 1));
            assert(payloads.take(k)[0] == payloads[0]);
        }
    }
}

/// In which order two packets arrive does not matter.
pub proof fn law_arrival_order_is_irrelevant(
    buffer: OrderedModel,
    a: u64,
    b: u64,
    payload_a: Seq<u8>,
    payload_b: Seq<u8>,
)
    requires
        a != b,
    ensures
        buffer.on_packet(a, payload_a).on_packet(b, payload_b) == buffer.on_packet(
            b,
            payload_b,
        ).on_packet(a, payload_a),
{
    let one = buffer.on_packet(a, payload_a).on_packet(b, payload_b);
    let other = buffer.on_packet(b, payload_b).on_packet(a, payload_a);
    assert(buffer.on_packet(a, payload_a).refusal(b) == buffer.refusal(b));
    assert(buffer.on_packet(b, payload_b).refusal(a) == buffer.refusal(a));
    assert(one.slots =~= other.slots);
}

/// A packet that arrives a second time changes nothing.
pub proof fn law_duplicate_is_ignored(buffer: OrderedModel, number: u64, first: Seq<u8>, again: Seq<u8>)
    ensures
        buffer.on_packet(number, first).on_packet(number, again) == buffer.on_packet(number, first),
{
}

/// Copies the bytes into the buffer from `at` on.
fn copy_at(buf: &mut [u8], at: usize, bytes: &Vec<u8>)
    requires
        at + bytes@.len() <= old(buf)@.len(),
    ensures
        final(buf)@ == old(buf)@.take(at as int) + bytes@ + old(buf)@.skip(at + bytes@.len()),
{
    let ghost before = buf@;
    let total: usize = buf.len();
    let count: usize = bytes.len();
    let mut i: usize = 0;
    while i < count
        invariant
            i <= count,
            count == bytes@.len(),
            at + count <= total,
            total == before.len(),
            buf@.len() == total,
            buf@ == before.take(at as int) + bytes@.take(i as int) + before.skip(at + i),
        decreases count - i,
    {
        buf[at + i] = bytes[i];
        assert(buf@ =~= before.take(at as int) + bytes@.take(i + 1) + before.skip(at + i + 1));
        i = i + 1;
    }
    assert(bytes@.take(count as int) =~= bytes@);
}

impl OrderedBytes {
    /// The buffer is in a state that its methods keep.
    pub open spec fn valid(&self) -> bool {
        self@.valid()
    }

    pub fn new(src_conn_id: u32, start_packet_number: u64) -> (buffer: Self)
        ensures
            buffer@ == OrderedModel::fresh(start_packet_number),
            buffer.valid(),
    {
        let buffer = OrderedBytes {
            src_conn_id,
            next: start_packet_number,
            slots: VecDeque::new(),
            carry: Vec::new(),
        };
        assert(buffer@ =~= OrderedModel::fresh(start_packet_number));
        buffer
    }

    /// Sets the number of the next packet to be read, and forgets what was
    /// buffered under other numbers.
    pub fn set_start_packet_number(&mut self, start_packet_number: u64)
        ensures
            final(self)@ == OrderedModel::fresh(start_packet_number),
            final(self).valid(),
    {
        self.next = start_packet_number;
        self.slots = VecDeque::new();
        self.carry = Vec::new();
        assert(self@ =~= OrderedModel::fresh(start_packet_number));
    }

    /// Something can be read.
    fn is_readable(&self) -> (readable: bool)
        ensures
            readable == self@.readable(),
    {
        if self.carry.len() > 0 {
            return true;
        }
        if self.slots.len() == 0 {
            return false;
        }
        let first: &Option<Vec<u8>> = &self.slots[0];
        assert(self@.slots[0] == slot_view(self.slots@[0]));
        first.is_some()
    }

    /// Says whether something can be read.
    pub fn peek(&self) -> (peeked: BluefinResult<()>)
        ensures
            self@.readable() ==> peeked == Ok::<(), BluefinError>(()),
            !self@.readable() ==> fails_with(peeked, ErrorView::BufferEmptyError),
    {
        if self.is_readable() {
            Ok(())
        } else {
            Err(BluefinError::BufferEmptyError)
        }
    }

    /// Puts the packet into its slot.
    pub fn buffer_in_packet(&mut self, packet: BluefinPacket) -> (buffered: BluefinResult<()>)
        requires
            old(self).valid(),
            packet@.payload.len() <= u16::MAX,
        ensures
            final(self).valid(),
            final(self)@ == old(self)@.on_packet(packet@.header.packet_number, packet@.payload),
            match old(self)@.refusal(packet@.header.packet_number) {
                Some(e) => fails_with(buffered, e),
                None => buffered == Ok::<(), BluefinError>(()),
            },
    {
        let ghost start = self@;
        let number: u64 = packet.header.packet_number;
        if number < self.next || number == u64::MAX {
            return Err(BluefinError::UnexpectedPacketNumberError);
        }
        if number - self.next >= MAX_BUFFER_SIZE as u64 {
            return Err(
                BluefinError::BufferFullError(
                    "Packet number is too far ahead of what can be buffered.".to_string(),
                ),
            );
        }
        let at: usize = (number - self.next) as usize;
        if at < self.slots.len() {
            assert(start.slots[at as int] == slot_view(self.slots@[at as int]));
            let taken: bool = self.slots[at].is_some();
            if taken {
                return Err(BluefinError::UnexpectedPacketNumberError);
            }
            let _ = self.slots.remove(at);
            self.slots.insert(at, Some(packet.payload));
        } else {
            while self.slots.len() < at
                invariant
                    self.next == start.next,
                    self.carry@ == start.carry,
                    start.slots.len() <= self.slots@.len() <= at < MAX_BUFFER_SIZE,
                    forall|i: int|
                        0 <= i < self.slots@.len() ==> slot_view(#[trigger] self.slots@[i]) == if i
                            < start.slots.len() {
                            start.slots[i]
                        } else {
                            None
                        },
                decreases at - self.slots@.len(),
            {
                self.slots.push_back(None);
            }
            self.slots.push_back(Some(packet.payload));
        }
        proof {
            assert(self@.slots =~= start.on_packet(number, packet@.payload).slots);
        }
        Ok(())
    }

    /// Takes the payload of the next packet out of its slot, where it arrived.
    fn pop_ready(&mut self) -> (payload: Option<Vec<u8>>)
        requires
            old(self).valid(),
        ensures
            match payload {
                Some(payload) => {
                    &&& ready(old(self)@.slots).len() > 0
                    &&& payload@ == ready(old(self)@.slots)[0]
                    &&& final(self)@ == (OrderedModel {
                        next: (old(self)@.next + 1) as u64,
                        slots: old(self)@.slots.skip(1),
                        ..old(self)@
                    })
                    &&& final(self).valid()
                },
                None => *final(self) == *old(self) && ready(old(self)@.slots).len() == 0,
            },
    {
        let ghost start = self@;
        if self.slots.len() == 0 {
            return None;
        }
        assert(start.slots[0] == slot_view(self.slots@[0]));
        let arrived: bool = self.slots[0].is_some();
        if !arrived {
            return None;
        }
        let slot: Option<Vec<u8>> = self.slots.pop_front().unwrap();
        self.next = self.next + 1;
        proof {
            assert(self@.slots =~= start.slots.skip(1));
            assert forall|i: int| 0 <= i < self@.slots.len() && self@.slots[i] is Some implies (
            #[trigger] self@.slots[i])->0.len() <= u16::MAX by {
                assert(self@.slots[i] == start.slots[i + 1]);
            }
        }
        slot
    }

    /// Reads up to `bytes_to_read` bytes over the beginning of `buf`, as far as
    /// they arrived without a gap and as `buf` has room.
    pub fn consume(&mut self, bytes_to_read: usize, buf: &mut [u8]) -> (consumed: BluefinResult<
        ConsumeResult,
    >)
        requires
            old(self).valid(),
        ensures
            final(self).valid(),
            match consumed {
                Ok(result) => {
                    let limit = least(bytes_to_read as int, old(buf)@.len() as int);
                    &&& old(self)@.readable()
                    &&& result@ == old(self)@.read_result(limit)
                    &&& final(self)@ == old(self)@.on_read(limit)
                    &&& final(buf)@ == old(self)@.available().take(result@.bytes as int) + old(
                        buf,
                    )@.skip(result@.bytes as int)
                },
                Err(e) => {
                    &&& !old(self)@.readable()
                    &&& e@ == ErrorView::BufferEmptyError
                    &&& *final(self) == *old(self)
                    &&& final(buf)@ == old(buf)@
                },
            },
    {
        let ghost start = self@;
        let ghost before = buf@;
        let ghost payloads = ready(start.slots);
        if !self.is_readable() {
            return Err(BluefinError::BufferEmptyError);
        }
        let room: usize = buf.len();
        let limit: usize = if bytes_to_read <= room {
            bytes_to_read
        } else {
            room
        };
        let base: u64 = self.next;
        let from_carry: usize = if self.carry.len() <= limit {
            self.carry.len()
        } else {
            limit
        };
        let rest: Vec<u8> = self.carry.split_off(from_carry);
        copy_at(buf, 0, &self.carry);
        let mut written: usize = from_carry;
        self.carry = rest;
        let mut packets: usize = 0;
        proof {
            lemma_ready(start.slots, 0);
            assert(payloads.take(0) =~= Seq::empty());
            assert(payloads.skip(0) =~= payloads);
            assert(start.carry + joined(payloads.take(0)) =~= start.carry);
            assert(buf@ =~= start.carry.take(written as int) + before.skip(written as int));
            assert(self.carry@ =~= start.carry.skip(written as int));
            assert(start.slots.skip(0) =~= start.slots);
            assert(self@.slots =~= start.slots);
        }
        while written < limit
            invariant_except_break
                self.valid(),
                start.valid(),
                payloads == ready(start.slots),
                packets <= payloads.len() <= start.slots.len() <= MAX_BUFFER_SIZE,
                self@.slots == start.slots.skip(packets as int),
                self@.next == start.next + packets,
                limit <= before.len(),
                buf@.len() == before.len(),
                written == least(
                    limit as int,
                    (start.carry + joined(payloads.take(packets as int))).len() as int,
                ),
                self@.carry == (start.carry + joined(payloads.take(packets as int))).skip(
                    written as int,
                ),
                buf@ == (start.carry + joined(payloads.take(packets as int))).take(written as int)
                    + before.skip(written as int),
                start.packets_for(limit as int) == packets + needed(
                    payloads.skip(packets as int),
                    limit - (start.carry + joined(payloads.take(packets as int))).len(),
                ),
            ensures
                self.valid(),
                packets == start.packets_for(limit as int),
                packets <= payloads.len() <= MAX_BUFFER_SIZE,
                self@.slots == start.slots.skip(packets as int),
                self@.next == start.next + packets,
                written == least(
                    limit as int,
                    (start.carry + joined(payloads.take(packets as int))).len() as int,
                ),
                self@.carry == (start.carry + joined(payloads.take(packets as int))).skip(
                    written as int,
                ),
                buf@ == (start.carry + joined(payloads.take(packets as int))).take(written as int)
                    + before.skip(written as int),
            decreases payloads.len() - packets,
        {
            proof {
                lemma_ready(start.slots, packets as int);
            }
            let ghost so_far = start.carry + joined(payloads.take(packets as int));
            match self.pop_ready() {
                None => {
                    break;
                },
                Some(mut payload) => {
                    let wanted: usize = limit - written;
                    let count: usize = if payload.len() <= wanted {
                        payload.len()
                    } else {
                        wanted
                    };
                    let ghost whole = payload@;
                    let rest: Vec<u8> = payload.split_off(count);
                    copy_at(buf, written, &payload);
                    proof {
                        lemma_take_step(payloads, packets as int);
                        let more = start.carry + joined(payloads.take(packets + 1));
                        assert(more =~= so_far + whole);
                        assert(payloads.skip(packets as int).skip(1) =~= payloads.skip(
                            packets + 1,
                        ));
                        assert(so_far.skip(written as int) =~= Seq::empty());
                        assert(rest@ =~= more.skip(written + count));
                        assert(buf@ =~= more.take(written + count) + before.skip(written + count));
                        assert(start.slots.skip(packets as int).skip(1) =~= start.slots.skip(
                            packets + 1,
                        ));
                        assert(whole == start.slots[packets as int]->0);
                    }
                    written = written + count;
                    self.carry = rest;
                    packets = packets + 1;
                },
            }
        }
        proof {
            lemma_needed(payloads, limit - start.carry.len());
            lemma_joined_take(payloads, packets as int);
            if packets == payloads.len() {
                assert(payloads.skip(packets as int) =~= Seq::empty());
            }
            let taken = start.carry + joined(payloads.take(packets as int));
            assert(start.available() =~= taken + joined(payloads.skip(packets as int)));
            assert(start.available().take(written as int) =~= taken.take(written as int));
            assert(self@ =~= start.on_read(limit as int));
        }
        Ok(
            ConsumeResult::new(
                packets,
                if packets > 0 {
                    base
                } else {
                    0
                },
                written as u64,
            ),
        )
    }

    /// Reads up to `max_packets` whole payloads, as far as they arrived without a
    /// gap, and appends them to `out`.
    pub fn consume_bytes(&mut self, out: &mut Vec<Bytes>, max_packets: usize) -> (consumed:
        BluefinResult<ConsumeResult>)
        requires
            old(self).valid(),
        ensures
            final(self).valid(),
            match consumed {
                Ok(result) => {
                    &&& old(self)@.readable()
                    &&& result@ == old(self)@.whole_read_result(max_packets as nat)
                    &&& final(self)@ == old(self)@.on_whole_read(max_packets as nat)
                    &&& bytes_parts(final(out)@) == bytes_parts(old(out)@) + old(
                        self,
                    )@.whole_payloads(max_packets as nat)
                },
                Err(e) => {
                    &&& !old(self)@.readable()
                    &&& e@ == ErrorView::BufferEmptyError
                    &&& *final(self) == *old(self)
                    &&& final(out)@ == old(out)@
                },
            },
    {
        let ghost start = self@;
        let ghost before = bytes_parts(out@);
        let ghost payloads = ready(start.slots);
        if !self.is_readable() {
            return Err(BluefinError::BufferEmptyError);
        }
        let base: u64 = self.next;
        let mut bytes: u64 = 0;
        let mut packets: usize = 0;
        let ghost first: Seq<Seq<u8>> = if start.carry.len() > 0 {
            seq![start.carry]
        } else {
            Seq::empty()
        };
        if self.carry.len() > 0 {
            let mut carry: Vec<u8> = Vec::new();
            core::mem::swap(&mut carry, &mut self.carry);
            bytes = carry.len() as u64;
            let ghost queued = out@;
            out.push(Bytes::from(carry));
            assert(bytes_parts(out@) =~= bytes_parts(queued).push(start.carry));
        }
        proof {
            reveal_with_fuel(joined, 2);
            assert(first.len() > 0 ==> first.skip(1) =~= Seq::empty());
            assert(joined(first) =~= start.carry);
            lemma_ready(start.slots, 0);
            assert(payloads.take(0) =~= Seq::empty());
            assert(payloads.skip(0) =~= payloads);
            assert(first + payloads.take(0) =~= first);
            assert(bytes_parts(out@) =~= before + (first + payloads.take(0)));
            assert(start.slots.skip(0) =~= start.slots);
            assert(self@.slots =~= start.slots);
            assert(self@.carry =~= Seq::empty());
        }
        while packets < max_packets
            invariant_except_break
                self.valid(),
                start.valid(),
                payloads == ready(start.slots),
                packets <= payloads.len() <= start.slots.len() <= MAX_BUFFER_SIZE,
                packets <= max_packets,
                self@.slots == start.slots.skip(packets as int),
                self@.next == start.next + packets,
                self@.carry == Seq::<u8>::empty(),
                bytes_parts(out@) == before + (first + payloads.take(packets as int)),
                bytes == joined(first + payloads.take(packets as int)).len(),
                bytes <= u16::MAX * (packets + 1),
            ensures
                self.valid(),
                packets == start.whole_packets(max_packets as nat),
                self@.slots == start.slots.skip(packets as int),
                self@.next == start.next + packets,
                self@.carry == Seq::<u8>::empty(),
                bytes_parts(out@) == before + (first + payloads.take(packets as int)),
                bytes == joined(first + payloads.take(packets as int)).len(),
            decreases payloads.len() - packets,
        {
            proof {
                lemma_ready(start.slots, packets as int);
            }
            match self.pop_ready() {
                None => {
                    break;
                },
                Some(payload) => {
                    proof {
                        let so_far = first + payloads.take(packets as int);
                        lemma_joined_push(so_far, payload@);
                        assert(first + payloads.take(packets + 1) =~= so_far.push(payload@));
                        assert(payload@ == start.slots[packets as int]->0);
                        assert(payload@.len() <= u16::MAX);
                        assert(start.slots.skip(packets as int).skip(1) =~= start.slots.skip(
                            packets + 1,
                        ));
                    }
                    bytes = bytes + payload.len() as u64;
                    let ghost queued = out@;
                    out.push(Bytes::from(payload));
                    assert(bytes_parts(out@) =~= bytes_parts(queued).push(payload@));
                    packets = packets + 1;
                },
            }
        }
        proof {
            assert(self@ =~= start.on_whole_read(max_packets as nat));
        }
        Ok(
            ConsumeResult::new(
                packets,
                if packets > 0 {
                    base
                } else {
                    0
                },
                bytes,
            ),
        )
    }
}

/// A packet is taken exactly where its number is one of the next 10000 that can be
/// read, it is not there yet, and it is not the last number of all. It then stands at
/// its place, whatever arrived before, and nothing else changes.
pub proof fn law_packet_goes_to_its_place(buffer: OrderedModel, number: u64, payload: Seq<u8>)
    ensures
        buffer.refusal(number) is None <==> {
            &&& buffer.next <= number < buffer.next + 10000
            &&& number != u64::MAX
            &&& number - buffer.next >= buffer.slots.len()
                || buffer.slots[number - buffer.next] is None
        },
        buffer.on_packet(number, payload).next == buffer.next,
        buffer.on_packet(number, payload).carry == buffer.carry,
        buffer.refusal(number) is Some ==> buffer.on_packet(number, payload) == buffer,
        buffer.refusal(number) is None ==> buffer.on_packet(number, payload).slots[number
            - buffer.next] == Some(payload),
        forall|i: int|
            0 <= i < buffer.slots.len() && i != number - buffer.next ==> #[trigger] buffer.on_packet(
                number,
                payload,
            ).slots[i] == buffer.slots[i],
        forall|i: int|
            buffer.slots.len() <= i < buffer.on_packet(number, payload).slots.len() && i != number
                - buffer.next ==> #[trigger] buffer.on_packet(number, payload).slots[i] is None,
{
}

/// Something can be read wherever there are bytes to read, and nothing can where
/// neither a byte is left over nor the next packet has come.
pub proof fn law_bytes_can_be_read(buffer: OrderedModel)
    ensures
        buffer.available().len() > 0 ==> buffer.readable(),
        buffer.readable() <==> buffer.carry.len() > 0 || ready(buffer.slots).len() > 0,
        !OrderedModel::fresh(buffer.next).readable(),
{
    if ready(buffer.slots).len() == 0 {
        assert(ready(buffer.slots) =~= Seq::empty());
    }
}

/// A read gives as many bytes as are asked for, or all that there are. It takes the
/// packets that it needs for that and no more, tells how many they are and the number
/// of the first of them, and the next one to be read is the one after them.
pub proof fn law_read_takes_what_it_needs(buffer: OrderedModel, limit: int)
    requires
        buffer.valid(),
        limit >= 0,
    ensures
        ({
            let result = buffer.read_result(limit);
            let packets = ready(buffer.slots);
            &&& result.bytes == if buffer.available().len() <= limit {
                buffer.available().len() as int
            } else {
                limit
            }
            &&& result.packets <= packets.len()
            &&& buffer.on_read(limit).next == buffer.next + result.packets
            &&& result.packets > 0 ==> result.base == buffer.next
            &&& buffer.carry.len() + joined(packets.take(result.packets as int)).len()
                >= result.bytes
            &&& result.packets > 0 ==> buffer.carry.len() + joined(
                packets.take(result.packets - 1),
            ).len() < limit
        }),
{
    let packets = ready(buffer.slots);
    lemma_needed(packets, limit - buffer.carry.len());
    lemma_needed_tight(packets, limit - buffer.carry.len());
    lemma_ready(buffer.slots, 0);
    lemma_joined_take(packets, buffer.packets_for(limit) as int);
    if buffer.packets_for(limit) == packets.len() {
        assert(packets.take(packets.len() as int) =~= packets);
    }
}

/// A read of whole payloads takes as many packets as are asked for, or all that came
/// without a gap; it hands out each of their payloads, after what was left over of one
/// that was read in part; and the next packet to be read is the one after them. Where
/// all were asked for, nothing is left to be read.
pub proof fn law_whole_read_takes_whole_packets(buffer: OrderedModel, max_packets: nat)
    requires
        buffer.valid(),
    ensures
        ({
            let result = buffer.whole_read_result(max_packets);
            let packets = ready(buffer.slots);
            let handed = buffer.whole_payloads(max_packets);
            let first: int = if buffer.carry.len() > 0 {
                1
            } else {
                0
            };
            &&& result.packets == if packets.len() <= max_packets {
                packets.len()
            } else {
                max_packets
            }
            &&& result.packets > 0 ==> result.base == buffer.next
            &&& buffer.on_whole_read(max_packets).next == buffer.next + result.packets
            &&& handed.len() == first + result.packets
            &&& first == 1 ==> handed[0] == buffer.carry
            &&& forall|i: int|
                0 <= i < result.packets ==> handed[first + i] == #[trigger] packets[i]
            &&& result.bytes == joined(handed).len()
            &&& packets.len() <= max_packets ==> !buffer.on_whole_read(max_packets).readable()
        }),
{
    let packets = ready(buffer.slots);
    let count = buffer.whole_packets(max_packets) as int;
    lemma_ready(buffer.slots, count);
    lemma_ready(buffer.slots, packets.len() as int);
    if packets.len() <= max_packets {
        law_bytes_can_be_read(buffer.on_whole_read(max_packets));
        assert(packets.skip(count) =~= Seq::empty());
    }
}

/// What is said of a packet that is refused: that its number is not expected, where the
/// packet came already or is the last of all, and that the buffer is full, where the
/// packet is too far ahead.
pub proof fn law_refusals_are_told(buffer: OrderedModel, number: u64)
    ensures
        number < buffer.next ==> buffer.refusal(number) == Some(
            ErrorView::UnexpectedPacketNumberError,
        ),
        number == u64::MAX ==> buffer.refusal(number) == Some(
            ErrorView::UnexpectedPacketNumberError,
        ),
        buffer.next + 10000 <= number < u64::MAX ==> buffer.refusal(number) is Some
            && buffer.refusal(number)->0 is BufferFullError,
        buffer.next <= number < buffer.next + 10000 ==> buffer.refusal(number) is None
            || buffer.refusal(number) == Some(ErrorView::UnexpectedPacketNumberError),
{
}

/// A read that takes no packet out of the buffer tells no number.
pub proof fn law_no_packet_has_no_number(buffer: OrderedModel, limit: int, max_packets: nat)
    ensures
        buffer.read_result(limit).packets == 0 ==> buffer.read_result(limit).base == 0,
        buffer.whole_read_result(max_packets).packets == 0 ==> buffer.whole_read_result(
            max_packets,
        ).base == 0,
{
}

} // verus!

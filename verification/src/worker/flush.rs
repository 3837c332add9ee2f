//! What a flush waits for: the way of the accepted bytes onto the wire.
use vstd::prelude::*;

use crate::wire::packet::PacketView;
use crate::worker::packing::{
    datagram_payload, joined, law_datagram_is_bounded, leftover, lemma_datagram_len,
    lemma_joined_push, packets_in, payloads,
};
use crate::worker::pending::{count_with, count_without, flush_is_over};
use crate::worker::pump::{
    DATAGRAMS_PER_BATCH, DataPumpModel, batch, batch_loads, batch_payload, law_batch_loses_no_byte,
};

verus! {

/// What happens to the bytes of a connection on their way out.
pub ghost enum WriteStep {
    /// A payload is offered to the channel, and counted.
    Offer(Seq<u8>),
    /// The channel takes the payload that was offered: it is accepted.
    Accept,
    /// The channel does not take the payload that was offered: it is taken off the
    /// count again.
    Refuse,
    /// The writer takes so many of the accepted payloads.
    Receive(nat),
    /// The writer makes its next datagrams.
    Make,
    /// The first of the datagrams that were made is on the wire: its payload is
    /// taken off the count.
    Send,
}

/// The bytes of a connection on their way out, and the count of those that are not on
/// the wire yet.
#[verifier::ext_equal]
pub ghost struct Writing {
    /// The payload that is offered to the channel.
    pub offered: Option<Seq<u8>>,
    /// All bytes that were accepted.
    pub accepted: Seq<u8>,
    /// The payloads that the writer has not taken yet.
    pub waiting: Seq<Seq<u8>>,
    pub pump: DataPumpModel,
    /// The datagrams that were made and are not on the wire yet.
    pub made: Seq<Seq<PacketView>>,
    /// The datagrams on the wire.
    pub wire: Seq<Seq<PacketView>>,
    /// The count of pending bytes.
    pub pending: int,
}

impl Writing {
    /// Nothing was accepted yet.
    pub open spec fn fresh(next_packet_num: u64, src_conn_id: u32, dst_conn_id: u32) -> Writing {
        Writing {
            offered: None,
            accepted: Seq::empty(),
            waiting: Seq::empty(),
            pump: DataPumpModel {
                queued: Seq::empty(),
                next_packet_num,
                src_conn_id,
                dst_conn_id,
            },
            made: Seq::empty(),
            wire: Seq::empty(),
            pending: 0,
        }
    }

    pub open spec fn on_step(self, step: WriteStep) -> Writing {
        match step {
            WriteStep::Offer(payload) => if self.offered is None {
                Writing {
                    offered: Some(payload),
                    pending: count_with(self.pending, payload.len() as int),
                    ..self
                }
            } else {
                self
            },
            WriteStep::Accept => match self.offered {
                Some(payload) => Writing {
                    offered: None,
                    accepted: self.accepted + payload,
                    waiting: self.waiting.push(payload),
                    ..self
                },
                None => self,
            },
            WriteStep::Refuse => match self.offered {
                Some(payload) => Writing {
                    offered: None,
                    pending: count_without(self.pending, payload.len() as int),
                    ..self
                },
                None => self,
            },
            WriteStep::Receive(count) => if count <= self.waiting.len() {
                Writing {
                    waiting: self.waiting.skip(count as int),
                    pump: self.pump.on_receive(self.waiting.take(count as int)),
                    ..self
                }
            } else {
                self
            },
            WriteStep::Make => Writing {
                made: self.made + self.pump.next_batch(),
                pump: self.pump.on_batch(),
                ..self
            },
            WriteStep::Send => if self.made.len() > 0 {
                Writing {
                    made: self.made.skip(1),
                    wire: self.wire.push(self.made[0]),
                    pending: count_without(self.pending, batch_loads(self.made)[0] as int),
                    ..self
                }
            } else {
                self
            },
        }
    }

    /// The steps happen, one after the other.
    pub open spec fn on_steps(self, steps: Seq<WriteStep>) -> Writing
        decreases steps.len(),
    {
        if steps.len() == 0 {
            self
        } else {
            self.on_steps(steps.drop_last()).on_step(steps.last())
        }
    }

    /// What was accepted and is not on the wire yet.
    pub open spec fn unsent(self) -> Seq<u8> {
        (batch_payload(self.made) + joined(self.pump.queued)) + joined(self.waiting)
    }

    /// How many bytes are offered to the channel.
    pub open spec fn offered_len(self) -> nat {
        match self.offered {
            Some(payload) => payload.len(),
            None => 0,
        }
    }
}

proof fn lemma_joined_concat(first: Seq<Seq<u8>>, second: Seq<Seq<u8>>)
    ensures
        joined(first + second) == joined(first) + joined(second),
    decreases first.len(),
{
    if first.len() == 0 {
        assert(first + second =~= second);
        assert(Seq::<u8>::empty() + joined(second) =~= joined(second));
    } else {
        let all = first + second;
        assert(all.skip(1) =~= first.skip(1) + second);
        lemma_joined_concat(first.skip(1), second);
        assert(all[0] == first[0]);
        assert(first[0] + (joined(first.skip(1)) + joined(second)) =~= (first[0] + joined(
            first.skip(1),
        )) + joined(second));
    }
}

proof fn lemma_payload_concat(first: Seq<Seq<PacketView>>, second: Seq<Seq<PacketView>>)
    ensures
        batch_payload(first + second) == batch_payload(first) + batch_payload(second),
    decreases first.len(),
{
    if first.len() == 0 {
        assert(first + second =~= second);
        assert(Seq::<u8>::empty() + batch_payload(second) =~= batch_payload(second));
    } else {
        let all = first + second;
        let head = joined(payloads(first[0]));
        assert(all.skip(1) =~= first.skip(1) + second);
        lemma_payload_concat(first.skip(1), second);
        assert(all[0] == first[0]);
        assert(head + (batch_payload(first.skip(1)) + batch_payload(second)) =~= (head
            + batch_payload(first.skip(1))) + batch_payload(second));
    }
}

/// The payload of each datagram is short enough to be counted.
spec fn loads_fit(datagrams: Seq<Seq<PacketView>>) -> bool {
    forall|i: int|
        0 <= i < datagrams.len() ==> joined(payloads(#[trigger] datagrams[i])).len() <= 15_200
}

proof fn lemma_batch_fits(
    parts: Seq<Seq<u8>>,
    first: u64,
    src_conn_id: u32,
    dst_conn_id: u32,
    limit: nat,
)
    ensures
        loads_fit(batch(parts, first, src_conn_id, dst_conn_id, limit)),
    decreases limit,
{
    let datagrams = batch(parts, first, src_conn_id, dst_conn_id, limit);
    if limit > 0 && joined(parts).len() > 0 {
        let rest = leftover(parts, datagram_payload());
        let next = (first + packets_in(joined(parts).len())) as u64;
        let later = batch(rest, next, src_conn_id, dst_conn_id, (limit - 1) as nat);
        lemma_batch_fits(rest, next, src_conn_id, dst_conn_id, (limit - 1) as nat);
        law_datagram_is_bounded(joined(parts), first, src_conn_id, dst_conn_id);
        lemma_datagram_len(joined(parts), first, src_conn_id, dst_conn_id);
        assert forall|i: int| 0 <= i < datagrams.len() implies joined(
            payloads(#[trigger] datagrams[i]),
        ).len() <= 15_200 by {
            if i > 0 {
                assert(datagrams[i] == later[i - 1]);
            }
        }
    }
}

/// The accepted bytes are those on the wire and those that are not, in order, and the
/// count is that of the latter and of what is offered.
spec fn counted(now: Writing) -> bool {
    &&& now.accepted == batch_payload(now.wire) + now.unsent()
    &&& now.pending == now.unsent().len() + now.offered_len()
    &&& loads_fit(now.made)
}

#[verifier::spinoff_prover]
#[verifier::rlimit(60)]
proof fn lemma_step(before: Writing, step: WriteStep)
    requires
        counted(before),
    ensures
        counted(before.on_step(step)),
{
    let after = before.on_step(step);
    let wire = batch_payload(before.wire);
    let made = batch_payload(before.made);
    let queued = joined(before.pump.queued);
    let waiting = joined(before.waiting);
    match step {
        WriteStep::Offer(_) => {},
        WriteStep::Accept => {
            if before.offered is Some {
                let payload = before.offered->0;
                lemma_joined_push(before.waiting, payload);
                assert((wire + ((made + queued) + waiting)) + payload =~= wire + ((made + queued)
                    + (waiting + payload)));
            }
        },
        WriteStep::Refuse => {},
        WriteStep::Receive(count) => {
            if count <= before.waiting.len() {
                let taken = before.waiting.take(count as int);
                let left = before.waiting.skip(count as int);
                assert(taken + left =~= before.waiting);
                lemma_joined_concat(taken, left);
                lemma_joined_concat(before.pump.queued, taken);
                assert((made + queued) + (joined(taken) + joined(left)) =~= (made + (queued
                    + joined(taken))) + joined(left));
            }
        },
        WriteStep::Make => {
            let pump = before.pump;
            let batched = pump.next_batch();
            law_batch_loses_no_byte(
                pump.queued,
                pump.next_packet_num,
                pump.src_conn_id,
                pump.dst_conn_id,
                DATAGRAMS_PER_BATCH as nat,
            );
            lemma_batch_fits(
                pump.queued,
                pump.next_packet_num,
                pump.src_conn_id,
                pump.dst_conn_id,
                DATAGRAMS_PER_BATCH as nat,
            );
            lemma_payload_concat(before.made, batched);
            let rest = joined(pump.on_batch().queued);
            assert((made + (batch_payload(batched) + rest)) + waiting =~= ((made + batch_payload(
                batched,
            )) + rest) + waiting);
            assert forall|i: int| 0 <= i < after.made.len() implies joined(
                payloads(#[trigger] after.made[i]),
            ).len() <= 15_200 by {
                if i < before.made.len() {
                    assert(after.made[i] == before.made[i]);
                } else {
                    assert(after.made[i] == batched[i - before.made.len()]);
                }
            }
        },
        WriteStep::Send => {
            if before.made.len() > 0 {
                let first = before.made[0];
                let load = joined(payloads(first));
                let left = batch_payload(before.made.skip(1));
                assert(before.wire.push(first) =~= before.wire + seq![first]);
                lemma_payload_concat(before.wire, seq![first]);
                reveal_with_fuel(batch_payload, 2);
                assert(seq![first].skip(1) =~= Seq::empty());
                assert(batch_payload(seq![first]) =~= load);
                assert(made == load + left);
                assert(wire + (((load + left) + queued) + waiting) =~= (wire + load) + ((left
                    + queued) + waiting));
                assert(batch_loads(before.made)[0] == load.len());
                assert forall|i: int| 0 <= i < after.made.len() implies joined(
                    payloads(#[trigger] after.made[i]),
                ).len() <= 15_200 by {
                    assert(after.made[i] == before.made[i + 1]);
                }
            }
        },
    }
}

/// Whatever has happened: the accepted bytes are those on the wire, followed by those
/// that are not there yet, in the order in which they were accepted; and the count is
/// the number of the latter, with what is just offered to the channel.
pub proof fn law_pending_bytes_are_the_unsent(
    next_packet_num: u64,
    src_conn_id: u32,
    dst_conn_id: u32,
    steps: Seq<WriteStep>,
)
    ensures
        ({
            let now = Writing::fresh(next_packet_num, src_conn_id, dst_conn_id).on_steps(steps);
            &&& now.accepted == batch_payload(now.wire) + now.unsent()
            &&& now.pending == now.unsent().len() + now.offered_len()
        }),
{
    lemma_steps(next_packet_num, src_conn_id, dst_conn_id, steps);
}

proof fn lemma_steps(
    next_packet_num: u64,
    src_conn_id: u32,
    dst_conn_id: u32,
    steps: Seq<WriteStep>,
)
    ensures
        counted(Writing::fresh(next_packet_num, src_conn_id, dst_conn_id).on_steps(steps)),
    decreases steps.len(),
{
    let fresh = Writing::fresh(next_packet_num, src_conn_id, dst_conn_id);
    if steps.len() == 0 {
        assert(batch_payload(fresh.wire) + fresh.unsent() =~= fresh.accepted);
    } else {
        lemma_steps(next_packet_num, src_conn_id, dst_conn_id, steps.drop_last());
        lemma_step(fresh.on_steps(steps.drop_last()), steps.last());
    }
}

/// A flush ends exactly when every accepted byte is on the wire: where nothing is just
/// offered to the channel, the count is zero if and only if the bytes on the wire are
/// all that were accepted.
pub proof fn law_flush_ends_when_all_is_sent(
    next_packet_num: u64,
    src_conn_id: u32,
    dst_conn_id: u32,
    steps: Seq<WriteStep>,
)
    ensures
        ({
            let now = Writing::fresh(next_packet_num, src_conn_id, dst_conn_id).on_steps(steps);
            &&& flush_is_over(now.pending) <==> now.pending == 0
            &&& now.pending == 0 ==> batch_payload(now.wire) == now.accepted
            &&& now.offered is None ==> (now.pending == 0 <==> batch_payload(now.wire)
                == now.accepted)
        }),
{
    let now = Writing::fresh(next_packet_num, src_conn_id, dst_conn_id).on_steps(steps);
    law_pending_bytes_are_the_unsent(next_packet_num, src_conn_id, dst_conn_id, steps);
    if now.pending == 0 {
        assert(now.unsent().len() == 0);
        assert(batch_payload(now.wire) + now.unsent() =~= batch_payload(now.wire));
    }
}

/// Where the queue of the writer is all that is pending, and the payload of its next
/// datagrams is taken off the count, what is left is what stays queued.
pub proof fn law_sent_batch_leaves_the_rest(pump: DataPumpModel, pending: nat)
    requires
        pending == joined(pump.queued).len(),
    ensures
        pending - batch_payload(pump.next_batch()).len() == joined(pump.on_batch().queued).len(),
{
    law_batch_loses_no_byte(
        pump.queued,
        pump.next_packet_num,
        pump.src_conn_id,
        pump.dst_conn_id,
        DATAGRAMS_PER_BATCH as nat,
    );
}

} // verus!

//! When the bytes that were read are acknowledged.
use vstd::prelude::*;

use crate::net::DiagnosticEvent;
use crate::net::ordered_bytes::ConsumeView;
use crate::worker::ack::AckData;
use crate::worker::reader::{
    PACKETS_CONSUMED_BEFORE_ACK, ReadOutcome, ReaderRxChannel, booked, nothing_booked,
};

verus! {

/// Reads were booked one after the other: the `i`-th one found `readers[i]` and left
/// the one after it.
pub open spec fn booked_in_turn(
    readers: Seq<ReaderRxChannel>,
    reads: Seq<ConsumeView>,
    outcomes: Seq<ReadOutcome>,
) -> bool {
    &&& readers.len() == reads.len() + 1
    &&& outcomes.len() == reads.len()
    &&& forall|i: int|
        0 <= i < reads.len() ==> {
            &&& booked(readers[i], reads[i], readers[i + 1], #[trigger] outcomes[i])
            &&& readers[i + 1].threshold() == readers[i].threshold()
        }
}

/// None of the first `count` reads gave an ack.
pub open spec fn no_ack_in(outcomes: Seq<ReadOutcome>, count: int) -> bool {
    forall|i: int| 0 <= i < count ==> (#[trigger] outcomes[i]).ack is None
}

/// How many packets were read in all.
pub open spec fn packets_read(reads: Seq<ConsumeView>) -> nat
    decreases reads.len(),
{
    if reads.len() == 0 {
        0
    } else {
        packets_read(reads.drop_last()) + reads.last().packets
    }
}

/// The count adds up. Over any number of reads without an ack, the packets that are
/// not acknowledged are those of before and those of all these reads.
pub proof fn law_unacknowledged_packets_add_up(
    readers: Seq<ReaderRxChannel>,
    reads: Seq<ConsumeView>,
    outcomes: Seq<ReadOutcome>,
)
    requires
        booked_in_turn(readers, reads, outcomes),
        no_ack_in(outcomes, outcomes.len() as int),
    ensures
        readers.last().unacknowledged() == readers[0].unacknowledged() + packets_read(reads),
        readers.last().threshold() == readers[0].threshold(),
    decreases reads.len(),
{
    if reads.len() > 0 {
        let last = reads.len() - 1;
        lemma_fewer(readers, reads, outcomes);
        let earlier = outcomes.drop_last();
        assert forall|i: int| 0 <= i < earlier.len() implies (
        #[trigger] earlier[i]).ack is None by {
            assert(earlier[i] == outcomes[i]);
        }
        law_unacknowledged_packets_add_up(readers.drop_last(), reads.drop_last(), earlier);
        assert(outcomes[last].ack is None);
        assert(booked(readers[last], reads[last], readers[last + 1], outcomes[last]));
    }
}

proof fn lemma_fewer(
    readers: Seq<ReaderRxChannel>,
    reads: Seq<ConsumeView>,
    outcomes: Seq<ReadOutcome>,
)
    requires
        booked_in_turn(readers, reads, outcomes),
        reads.len() > 0,
    ensures
        booked_in_turn(readers.drop_last(), reads.drop_last(), outcomes.drop_last()),
        readers.drop_last().last() == readers[reads.len() - 1],
        readers.drop_last()[0] == readers[0],
{
    let earlier = outcomes.drop_last();
    assert forall|i: int| 0 <= i < reads.len() - 1 implies {
        &&& booked(
            readers.drop_last()[i],
            reads.drop_last()[i],
            readers.drop_last()[i + 1],
            #[trigger] earlier[i],
        )
        &&& readers.drop_last()[i + 1].threshold() == readers.drop_last()[i].threshold()
    } by {
        assert(earlier[i] == outcomes[i]);
        assert(booked(readers[i], reads[i], readers[i + 1], outcomes[i]));
    }
}

/// An ack comes with the read that completes the threshold, and not before: where the
/// reads since the last ack, this one and what was counted at their beginning come to
/// at least so many packets. It acknowledges the packets of this read, the listener is
/// told of it, and the count begins anew. (The number zero cannot be acknowledged.)
pub proof fn law_ack_comes_when_it_is_due(
    readers: Seq<ReaderRxChannel>,
    reads: Seq<ConsumeView>,
    outcomes: Seq<ReadOutcome>,
)
    requires
        booked_in_turn(readers, reads, outcomes),
        reads.len() > 0,
        no_ack_in(outcomes, outcomes.len() - 1),
        reads.last().packets > 0,
        reads.last().base != 0,
    ensures
        outcomes.last().ack is Some <==> readers[0].unacknowledged() + packets_read(reads)
            >= readers[0].threshold(),
        outcomes.last().ack is Some ==> {
            &&& outcomes.last().ack == Some(
                AckData {
                    base_packet_num: reads.last().base,
                    num_packets_consumed: reads.last().packets as usize,
                },
            )
            &&& readers.last().unacknowledged() == 0
            &&& outcomes.last().events@.len() == 2
            &&& outcomes.last().events@[1] == (DiagnosticEvent::AckSent {
                base_packet_num: reads.last().base,
                count: reads.last().packets as usize,
            })
        },
{
    let last = reads.len() - 1;
    lemma_fewer(readers, reads, outcomes);
    let earlier = outcomes.drop_last();
    assert forall|i: int| 0 <= i < earlier.len() implies (#[trigger] earlier[i]).ack is None by {
        assert(earlier[i] == outcomes[i]);
    }
    law_unacknowledged_packets_add_up(readers.drop_last(), reads.drop_last(), earlier);
    assert(booked(readers[last], reads[last], readers[last + 1], outcomes[last]));
}

/// A reader that is new acknowledges after 200 packets.
pub proof fn law_reader_acknowledges_every_200_packets()
    ensures
        PACKETS_CONSUMED_BEFORE_ACK == 200,
{
}

/// The listener is told of each read that took packets, with their first number, how
/// many they were and how many bytes; of a read that took none nothing is told, and
/// nothing is acknowledged.
pub proof fn law_reads_are_told(
    before: ReaderRxChannel,
    consumed: ConsumeView,
    after: ReaderRxChannel,
    outcome: ReadOutcome,
)
    requires
        booked(before, consumed, after, outcome),
    ensures
        consumed.packets > 0 ==> {
            &&& outcome.events@.len() == if outcome.ack is Some {
                2nat
            } else {
                1nat
            }
            &&& outcome.events@[0] == (DiagnosticEvent::DataReceived {
                base_packet_num: consumed.base,
                num_packets: consumed.packets as usize,
                num_bytes: consumed.bytes as usize,
            })
        },
        consumed.packets == 0 ==> nothing_booked(before, after, outcome),
        nothing_booked(before, after, outcome) ==> outcome.ack is None && outcome.events@.len()
            == 0 && after.unacknowledged() == before.unacknowledged(),
{
}

} // verus!

//! The acks that a peer sent.
use std::collections::VecDeque;

use core::task::Waker;
use vstd::prelude::*;

use crate::error::{BluefinError, BluefinResult, ErrorView, fails_with};
use crate::net::wake::kept_waker;
use crate::wire::header::PacketType;
use crate::wire::packet::{BluefinPacket, PacketView};
use crate::worker::ack::AckData;

verus! {

broadcast use vstd::string::group_string_axioms;

/// The acks that arrived and were not looked at yet.
pub struct AckBuffer {
    next_expected: u64,
    received: VecDeque<AckData>,
    waker: Option<Waker>,
}

/// The mathematical value of an [`AckBuffer`].
#[verifier::ext_equal]
pub ghost struct AckBufferModel {
    /// The number of our first packet that can be acknowledged.
    pub next_expected: u64,
    pub received: Seq<AckData>,
    pub waker: Option<Waker>,
}

impl View for AckBuffer {
    type V = AckBufferModel;

    closed spec fn view(&self) -> AckBufferModel {
        AckBufferModel {
            next_expected: self.next_expected,
            received: self.received@,
            waker: self.waker,
        }
    }
}

/// What an ack packet tells.
pub open spec fn ack_of(packet: PacketView) -> AckData {
    AckData {
        base_packet_num: packet.header.packet_number,
        num_packets_consumed: packet.header.type_specific_payload as usize,
    }
}

impl AckBufferModel {
    pub open spec fn fresh(next_expected: u64) -> AckBufferModel {
        AckBufferModel { next_expected, received: Seq::empty(), waker: None }
    }

    /// Why the packet is refused.
    pub open spec fn refusal(packet: PacketView) -> Option<ErrorView> {
        if packet.header.type_field != PacketType::Ack {
            Some(ErrorView::Unexpected("Cannot buffer a packet that is not an ack"@))
        } else {
            None
        }
    }

    /// The oldest ack.
    pub open spec fn oldest(self) -> Option<AckData> {
        if self.received.len() == 0 {
            None
        } else {
            Some(self.received[0])
        }
    }

    /// The oldest ack is taken.
    pub open spec fn on_take(self) -> AckBufferModel {
        if self.received.len() == 0 {
            self
        } else {
            AckBufferModel { received: self.received.skip(1), ..self }
        }
    }

    pub open spec fn on_packet(self, packet: PacketView) -> AckBufferModel {
        if AckBufferModel::refusal(packet) is Some {
            self
        } else {
            AckBufferModel { received: self.received.push(ack_of(packet)), ..self }
        }
    }
}

impl AckBuffer {
    pub fn new(next_expected: u64) -> (buffer: Self)
        ensures
            buffer@ == AckBufferModel::fresh(next_expected),
    {
        AckBuffer { next_expected, received: VecDeque::new(), waker: None }
    }

    /// Keeps what the ack packet tells.
    pub fn buffer_in_ack_packet(&mut self, packet: BluefinPacket) -> (buffered: BluefinResult<()>)
        ensures
            final(self)@ == old(self)@.on_packet(packet@),
            match AckBufferModel::refusal(packet@) {
                Some(e) => fails_with(buffered, e),
                None => buffered == Ok::<(), BluefinError>(()),
            },
    {
        if packet.header.type_field != PacketType::Ack {
            return Err(
                BluefinError::Unexpected("Cannot buffer a packet that is not an ack".to_string()),
            );
        }
        self.received.push_back(
            AckData {
                base_packet_num: packet.header.packet_number,
                num_packets_consumed: packet.header.type_specific_payload as usize,
            },
        );
        Ok(())
    }

    /// Takes the oldest ack.
    pub fn take(&mut self) -> (ack: Option<AckData>)
        ensures
            old(self)@.received.len() == 0 ==> ack is None && final(self)@ == old(self)@,
            old(self)@.received.len() > 0 ==> ack == Some(old(self)@.received[0]) && final(self)@
                == (AckBufferModel { received: old(self)@.received.skip(1), ..old(self)@ }),
            ack == old(self)@.oldest(),
            final(self)@ == old(self)@.on_take(),
    {
        let ghost before = self.received@;
        let ack: Option<AckData> = self.received.pop_front();
        proof {
            if before.len() > 0 {
                assert(self.received@ =~= before.skip(1));
            }
        }
        ack
    }

    /// From now on it is the task of this waker that is woken. The waker is cloned
    /// only where the one that is kept may be that of another task.
    #[inline]
    pub fn set_waker_if_changed(&mut self, new_waker: &Waker)
        ensures
            final(self)@ == (AckBufferModel { waker: Some(*new_waker), ..old(self)@ }),
    {
        let will_wake: bool = match &self.waker {
            Some(existing) => existing.will_wake(new_waker),
            None => false,
        };
        self.keep_waker(will_wake, new_waker);
    }

    /// Keeps the waker, unless there is one already and it wakes the same task.
    #[inline]
    pub fn keep_waker(&mut self, will_wake: bool, new_waker: &Waker)
        ensures
            final(self)@ == (AckBufferModel {
                waker: kept_waker(old(self)@.waker, will_wake, *new_waker),
                ..old(self)@
            }),
    {
        if self.waker.is_none() || !will_wake {
            self.waker = Some(new_waker.clone());
        }
    }

    /// A copy of the waker, to be woken once the buffer is no longer in use.
    #[inline]
    pub fn take_waker_clone(&self) -> (waker: Option<Waker>)
        ensures
            waker == self@.waker,
    {
        match &self.waker {
            Some(waker) => Some(waker.clone()),
            None => None,
        }
    }
}

/// Acks are taken in the order in which they came, each once; only where there is none
/// nothing is taken.
pub proof fn law_acks_are_taken_in_order(acks: AckBufferModel)
    ensures
        acks.oldest() is None <==> acks.received.len() == 0,
        acks.oldest() matches Some(ack) ==> seq![ack] + acks.on_take().received == acks.received,
        acks.oldest() is None ==> acks.on_take() == acks,
        acks.on_take().next_expected == acks.next_expected,
        acks.on_take().waker == acks.waker,
{
    if acks.received.len() > 0 {
        assert(seq![acks.received[0]] + acks.received.skip(1) =~= acks.received);
    }
}

/// Only an ack packet can be buffered, and each one can.
pub proof fn law_only_acks_are_taken(acks: AckBufferModel, packet: PacketView)
    ensures
        AckBufferModel::refusal(packet) is None <==> packet.header.type_field == PacketType::Ack,
        packet.header.type_field != PacketType::Ack ==> acks.on_packet(packet) == acks,
{
}

} // verus!

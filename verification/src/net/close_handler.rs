//! The close side of a connection, around the state machine of
//! [`crate::connection::close`]: it keeps what the reader and the closing task
//! look at, and says whom to wake.
use core::task::Waker;
use vstd::prelude::*;

use crate::connection::close::{CloseEvent, CloseFsm, CloseModel, CloseState};
use crate::net::wake::kept_waker;
use crate::wire::packet::BluefinPacket;

verus! {

/// Per-connection close-side buffer.
pub struct CloseBuffer {
    fsm: CloseFsm,
    /// A `Fin` of the peer was accepted.
    peer_fin_observed: bool,
    waker: Option<Waker>,
}

/// The mathematical value of a [`CloseBuffer`].
pub ghost struct CloseBufferModel {
    pub fsm: CloseModel,
    pub peer_fin_observed: bool,
    pub waker: Option<Waker>,
}

impl View for CloseBuffer {
    type V = CloseBufferModel;

    closed spec fn view(&self) -> CloseBufferModel {
        CloseBufferModel {
            fsm: self.fsm@,
            peer_fin_observed: self.peer_fin_observed,
            waker: self.waker,
        }
    }
}

impl CloseBufferModel {
    pub open spec fn fresh() -> CloseBufferModel {
        CloseBufferModel { fsm: CloseModel::fresh(), peer_fin_observed: false, waker: None }
    }

    pub open spec fn on_fin(self, pn: u64) -> CloseBufferModel {
        CloseBufferModel {
            fsm: self.fsm.on_fin(pn),
            peer_fin_observed: self.peer_fin_observed || self.fsm.fin_event(pn)
                is PeerFinObserved,
            ..self
        }
    }

    pub open spec fn on_fin_ack(self, pn: u64) -> CloseBufferModel {
        CloseBufferModel { fsm: self.fsm.on_fin_ack(pn), ..self }
    }
}

impl CloseBuffer {
    pub fn new() -> (buffer: Self)
        ensures
            buffer@ == CloseBufferModel::fresh(),
    {
        CloseBuffer { fsm: CloseFsm::new(), peer_fin_observed: false, waker: None }
    }

    /// Records that the peer's `Fin` arrived.
    pub fn buffer_in_fin(&mut self, packet: &BluefinPacket)
        ensures
            final(self)@ == old(self)@.on_fin(packet.header.packet_number),
    {
        let event = self.fsm.buffer_in_fin(packet);
        let _ = self.apply_event(event);
    }

    /// Records that the peer's `FinAck` arrived. Says whether the closing task is
    /// to be notified.
    pub fn buffer_in_fin_ack(&mut self, packet: &BluefinPacket) -> (notify: bool)
        ensures
            final(self)@ == old(self)@.on_fin_ack(packet.header.packet_number),
            notify,
    {
        let event = self.fsm.buffer_in_fin_ack(packet);
        self.apply_event(event)
    }

    /// Applies what the state machine answered. Says whether the closing task is
    /// to be notified.
    fn apply_event(&mut self, event: CloseEvent) -> (notify: bool)
        ensures
            final(self)@ == (CloseBufferModel {
                peer_fin_observed: old(self)@.peer_fin_observed || event is PeerFinObserved,
                ..old(self)@
            }),
            notify == (event is PeerFinAckObserved),
    {
        match event {
            CloseEvent::Nothing => false,
            CloseEvent::PeerFinObserved { .. } => {
                self.peer_fin_observed = true;
                false
            },
            CloseEvent::PeerFinAckObserved { .. } => true,
        }
    }

    /// A `Fin` of the peer was accepted: once the received data is read, the
    /// stream is at its end.
    #[inline]
    pub fn peer_fin_observed(&self) -> (observed: bool)
        ensures
            observed == self@.peer_fin_observed,
    {
        self.peer_fin_observed
    }

    /// Takes the packet number of the `FinAck` that is owed, if any.
    #[inline]
    pub fn take_pending_fin_ack_send(&mut self) -> (owed: Option<u64>)
        ensures
            owed == old(self)@.fsm.owed,
            final(self)@ == (CloseBufferModel { fsm: old(self)@.fsm.on_taken(), ..old(self)@ }),
    {
        self.fsm.take_pending_fin_ack_send()
    }

    /// Goes to [`CloseState::Closed`].
    #[inline]
    pub fn mark_closed(&mut self)
        ensures
            final(self)@ == (CloseBufferModel { fsm: old(self)@.fsm.on_closed(), ..old(self)@ }),
    {
        self.fsm.mark_closed();
    }

    /// Records that we sent a `Fin` with the given packet number.
    #[inline]
    pub fn record_local_fin_sent(&mut self, packet_number: u64)
        ensures
            final(self)@ == (CloseBufferModel {
                fsm: old(self)@.fsm.on_local_fin(packet_number),
                ..old(self)@
            }),
    {
        self.fsm.record_local_fin_sent(packet_number);
    }

    #[inline]
    pub fn state(&self) -> (state: CloseState)
        ensures
            state == self@.fsm.state,
    {
        self.fsm.state()
    }

    #[inline]
    pub fn pending_fin_ack_send(&self) -> (owed: Option<u64>)
        ensures
            owed == self@.fsm.owed,
    {
        self.fsm.pending_fin_ack_send()
    }

    #[inline]
    pub fn received_fin_ack_for(&self) -> (acked: Option<u64>)
        ensures
            acked == self@.fsm.acked,
    {
        self.fsm.received_fin_ack_for()
    }

    /// From now on it is the task of this waker that is woken. The waker is cloned
    /// only where the one that is kept may be that of another task.
    #[inline]
    pub fn set_waker_if_changed(&mut self, new_waker: &Waker)
        ensures
            final(self)@ == (CloseBufferModel { waker: Some(*new_waker), ..old(self)@ }),
    {
        let will_wake: bool = match &self.waker {
            Some(existing) => existing.will_wake(new_waker),
            None => false,
        };
        self.keep_waker(will_wake, new_waker);
    }

    /// Keeps the waker, unless there is one already and it wakes the same task.
    #[inline]
    pub fn keep_waker(&mut self, will_wake: bool, new_waker: &Waker)
        ensures
            final(self)@ == (CloseBufferModel {
                waker: kept_waker(old(self)@.waker, will_wake, *new_waker),
                ..old(self)@
            }),
    {
        if self.waker.is_none() || !will_wake {
            self.waker = Some(new_waker.clone());
        }
    }

    /// A copy of the waker, to be woken once the buffer is no longer in use.
    #[inline]
    pub fn take_waker_clone(&self) -> (waker: Option<Waker>)
        ensures
            waker == self@.waker,
    {
        match &self.waker {
            Some(waker) => Some(waker.clone()),
            None => None,
        }
    }
}

} // verus!

//! Close state machine for the FIN / FIN-ACK exchange.
//!
//! It accepts inbound `Fin` and `FinAck` packets and local `close()` calls, and
//! has a single "do you owe the peer a `FinAck`?" slot for the runtime to drain.
use vstd::prelude::*;

use crate::wire::packet::BluefinPacket;

verus! {

/// Per-connection graceful-close state. Tracked on each side independently; the
/// values describe what *this* peer has observed.
#[derive(Debug, Clone, Copy, PartialEq, Eq, Structural)]
pub enum CloseState {
    /// Connection is open, neither side has signalled close.
    Active,
    /// The peer sent us a `Fin`. We owe them a `FinAck`; any further data that
    /// the application sees is the tail of what was already buffered, since data
    /// that comes after the `Fin` is dropped.
    PeerFinReceived { fin_packet_num: u64 },
    /// We sent a `Fin` and are awaiting the peer's `FinAck`.
    LocalFinSent { fin_packet_num: u64 },
    /// Both sides have exchanged `Fin` and `FinAck` (in either order).
    Closed,
}

impl Default for CloseState {
    fn default() -> (state: Self)
        ensures
            state == CloseState::Active,
    {
        CloseState::Active
    }
}

/// Side-effects that the runtime must perform after a transition.
#[derive(Debug, Clone, Copy, PartialEq, Eq, Structural)]
pub enum CloseEvent {
    /// No externally visible state change.
    Nothing,
    /// The peer's `Fin` was just observed: a parked `recv()` must see EOF.
    PeerFinObserved { fin_packet_num: u64 },
    /// The peer's `FinAck` was just observed: a parked `close()` must look again.
    PeerFinAckObserved { fin_packet_num: u64 },
}

/// Close-side state machine.
#[derive(Debug)]
pub struct CloseFsm {
    state: CloseState,
    /// `Some(pn)` after the peer's `Fin` arrived and until its `FinAck` is taken.
    pending_fin_ack_send: Option<u64>,
    /// `Some(pn)` after the peer's `FinAck` arrived.
    received_fin_ack_for: Option<u64>,
    /// `Some(pn)` after the peer's first `Fin` arrived, whatever happens after it.
    peer_fin: Option<u64>,
}

/// The mathematical value of a [`CloseFsm`].
pub ghost struct CloseModel {
    pub state: CloseState,
    pub owed: Option<u64>,
    pub acked: Option<u64>,
    /// The number of the peer's first `Fin`.
    pub peer_fin: Option<u64>,
}

/// What can happen to a [`CloseFsm`].
pub ghost enum CloseStep {
    /// The peer's `Fin` arrives.
    Fin(u64),
    /// The peer's `FinAck` arrives.
    FinAck(u64),
    /// We send a `Fin`.
    LocalFin(u64),
    /// The `FinAck` that we owe is taken.
    Taken,
    /// The connection is closed.
    Close,
}

impl View for CloseFsm {
    type V = CloseModel;

    closed spec fn view(&self) -> CloseModel {
        CloseModel {
            state: self.state,
            owed: self.pending_fin_ack_send,
            acked: self.received_fin_ack_for,
            peer_fin: self.peer_fin,
        }
    }
}

impl CloseModel {
    pub open spec fn fresh() -> CloseModel {
        CloseModel { state: CloseState::Active, owed: None, acked: None, peer_fin: None }
    }

    /// The peer's first `Fin` is known where the state tells of it, and there is
    /// none as long as neither side has signalled close.
    pub open spec fn valid(self) -> bool {
        match self.state {
            CloseState::Active => self.peer_fin is None,
            CloseState::PeerFinReceived { fin_packet_num } => self.peer_fin == Some(fin_packet_num),
            _ => true,
        }
    }

    /// The peer's `Fin` with number `pn` arrives. The first one is observed; a
    /// retransmission of it makes us owe the `FinAck` again; any other is
    /// ignored, and so is each one after the connection was closed.
    pub open spec fn on_fin(self, pn: u64) -> CloseModel {
        if self.state is Closed {
            self
        } else if self.peer_fin is None {
            CloseModel {
                state: CloseState::PeerFinReceived { fin_packet_num: pn },
                owed: Some(pn),
                peer_fin: Some(pn),
                ..self
            }
        } else if self.peer_fin == Some(pn) {
            CloseModel { owed: Some(pn), ..self }
        } else {
            self
        }
    }

    /// What the runtime is told when a `Fin` arrives: of the first one only.
    pub open spec fn fin_event(self, pn: u64) -> CloseEvent {
        if self.state is Closed || self.peer_fin is Some {
            CloseEvent::Nothing
        } else {
            CloseEvent::PeerFinObserved { fin_packet_num: pn }
        }
    }

    pub open spec fn on_fin_ack(self, pn: u64) -> CloseModel {
        CloseModel { acked: Some(pn), ..self }
    }

    pub open spec fn on_local_fin(self, pn: u64) -> CloseModel {
        match self.state {
            CloseState::Active | CloseState::PeerFinReceived { .. } => CloseModel {
                state: CloseState::LocalFinSent { fin_packet_num: pn },
                ..self
            },
            CloseState::LocalFinSent { .. } | CloseState::Closed => self,
        }
    }

    pub open spec fn on_taken(self) -> CloseModel {
        CloseModel { owed: None, ..self }
    }

    pub open spec fn on_closed(self) -> CloseModel {
        CloseModel { state: CloseState::Closed, ..self }
    }

    pub open spec fn on_step(self, step: CloseStep) -> CloseModel {
        match step {
            CloseStep::Fin(pn) => self.on_fin(pn),
            CloseStep::FinAck(pn) => self.on_fin_ack(pn),
            CloseStep::LocalFin(pn) => self.on_local_fin(pn),
            CloseStep::Taken => self.on_taken(),
            CloseStep::Close => self.on_closed(),
        }
    }

    /// The steps happen, one after the other.
    pub open spec fn on_steps(self, steps: Seq<CloseStep>) -> CloseModel
        decreases steps.len(),
    {
        if steps.len() == 0 {
            self
        } else {
            self.on_steps(steps.drop_last()).on_step(steps.last())
        }
    }
}

impl Default for CloseFsm {
    fn default() -> (fsm: Self)
        ensures
            fsm@ == CloseModel::fresh(),
    {
        CloseFsm {
            state: CloseState::default(),
            pending_fin_ack_send: None,
            received_fin_ack_for: None,
            peer_fin: None,
        }
    }
}

impl CloseFsm {
    pub fn new() -> (fsm: Self)
        ensures
            fsm@ == CloseModel::fresh(),
    {
        Self::default()
    }

    /// Record that the peer's `Fin` arrived. A second `Fin` with the same packet
    /// number re-arms the `FinAck` that we owe (the prior one may have been
    /// lost); a different packet number after the first is dropped silently.
    pub fn buffer_in_fin(&mut self, packet: &BluefinPacket) -> (event: CloseEvent)
        ensures
            final(self)@ == old(self)@.on_fin(packet.header.packet_number),
            event == old(self)@.fin_event(packet.header.packet_number),
    {
        let pn: u64 = packet.header.packet_number;
        match self.state {
            CloseState::Closed => {
                return CloseEvent::Nothing;
            },
            _ => {},
        }
        match self.peer_fin {
            None => {
                // Where the peer's FIN crossed ours we still owe it a FinAck; the
                // local exchange continues through `received_fin_ack_for`.
                self.state = CloseState::PeerFinReceived { fin_packet_num: pn };
                self.pending_fin_ack_send = Some(pn);
                self.peer_fin = Some(pn);
                CloseEvent::PeerFinObserved { fin_packet_num: pn }
            },
            Some(first) => {
                if first == pn {
                    self.pending_fin_ack_send = Some(pn);
                }
                CloseEvent::Nothing
            },
        }
    }

    /// Record that the peer's `FinAck` arrived in response to our `Fin`.
    pub fn buffer_in_fin_ack(&mut self, packet: &BluefinPacket) -> (event: CloseEvent)
        ensures
            final(self)@ == old(self)@.on_fin_ack(packet.header.packet_number),
            event == (CloseEvent::PeerFinAckObserved {
                fin_packet_num: packet.header.packet_number,
            }),
    {
        let pn: u64 = packet.header.packet_number;
        self.received_fin_ack_for = Some(pn);
        CloseEvent::PeerFinAckObserved { fin_packet_num: pn }
    }

    /// Take the packet number of the `FinAck` that we owe, if any, and clear it.
    #[inline]
    pub fn take_pending_fin_ack_send(&mut self) -> (owed: Option<u64>)
        ensures
            owed == old(self)@.owed,
            final(self)@ == old(self)@.on_taken(),
    {
        self.pending_fin_ack_send.take()
    }

    /// Transition into [`CloseState::Closed`].
    #[inline]
    pub fn mark_closed(&mut self)
        ensures
            final(self)@ == old(self)@.on_closed(),
    {
        self.state = CloseState::Closed;
    }

    /// Marks the machine as having sent a local `Fin` with the given packet
    /// number. Nothing changes once a local `Fin` was sent or the connection is
    /// closed.
    #[inline]
    pub fn record_local_fin_sent(&mut self, packet_number: u64)
        ensures
            final(self)@ == old(self)@.on_local_fin(packet_number),
    {
        match self.state {
            CloseState::Active | CloseState::PeerFinReceived { .. } => {
                self.state = CloseState::LocalFinSent { fin_packet_num: packet_number };
            },
            CloseState::LocalFinSent { .. } | CloseState::Closed => {},
        }
    }

    #[inline]
    pub fn state(&self) -> (state: CloseState)
        ensures
            state == self@.state,
    {
        self.state
    }

    #[inline]
    pub fn pending_fin_ack_send(&self) -> (owed: Option<u64>)
        ensures
            owed == self@.owed,
    {
        self.pending_fin_ack_send
    }

    #[inline]
    pub fn received_fin_ack_for(&self) -> (acked: Option<u64>)
        ensures
            acked == self@.acked,
    {
        self.received_fin_ack_for
    }
}

/// Every step keeps a close machine valid, and a fresh one is valid.
pub proof fn law_close_stays_valid(model: CloseModel, step: CloseStep)
    requires
        model.valid(),
    ensures
        CloseModel::fresh().valid(),
        model.on_step(step).valid(),
{
}

/// The number of the peer's first `Fin` is never forgotten.
pub proof fn law_first_fin_is_remembered(model: CloseModel, pn: u64, steps: Seq<CloseStep>)
    requires
        model.peer_fin == Some(pn),
    ensures
        model.on_steps(steps).peer_fin == Some(pn),
    decreases steps.len(),
{
    if steps.len() > 0 {
        law_first_fin_is_remembered(model, pn, steps.drop_last());
    }
}

/// A retransmitted `Fin` re-arms the `FinAck` that we owe, and does nothing else:
/// it is not observed a second time. That holds whatever happened since the first
/// one, our own `Fin` included, until the connection is closed.
pub proof fn law_duplicate_fin_re_arms(model: CloseModel, pn: u64, steps: Seq<CloseStep>)
    requires
        model.fin_event(pn) != CloseEvent::Nothing,
    ensures
        ({
            let later = model.on_fin(pn).on_steps(steps);
            &&& later.fin_event(pn) == CloseEvent::Nothing
            &&& !(later.state is Closed) ==> later.on_fin(pn) == (CloseModel {
                owed: Some(pn),
                ..later
            })
        }),
{
    law_first_fin_is_remembered(model.on_fin(pn), pn, steps);
}

/// After the first `Fin`, one with another packet number changes nothing, whatever
/// happened in between, our own `Fin` included.
pub proof fn law_mismatched_fin_is_dropped(
    model: CloseModel,
    first: u64,
    other: u64,
    steps: Seq<CloseStep>,
)
    requires
        model.fin_event(first) != CloseEvent::Nothing,
        first != other,
    ensures
        ({
            let later = model.on_fin(first).on_steps(steps);
            &&& later.on_fin(other) == later
            &&& later.fin_event(other) == CloseEvent::Nothing
        }),
{
    law_first_fin_is_remembered(model.on_fin(first), first, steps);
}

/// `Closed` is final: no packet and no local close leaves it, no `Fin` is
/// observed there, and no `FinAck` becomes owed.
pub proof fn law_closed_is_final(model: CloseModel, pn: u64)
    requires
        model.state == CloseState::Closed,
    ensures
        model.on_fin(pn) == model,
        model.fin_event(pn) == CloseEvent::Nothing,
        model.on_local_fin(pn) == model,
        model.on_fin_ack(pn).state == CloseState::Closed,
        model.on_taken().state == CloseState::Closed,
        model.on_closed() == model,
{
}

/// Sending a local `Fin` twice is the same as sending it once.
pub proof fn law_local_fin_is_idempotent(model: CloseModel, first: u64, second: u64)
    ensures
        model.on_local_fin(first).on_local_fin(second) == model.on_local_fin(first),
{
}

/// Crossed `Fin`s: our own number stays acknowledgeable, and the peer's `Fin`
/// is acknowledged, whichever of the peer's packets comes first.
pub proof fn law_crossed_fins(model: CloseModel, ours: u64, theirs: u64)
    requires
        model.state == CloseState::Active,
        model.valid(),
    ensures
        model.on_local_fin(ours).on_fin(theirs).on_fin_ack(ours) == model.on_local_fin(
            ours,
        ).on_fin_ack(ours).on_fin(theirs),
        model.on_local_fin(ours).on_fin(theirs).on_fin_ack(ours).acked == Some(ours),
        model.on_local_fin(ours).on_fin(theirs).on_fin_ack(ours).owed == Some(theirs),
{
}

} // verus!

//! The pipe between a terminal and a connection, and the acceptance of
//! connections.
use vstd::prelude::*;

verus! {

/// Why a pipe ends.
#[derive(Clone, Copy, Debug, PartialEq, Eq, Structural)]
pub enum ExitReason {
    /// The user asked for it.
    Shutdown,
    /// The input is at its end.
    StdinEof,
    /// The peer has closed the connection.
    PeerClosed,
    /// A piece of the input could not be sent.
    SendFailed,
    /// Nothing could be received.
    ReceiveFailed,
}

impl ExitReason {
    /// The pipe ends with the error that came.
    pub open spec fn spec_is_failure(self) -> bool {
        self == ExitReason::SendFailed || self == ExitReason::ReceiveFailed
    }

    /// The pipe ends with the error that came.
    pub fn is_failure(self) -> (failure: bool)
        ensures
            failure == self.spec_is_failure(),
    {
        match self {
            ExitReason::SendFailed | ExitReason::ReceiveFailed => true,
            _ => false,
        }
    }
}

/// What a pipe waits for.
#[derive(Clone, Copy, Debug, PartialEq, Eq, Structural)]
pub enum Phase {
    /// Whether the user has asked to end.
    Checking,
    /// The next piece of the input. `did_send` says that one was sent already
    /// since the input was last found empty.
    Reading { did_send: bool },
    /// The end of what is being sent.
    Flushing,
    /// What the peer sends.
    Receiving,
    /// The end of the connection.
    Closing(ExitReason),
    /// Nothing.
    Ended,
}

/// What happened to a pipe.
#[derive(Clone, Copy, Debug, PartialEq, Eq, Structural)]
pub enum PipeEvent {
    /// It was looked whether the user has asked to end.
    Checked { shutdown: bool },
    /// A piece of the input was sent.
    Sent { len: usize },
    /// A piece of the input could not be sent.
    SendFailed,
    /// There is no input at the moment.
    StdinEmpty,
    /// The input is at its end.
    StdinClosed,
    /// All that was sent is on its way.
    Flushed,
    /// The user asked to end while the peer was waited for.
    ShutdownSeen,
    /// The peer sent bytes, or none at the end of the stream.
    Received { len: usize },
    /// Nothing could be received.
    ReceiveFailed,
    /// The peer sent nothing for a while.
    ReceiveTimedOut,
    /// Our end was closed, and the peer has answered or not.
    Closed { acked: bool },
}

/// What a pipe does next.
#[derive(Clone, Copy, Debug, PartialEq, Eq, Structural)]
pub enum PipeAction {
    /// Tell what happened on the connection, and look whether the user has asked
    /// to end.
    Check,
    /// Take a piece of the input and send it.
    ReadStdin,
    /// Wait until all that was sent is on its way.
    Flush,
    /// Receive from the peer for a short while.
    Receive,
    /// Close the connection.
    Close,
    /// End well.
    Finish,
    /// End with the error that came.
    Fail,
}

/// What is to be told or done on the way to the next action.
#[derive(Clone, Copy, Debug, PartialEq, Eq, Structural)]
pub struct PipeStep {
    pub action: PipeAction,
    /// Tell what happened on the connection.
    pub tell_events: bool,
    /// Ask the user for more.
    pub prompt: bool,
    /// Tell the user that only the peer is listened to from now on.
    pub half_closed: bool,
}

/// A pipe.
pub struct Pipe {
    phase: Phase,
    has_stdin: bool,
    interactive: bool,
    close_on_stdin_eof: bool,
    show_prompt: bool,
    total_sent: usize,
    total_recv: usize,
}

/// The mathematical value of a [`Pipe`].
pub ghost struct PipeModel {
    pub phase: Phase,
    /// There is an input to be sent.
    pub has_stdin: bool,
    /// The input is a terminal.
    pub interactive: bool,
    /// The end of the input ends the pipe.
    pub close_on_stdin_eof: bool,
    /// The user is asked for more.
    pub show_prompt: bool,
    pub total_sent: nat,
    pub total_recv: nat,
}

pub open spec fn plain_step(action: PipeAction) -> PipeStep {
    PipeStep { action, tell_events: false, prompt: false, half_closed: false }
}

impl View for Pipe {
    type V = PipeModel;

    closed spec fn view(&self) -> PipeModel {
        PipeModel {
            phase: self.phase,
            has_stdin: self.has_stdin,
            interactive: self.interactive,
            close_on_stdin_eof: self.close_on_stdin_eof,
            show_prompt: self.show_prompt,
            total_sent: self.total_sent as nat,
            total_recv: self.total_recv as nat,
        }
    }
}

impl PipeModel {
    pub open spec fn fresh(
        has_stdin: bool,
        interactive: bool,
        close_on_stdin_eof: bool,
    ) -> PipeModel {
        PipeModel {
            phase: Phase::Checking,
            has_stdin,
            interactive,
            close_on_stdin_eof,
            show_prompt: interactive && has_stdin,
            total_sent: 0,
            total_recv: 0,
        }
    }

    pub open spec fn in_phase(self, phase: Phase) -> PipeModel {
        PipeModel { phase, ..self }
    }

    /// The end of the input ends the pipe: it was not typed, and the pipe is to
    /// end with it.
    pub open spec fn ends_with_stdin(self) -> bool {
        self.close_on_stdin_eof && !self.interactive
    }

    /// How a pipe closes, whatever the reason.
    pub open spec fn closing_step() -> PipeStep {
        PipeStep {
            action: PipeAction::Close,
            tell_events: true,
            prompt: false,
            half_closed: false,
        }
    }

    /// The pipe begins to close.
    pub open spec fn closing(self, reason: ExitReason) -> (PipeStep, PipeModel) {
        (PipeModel::closing_step(), self.in_phase(Phase::Closing(reason)))
    }

    /// Why the pipe closes.
    pub open spec fn exit_reason(self) -> ExitReason {
        match self.phase {
            Phase::Closing(reason) => reason,
            _ => ExitReason::Shutdown,
        }
    }

    /// The event can come in the phase.
    pub open spec fn expects(self, event: PipeEvent) -> bool {
        match self.phase {
            Phase::Checking => event is Checked,
            Phase::Reading { .. } => {
                event is Sent || event is SendFailed || event is StdinEmpty || event is StdinClosed
            },
            Phase::Flushing => event is Flushed,
            Phase::Receiving => {
                event is ShutdownSeen || event is Received || event is ReceiveFailed || event
                    is ReceiveTimedOut
            },
            Phase::Closing(_) => event is Closed,
            Phase::Ended => false,
        }
    }

    /// The totals can still be counted.
    pub open spec fn countable(self, event: PipeEvent) -> bool {
        match event {
            PipeEvent::Sent { len } => self.total_sent + len <= usize::MAX,
            PipeEvent::Received { len } => self.total_recv + len <= usize::MAX,
            _ => true,
        }
    }

    /// What a pipe does upon an event that it expects, and its state after that.
    pub open spec fn on_event(self, event: PipeEvent) -> (PipeStep, PipeModel) {
        match event {
            PipeEvent::Checked { shutdown } => if shutdown {
                self.closing(ExitReason::Shutdown)
            } else if self.has_stdin {
                (
                    plain_step(PipeAction::ReadStdin),
                    self.in_phase(Phase::Reading { did_send: false }),
                )
            } else {
                (plain_step(PipeAction::Receive), self.in_phase(Phase::Receiving))
            },
            PipeEvent::Sent { len } => (
                plain_step(PipeAction::ReadStdin),
                PipeModel {
                    phase: Phase::Reading { did_send: true },
                    total_sent: self.total_sent + len as nat,
                    ..self
                },
            ),
            PipeEvent::SendFailed => self.closing(ExitReason::SendFailed),
            PipeEvent::StdinEmpty => (
                PipeStep {
                    action: PipeAction::Receive,
                    tell_events: self.phase->did_send,
                    prompt: self.phase->did_send && self.show_prompt,
                    half_closed: false,
                },
                self.in_phase(Phase::Receiving),
            ),
            PipeEvent::StdinClosed => (
                PipeStep {
                    action: PipeAction::Flush,
                    tell_events: self.phase->did_send,
                    prompt: self.phase->did_send && self.show_prompt,
                    half_closed: false,
                },
                self.in_phase(Phase::Flushing),
            ),
            PipeEvent::Flushed => if self.ends_with_stdin() {
                self.closing(ExitReason::StdinEof)
            } else {
                (
                    PipeStep {
                        action: PipeAction::Receive,
                        tell_events: false,
                        prompt: false,
                        half_closed: true,
                    },
                    PipeModel { phase: Phase::Receiving, has_stdin: false, ..self },
                )
            },
            PipeEvent::ShutdownSeen => self.closing(ExitReason::Shutdown),
            PipeEvent::Received { len } => if len == 0 {
                self.closing(ExitReason::PeerClosed)
            } else {
                (
                    PipeStep {
                        action: PipeAction::Check,
                        tell_events: true,
                        prompt: false,
                        half_closed: false,
                    },
                    PipeModel {
                        phase: Phase::Checking,
                        total_recv: self.total_recv + len as nat,
                        ..self
                    },
                )
            },
            PipeEvent::ReceiveFailed => self.closing(ExitReason::ReceiveFailed),
            PipeEvent::ReceiveTimedOut => (
                plain_step(PipeAction::Check),
                self.in_phase(Phase::Checking),
            ),
            PipeEvent::Closed { acked } => (
                PipeStep {
                    action: if self.exit_reason().spec_is_failure() {
                        PipeAction::Fail
                    } else {
                        PipeAction::Finish
                    },
                    tell_events: acked || self.exit_reason() == ExitReason::PeerClosed,
                    prompt: false,
                    half_closed: false,
                },
                self.in_phase(Phase::Ended),
            ),
        }
    }
}

impl Pipe {
    /// A pipe. Only where there is an input is something sent; only a user at a
    /// terminal is asked for more.
    pub fn new(has_stdin: bool, interactive: bool, close_on_stdin_eof: bool) -> (pipe: Self)
        ensures
            pipe@ == PipeModel::fresh(has_stdin, interactive, close_on_stdin_eof),
    {
        Pipe {
            phase: Phase::Checking,
            has_stdin,
            interactive,
            close_on_stdin_eof,
            show_prompt: interactive && has_stdin,
            total_sent: 0,
            total_recv: 0,
        }
    }

    /// What the pipe waits for.
    pub fn phase(&self) -> (phase: Phase)
        ensures
            phase == self@.phase,
    {
        self.phase
    }

    /// The user is asked for more.
    pub fn show_prompt(&self) -> (show: bool)
        ensures
            show == self@.show_prompt,
    {
        self.show_prompt
    }

    /// How many bytes were sent.
    pub fn total_sent(&self) -> (total: usize)
        ensures
            total == self@.total_sent,
    {
        self.total_sent
    }

    /// How many bytes were received.
    pub fn total_recv(&self) -> (total: usize)
        ensures
            total == self@.total_recv,
    {
        self.total_recv
    }

    fn plain(action: PipeAction) -> (step: PipeStep)
        ensures
            step == plain_step(action),
    {
        PipeStep { action, tell_events: false, prompt: false, half_closed: false }
    }

    fn close(&mut self, reason: ExitReason) -> (step: PipeStep)
        ensures
            (step, final(self)@) == old(self)@.closing(reason),
    {
        self.phase = Phase::Closing(reason);
        PipeStep {
            action: PipeAction::Close,
            tell_events: true,
            prompt: false,
            half_closed: false,
        }
    }

    /// Says what to do upon an event.
    pub fn step(&mut self, event: PipeEvent) -> (step: PipeStep)
        requires
            old(self)@.expects(event),
            old(self)@.countable(event),
        ensures
            step == old(self)@.on_event(event).0,
            final(self)@ == old(self)@.on_event(event).1,
    {
        let did_send: bool = match self.phase {
            Phase::Reading { did_send } => did_send,
            _ => false,
        };
        let reason: ExitReason = match self.phase {
            Phase::Closing(reason) => reason,
            _ => ExitReason::Shutdown,
        };
        match event {
            PipeEvent::Checked { shutdown } => {
                if shutdown {
                    self.close(ExitReason::Shutdown)
                } else if self.has_stdin {
                    self.phase = Phase::Reading { did_send: false };
                    Self::plain(PipeAction::ReadStdin)
                } else {
                    self.phase = Phase::Receiving;
                    Self::plain(PipeAction::Receive)
                }
            },
            PipeEvent::Sent { len } => {
                self.phase = Phase::Reading { did_send: true };
                self.total_sent = self.total_sent + len;
                Self::plain(PipeAction::ReadStdin)
            },
            PipeEvent::SendFailed => self.close(ExitReason::SendFailed),
            PipeEvent::StdinEmpty => {
                self.phase = Phase::Receiving;
                PipeStep {
                    action: PipeAction::Receive,
                    tell_events: did_send,
                    prompt: did_send && self.show_prompt,
                    half_closed: false,
                }
            },
            PipeEvent::StdinClosed => {
                self.phase = Phase::Flushing;
                PipeStep {
                    action: PipeAction::Flush,
                    tell_events: did_send,
                    prompt: did_send && self.show_prompt,
                    half_closed: false,
                }
            },
            PipeEvent::Flushed => {
                if self.close_on_stdin_eof && !self.interactive {
                    self.close(ExitReason::StdinEof)
                } else {
                    self.phase = Phase::Receiving;
                    self.has_stdin = false;
                    PipeStep {
                        action: PipeAction::Receive,
                        tell_events: false,
                        prompt: false,
                        half_closed: true,
                    }
                }
            },
            PipeEvent::ShutdownSeen => self.close(ExitReason::Shutdown),
            PipeEvent::Received { len } => {
                if len == 0 {
                    self.close(ExitReason::PeerClosed)
                } else {
                    self.phase = Phase::Checking;
                    self.total_recv = self.total_recv + len;
                    PipeStep {
                        action: PipeAction::Check,
                        tell_events: true,
                        prompt: false,
                        half_closed: false,
                    }
                }
            },
            PipeEvent::ReceiveFailed => self.close(ExitReason::ReceiveFailed),
            PipeEvent::ReceiveTimedOut => {
                self.phase = Phase::Checking;
                Self::plain(PipeAction::Check)
            },
            PipeEvent::Closed { acked } => {
                self.phase = Phase::Ended;
                let action: PipeAction = if reason.is_failure() {
                    PipeAction::Fail
                } else {
                    PipeAction::Finish
                };
                PipeStep {
                    action,
                    tell_events: acked || reason == ExitReason::PeerClosed,
                    prompt: false,
                    half_closed: false,
                }
            },
        }
    }
}

/// The reason as it is told to the user.
pub open spec fn reason_text(reason: ExitReason) -> Seq<char> {
    match reason {
        ExitReason::Shutdown => "shutdown signal"@,
        ExitReason::StdinEof => "stdin EOF"@,
        ExitReason::PeerClosed => "peer closed (EOF)"@,
        ExitReason::SendFailed => "send error"@,
        ExitReason::ReceiveFailed => "recv error"@,
    }
}

/// The reason as it is told to the user.
pub fn describe_reason(reason: ExitReason) -> (text: &'static str)
    ensures
        text@ == reason_text(reason),
{
    match reason {
        ExitReason::Shutdown => "shutdown signal",
        ExitReason::StdinEof => "stdin EOF",
        ExitReason::PeerClosed => "peer closed (EOF)",
        ExitReason::SendFailed => "send error",
        ExitReason::ReceiveFailed => "recv error",
    }
}

/// The end of a connection as it is told to the user.
pub open spec fn end_text(reason: ExitReason, acked: bool) -> Seq<char> {
    if reason == ExitReason::PeerClosed {
        "connection closed (peer Fin observed)"@
    } else if acked {
        "connection closed (local Fin acked by peer)"@
    } else {
        "connection closed (Fin sent; no FinAck from peer)"@
    }
}

/// How the end of a connection is told to the user: the peer closed it first, or
/// else we did, and the peer has answered or not.
pub fn describe_end(reason: ExitReason, acked: bool) -> (text: &'static str)
    ensures
        text@ == if reason == ExitReason::PeerClosed {
            "connection closed (peer Fin observed)"@
        } else if acked {
            "connection closed (local Fin acked by peer)"@
        } else {
            "connection closed (Fin sent; no FinAck from peer)"@
        },
        text@ == end_text(reason, acked),
{
    if reason == ExitReason::PeerClosed {
        "connection closed (peer Fin observed)"
    } else if acked {
        "connection closed (local Fin acked by peer)"
    } else {
        "connection closed (Fin sent; no FinAck from peer)"
    }
}

/// The action that a step asks for is the one that leads to an event that the
/// pipe then expects.
pub proof fn law_pipe_gets_what_it_asks_for(pipe: PipeModel, event: PipeEvent)
    requires
        pipe.expects(event),
    ensures
        match pipe.on_event(event).0.action {
            PipeAction::Check => pipe.on_event(event).1.phase is Checking,
            PipeAction::ReadStdin => pipe.on_event(event).1.phase is Reading,
            PipeAction::Flush => pipe.on_event(event).1.phase is Flushing,
            PipeAction::Receive => pipe.on_event(event).1.phase is Receiving,
            PipeAction::Close => pipe.on_event(event).1.phase is Closing,
            PipeAction::Finish | PipeAction::Fail => pipe.on_event(event).1.phase is Ended,
        },
{
}

/// However a pipe ends, it closes the connection first: when the user asks for it,
/// when the input ends that it is to end with, when the peer has closed its end, and
/// when something could not be sent or received.
pub proof fn law_pipe_ends_by_closing(pipe: PipeModel, event: PipeEvent)
    requires
        pipe.expects(event),
    ensures
        pipe.on_event(event).1.phase is Ended <==> event is Closed,
        event is Closed ==> pipe.phase is Closing,
        pipe.on_event(event).1.phase is Closing <==> pipe.on_event(event).0.action
            == PipeAction::Close,
        event == (PipeEvent::Received { len: 0 }) ==> pipe.on_event(event).0.action
            == PipeAction::Close,
        event is SendFailed || event is ReceiveFailed || event is ShutdownSeen ==> pipe.on_event(
            event,
        ).0.action == PipeAction::Close,
        event == (PipeEvent::Checked { shutdown: true }) ==> pipe.on_event(event).0.action
            == PipeAction::Close,
        event is Flushed && pipe.ends_with_stdin() ==> pipe.on_event(event).0.action
            == PipeAction::Close,
{
}

/// Once a pipe closes, nothing is sent or received any more: all that can come is
/// the end of the close, and then nothing. Only after a failure does it end with an
/// error.
pub proof fn law_closing_pipe_only_ends(pipe: PipeModel, event: PipeEvent, later: PipeEvent)
    requires
        pipe.phase is Closing,
        pipe.expects(event),
    ensures
        event is Closed,
        pipe.on_event(event).0.action == if pipe.exit_reason().spec_is_failure() {
            PipeAction::Fail
        } else {
            PipeAction::Finish
        },
        pipe.on_event(event).1.total_sent == pipe.total_sent,
        pipe.on_event(event).1.total_recv == pipe.total_recv,
        !pipe.on_event(event).1.expects(later),
{
}

/// Once the input has ended without ending the pipe, nothing is read or sent any
/// more.
pub proof fn law_ended_input_stays_ended(pipe: PipeModel, event: PipeEvent)
    requires
        pipe.expects(event),
        !pipe.has_stdin,
        !(pipe.phase is Reading),
        !(pipe.phase is Flushing),
    ensures
        !pipe.on_event(event).1.has_stdin,
        !(pipe.on_event(event).1.phase is Reading),
        !(pipe.on_event(event).1.phase is Flushing),
        pipe.on_event(event).1.total_sent == pipe.total_sent,
{
}

/// Only a pipe that is to end with its input, and whose input is not typed, ends
/// because of it.
pub proof fn law_listener_outlives_its_input(pipe: PipeModel, event: PipeEvent)
    requires
        pipe.expects(event),
        !pipe.close_on_stdin_eof || pipe.interactive,
    ensures
        pipe.on_event(event).1.phase != Phase::Closing(ExitReason::StdinEof),
{
}

/// How a new pipe begins: it looks first whether the user has asked to end, nothing
/// was sent or received, and the user is asked for more exactly where there is an input
/// and it is a terminal.
pub proof fn law_new_pipe_checks_first(
    has_stdin: bool,
    interactive: bool,
    close_on_stdin_eof: bool,
)
    ensures
        ({
            let pipe = PipeModel::fresh(has_stdin, interactive, close_on_stdin_eof);
            &&& pipe.phase is Checking
            &&& pipe.has_stdin == has_stdin
            &&& pipe.interactive == interactive
            &&& pipe.close_on_stdin_eof == close_on_stdin_eof
            &&& pipe.show_prompt <==> has_stdin && interactive
            &&& pipe.total_sent == 0 && pipe.total_recv == 0
        }),
{
}

/// The events come one after the other, and each of them is one that the pipe expects.
pub open spec fn expects_all(pipe: PipeModel, events: Seq<PipeEvent>) -> bool
    decreases events.len(),
{
    events.len() == 0 || (expects_all(pipe, events.drop_last()) && on_events(
        pipe,
        events.drop_last(),
    ).expects(events.last()))
}

/// The pipe after the events, one after the other.
pub open spec fn on_events(pipe: PipeModel, events: Seq<PipeEvent>) -> PipeModel
    decreases events.len(),
{
    if events.len() == 0 {
        pipe
    } else {
        on_events(pipe, events.drop_last()).on_event(events.last()).1
    }
}

/// How many bytes the events tell were sent.
pub open spec fn sent_in(events: Seq<PipeEvent>) -> nat
    decreases events.len(),
{
    if events.len() == 0 {
        0
    } else {
        sent_in(events.drop_last()) + match events.last() {
            PipeEvent::Sent { len } => len as nat,
            _ => 0,
        }
    }
}

/// How many bytes the events tell were received.
pub open spec fn received_in(events: Seq<PipeEvent>) -> nat
    decreases events.len(),
{
    if events.len() == 0 {
        0
    } else {
        received_in(events.drop_last()) + match events.last() {
            PipeEvent::Received { len } => len as nat,
            _ => 0,
        }
    }
}

/// Only the end of the input ends the reading of it. Until what was sent is flushed
/// because the input has ended, no event, however many bytes are received, makes the
/// pipe forget its input; and whenever the user has not asked to end, a pipe with an
/// input reads it before it receives.
pub proof fn law_input_is_read_until_it_ends(pipe: PipeModel, events: Seq<PipeEvent>)
    requires
        expects_all(pipe, events),
        forall|i: int| 0 <= i < events.len() ==> !((#[trigger] events[i]) is Flushed),
    ensures
        on_events(pipe, events).has_stdin == pipe.has_stdin,
        pipe.has_stdin ==> on_events(pipe, events).on_event(
            PipeEvent::Checked { shutdown: false },
        ).0.action == PipeAction::ReadStdin,
        !pipe.has_stdin ==> on_events(pipe, events).on_event(
            PipeEvent::Checked { shutdown: false },
        ).0.action == PipeAction::Receive,
    decreases events.len(),
{
    if events.len() > 0 {
        let fewer = events.drop_last();
        assert forall|i: int| 0 <= i < fewer.len() implies !((#[trigger] fewer[i]) is Flushed) by {
            assert(fewer[i] == events[i]);
        }
        law_input_is_read_until_it_ends(pipe, fewer);
        assert(events[events.len() - 1] == events.last());
    }
}

/// All that was sent is counted, and all that was received, and what the pipe is does
/// not change: whether its input is typed, whether it ends with it, and whether the
/// user is asked for more.
pub proof fn law_totals_add_up(pipe: PipeModel, events: Seq<PipeEvent>)
    requires
        expects_all(pipe, events),
    ensures
        on_events(pipe, events).total_sent == pipe.total_sent + sent_in(events),
        on_events(pipe, events).total_recv == pipe.total_recv + received_in(events),
        on_events(pipe, events).interactive == pipe.interactive,
        on_events(pipe, events).close_on_stdin_eof == pipe.close_on_stdin_eof,
        on_events(pipe, events).show_prompt == pipe.show_prompt,
    decreases events.len(),
{
    if events.len() > 0 {
        law_totals_add_up(pipe, events.drop_last());
    }
}

/// A pipe takes turns: it sends all the input that there is, then listens to the peer
/// for a while, and then looks again whether the user has asked to end. The end of the
/// input is followed by a flush, and then by the close where the pipe is to end with an
/// input that is not typed; else the peer is listened to, and the user is told so.
pub proof fn law_pipe_takes_turns(pipe: PipeModel, event: PipeEvent)
    requires
        pipe.expects(event),
    ensures
        ({
            let action = pipe.on_event(event).0.action;
            &&& event is Sent ==> action == PipeAction::ReadStdin
            &&& event is StdinEmpty ==> action == PipeAction::Receive
            &&& event is StdinClosed ==> action == PipeAction::Flush
            &&& event is ReceiveTimedOut ==> action == PipeAction::Check
            &&& event matches PipeEvent::Received { len } ==> (action == PipeAction::Check <==> len
                > 0)
            &&& event is Flushed ==> {
                &&& action == PipeAction::Close <==> pipe.close_on_stdin_eof && !pipe.interactive
                &&& action == PipeAction::Receive <==> !pipe.close_on_stdin_eof
                    || pipe.interactive
                &&& action == PipeAction::Receive ==> !pipe.on_event(event).1.has_stdin
            }
            &&& action == PipeAction::ReadStdin ==> pipe.on_event(event).1.phase
                == (Phase::Reading { did_send: event is Sent })
            &&& pipe.on_event(event).0.half_closed <==> event is Flushed && action
                == PipeAction::Receive
        }),
{
}

/// The user is asked for more after something of what was typed was sent, and only
/// then; what happened on the connection is told after something was sent or received,
/// when the pipe begins to close, and when the close has ended well or the peer has
/// closed first.
pub proof fn law_pipe_tells_what_happened(pipe: PipeModel, event: PipeEvent)
    requires
        pipe.expects(event),
    ensures
        ({
            let step = pipe.on_event(event).0;
            let paused = pipe.phase == (Phase::Reading { did_send: true }) && (event is StdinEmpty
                || event is StdinClosed);
            &&& step.prompt <==> paused && pipe.show_prompt
            &&& step.tell_events <==> {
                ||| paused
                ||| event matches PipeEvent::Received { .. }
                ||| step.action == PipeAction::Close
                ||| event == (PipeEvent::Closed { acked: true })
                ||| event is Closed && pipe.phase == Phase::Closing(ExitReason::PeerClosed)
            }
        }),
{
}

/// A pipe closes for the reason that there was.
pub proof fn law_pipe_remembers_why_it_closes(pipe: PipeModel, event: PipeEvent)
    requires
        pipe.expects(event),
        pipe.on_event(event).0.action == PipeAction::Close,
    ensures
        ({
            let reason = pipe.on_event(event).1.exit_reason();
            &&& reason == ExitReason::Shutdown <==> event is Checked || event is ShutdownSeen
            &&& reason == ExitReason::StdinEof <==> event is Flushed
            &&& reason == ExitReason::PeerClosed <==> event is Received
            &&& reason == ExitReason::SendFailed <==> event is SendFailed
            &&& reason == ExitReason::ReceiveFailed <==> event is ReceiveFailed
            &&& reason.spec_is_failure() <==> event is SendFailed || event is ReceiveFailed
        }),
{
}

/// What happened to a listener.
#[derive(Clone, Copy, Debug, PartialEq, Eq, Structural)]
pub enum ListenEvent {
    /// It was looked whether the user has asked to end.
    Checked { shutdown: bool },
    /// The user asked to end while a connection was waited for.
    ShutdownSeen,
    /// A connection was accepted.
    Accepted,
    /// A connection could not be accepted.
    AcceptFailed,
}

/// What a listener does next.
#[derive(Clone, Copy, Debug, PartialEq, Eq, Structural)]
pub enum ListenAction {
    /// Look whether the user has asked to end.
    Check,
    /// Wait for a connection.
    Accept,
    /// Start a pipe for the connection, with the input or without, and look whether
    /// the user has asked to end.
    Serve { stdin: bool },
    /// End well.
    Stop,
}

/// What a listener does upon an event; `first` says that no connection was accepted
/// yet.
pub open spec fn listen_action(first: bool, event: ListenEvent) -> ListenAction {
    match event {
        ListenEvent::Checked { shutdown } => if shutdown {
            ListenAction::Stop
        } else {
            ListenAction::Accept
        },
        ListenEvent::ShutdownSeen => ListenAction::Stop,
        ListenEvent::Accepted => ListenAction::Serve { stdin: first },
        ListenEvent::AcceptFailed => ListenAction::Check,
    }
}

/// No connection was accepted yet, nor by the events.
pub open spec fn waits_after(first: bool, events: Seq<ListenEvent>) -> bool
    decreases events.len(),
{
    if events.len() == 0 {
        first
    } else {
        waits_for_more(waits_after(first, events.drop_last()), events.last())
    }
}

/// No connection was accepted yet, nor by the event.
pub open spec fn waits_for_more(first: bool, event: ListenEvent) -> bool {
    first && !(event is Accepted)
}

/// The input goes to the connection that is accepted first, and to no other, whatever
/// else happened before.
pub proof fn law_first_connection_gets_the_input(events: Seq<ListenEvent>)
    ensures
        listen_action(waits_after(true, events), ListenEvent::Accepted) == (ListenAction::Serve {
            stdin: forall|i: int| 0 <= i < events.len() ==> !((#[trigger] events[i]) is Accepted),
        }),
    decreases events.len(),
{
    if events.len() > 0 {
        let fewer = events.drop_last();
        law_first_connection_gets_the_input(fewer);
        assert(events[events.len() - 1] == events.last());
        if waits_after(true, fewer) && !(events.last() is Accepted) {
            assert forall|i: int| 0 <= i < events.len() implies !(
            (#[trigger] events[i]) is Accepted) by {
                if i < fewer.len() {
                    assert(fewer[i] == events[i]);
                }
            }
        } else if !waits_after(true, fewer) {
            let i = choose|i: int| 0 <= i < fewer.len() && (#[trigger] fewer[i]) is Accepted;
            assert(events[i] == fewer[i]);
        }
    }
}

/// Only the user ends a listener: else it waits for the next connection, serves the one
/// that came, or looks again after one that did not.
pub proof fn law_only_the_user_ends_a_listener(first: bool, event: ListenEvent)
    ensures
        listen_action(first, event) == ListenAction::Stop <==> event is ShutdownSeen || event == (
        ListenEvent::Checked { shutdown: true }),
        listen_action(first, event) == ListenAction::Accept <==> event == (ListenEvent::Checked {
            shutdown: false,
        }),
        listen_action(first, event) is Serve <==> event is Accepted,
        listen_action(first, event) == ListenAction::Check <==> event is AcceptFailed,
{
}

/// The acceptance of connections. There is one input, which goes to the first
/// connection.
pub struct Listener {
    first: bool,
}

impl Listener {
    /// No connection was accepted yet.
    pub closed spec fn waits_for_first(&self) -> bool {
        self.first
    }

    pub fn new() -> (listener: Self)
        ensures
            listener.waits_for_first(),
    {
        Listener { first: true }
    }

    /// Says whether the connection that was accepted gets the input.
    pub fn on_connection(&mut self) -> (gets_stdin: bool)
        ensures
            gets_stdin == old(self).waits_for_first(),
            !final(self).waits_for_first(),
    {
        let gets_stdin: bool = self.first;
        self.first = false;
        gets_stdin
    }

    /// Says what to do upon an event. Only the user ends a listener; a connection
    /// that could not be accepted does not.
    pub fn step(&mut self, event: ListenEvent) -> (action: ListenAction)
        ensures
            action == match event {
                ListenEvent::Checked { shutdown } => if shutdown {
                    ListenAction::Stop
                } else {
                    ListenAction::Accept
                },
                ListenEvent::ShutdownSeen => ListenAction::Stop,
                ListenEvent::Accepted => ListenAction::Serve {
                    stdin: old(self).waits_for_first(),
                },
                ListenEvent::AcceptFailed => ListenAction::Check,
            },
            final(self).waits_for_first() == (old(self).waits_for_first() && !(event is Accepted)),
            action == listen_action(old(self).waits_for_first(), event),
            final(self).waits_for_first() == waits_for_more(old(self).waits_for_first(), event),
    {
        match event {
            ListenEvent::Checked { shutdown } => {
                if shutdown {
                    ListenAction::Stop
                } else {
                    ListenAction::Accept
                }
            },
            ListenEvent::ShutdownSeen => ListenAction::Stop,
            ListenEvent::Accepted => ListenAction::Serve { stdin: self.on_connection() },
            ListenEvent::AcceptFailed => ListenAction::Check,
        }
    }
}

/// A pipe stays what it was made: nothing that happens changes whether its input is typed,
/// whether the user is asked for more, and whether it ends with its input.
pub proof fn law_pipe_keeps_its_settings(pipe: PipeModel, event: PipeEvent)
    requires
        pipe.expects(event),
    ensures
        pipe.on_event(event).1.interactive == pipe.interactive,
        pipe.on_event(event).1.show_prompt == pipe.show_prompt,
        pipe.on_event(event).1.close_on_stdin_eof == pipe.close_on_stdin_eof,
{
}

/// The user is told by whom the connection was closed, and whether the peer has answered
/// where it was us: three different texts.
pub proof fn law_ends_are_told_apart(reason: ExitReason, acked: bool)
    ensures
        end_text(reason, acked) == end_text(ExitReason::PeerClosed, acked) <==> reason
            == ExitReason::PeerClosed,
        end_text(ExitReason::PeerClosed, true) == end_text(ExitReason::PeerClosed, false),
        reason != ExitReason::PeerClosed ==> end_text(reason, true) != end_text(reason, false),
        reason != ExitReason::PeerClosed ==> end_text(reason, acked) == end_text(
            ExitReason::Shutdown,
            acked,
        ),
{
    reveal_strlit("connection closed (peer Fin observed)");
    reveal_strlit("connection closed (local Fin acked by peer)");
    reveal_strlit("connection closed (Fin sent; no FinAck from peer)");
    assert("connection closed (peer Fin observed)"@.len() == 37);
    assert("connection closed (local Fin acked by peer)"@.len() == 43);
    assert("connection closed (Fin sent; no FinAck from peer)"@.len() == 49);
}

/// Each reason has a text of its own.
pub proof fn law_reasons_are_told_apart(one: ExitReason, other: ExitReason)
    requires
        reason_text(one) == reason_text(other),
    ensures
        one == other,
{
    reveal_strlit("shutdown signal");
    reveal_strlit("stdin EOF");
    reveal_strlit("peer closed (EOF)");
    reveal_strlit("send error");
    reveal_strlit("recv error");
    assert("shutdown signal"@.len() == 15);
    assert("stdin EOF"@.len() == 9);
    assert("peer closed (EOF)"@.len() == 17);
    assert("send error"@.len() == 10 && "send error"@[0] == 's');
    assert("recv error"@.len() == 10 && "recv error"@[0] == 'r');
}

} // verus!

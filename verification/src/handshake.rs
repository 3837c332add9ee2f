//! The handshake as seen by one host, before any packet is on the wire.
use std::collections::VecDeque;
use vstd::prelude::*;

use crate::context::BluefinHost;
use crate::error::{BluefinError, BluefinResult, ErrorView, fails_with};

verus! {

broadcast use vstd::string::group_string_axioms;

/// Draws a connection id with `rand::Rng::random` on the thread's generator.
/// Nothing is claimed of the value.
#[verifier::external_body]
pub(crate) fn random_u32() -> (value: u32) {
    rand::Rng::random(&mut rand::rng())
}

/// Draws a packet number with `rand::Rng::random` on the thread's generator.
/// Nothing is claimed of the value.
#[verifier::external_body]
pub(crate) fn random_u64() -> (value: u64) {
    rand::Rng::random(&mut rand::rng())
}

/// The states of the handshake, on either side.
#[derive(Clone, Copy, Debug, PartialEq, Eq, Structural)]
pub enum State {
    ServerStart,
    PendingAccept,
    RecvClientHello,
    SentServerHello,
    RecvClientAck,
    ClientStart,
    RequestingAccept,
    SentClientHello,
    RecvServerHello,
    SentClientAck,
    Conn,
}

impl State {
    pub open spec fn spec_name(self) -> Seq<char> {
        match self {
            State::ServerStart => "ServerStart"@,
            State::PendingAccept => "PendingAccept"@,
            State::RecvClientHello => "RecvClientHello"@,
            State::SentServerHello => "SentServerHello"@,
            State::RecvClientAck => "RecvClientAck"@,
            State::ClientStart => "ClientStart"@,
            State::RequestingAccept => "RequestingAccept"@,
            State::SentClientHello => "SentClientHello"@,
            State::RecvServerHello => "RecvServerHello"@,
            State::SentClientAck => "SentClientAck"@,
            State::Conn => "Conn"@,
        }
    }

    /// The name of the state, for messages.
    pub fn name(self) -> (name: &'static str)
        ensures
            name@ == self.spec_name(),
    {
        match self {
            State::ServerStart => "ServerStart",
            State::PendingAccept => "PendingAccept",
            State::RecvClientHello => "RecvClientHello",
            State::SentServerHello => "SentServerHello",
            State::RecvClientAck => "RecvClientAck",
            State::ClientStart => "ClientStart",
            State::RequestingAccept => "RequestingAccept",
            State::SentClientHello => "SentClientHello",
            State::RecvServerHello => "RecvServerHello",
            State::SentClientAck => "SentClientAck",
            State::Conn => "Conn",
        }
    }
}

/// One potential connection that the server is ready to accept.
#[derive(Clone, Copy, Debug, PartialEq, Eq, Structural)]
pub struct PendingAccept {
    pub src_conn_id: u32,
    pub packet_number: u64,
}

impl PendingAccept {
    /// A request with a random connection id and packet number.
    pub fn new() -> (accept: PendingAccept) {
        PendingAccept { src_conn_id: random_u32(), packet_number: random_u64() }
    }
}

/// A client hello that is to be sent.
#[derive(Clone, Copy, Debug, PartialEq, Eq, Structural)]
pub struct Transmit {
    pub src_conn_id: u32,
    pub packet_number: u64,
}

impl Transmit {
    /// A hello with a random connection id and packet number.
    pub fn new() -> (transmit: Transmit) {
        Transmit { src_conn_id: random_u32(), packet_number: random_u64() }
    }
}

pub struct HandshakeHandler {
    state: State,
    pending_accepts: VecDeque<PendingAccept>,
    transmit_queue: VecDeque<Transmit>,
}

/// The mathematical value of a [`HandshakeHandler`].
#[verifier::ext_equal]
pub ghost struct HandshakeModel {
    pub state: State,
    pub accepts: Seq<PendingAccept>,
    pub transmits: Seq<Transmit>,
}

impl View for HandshakeHandler {
    type V = HandshakeModel;

    closed spec fn view(&self) -> HandshakeModel {
        HandshakeModel {
            state: self.state,
            accepts: self.pending_accepts@,
            transmits: self.transmit_queue@,
        }
    }
}

impl HandshakeModel {
    /// A handshake that has not begun.
    pub open spec fn fresh(host_type: BluefinHost) -> HandshakeModel {
        HandshakeModel {
            state: if host_type == BluefinHost::Client {
                State::ClientStart
            } else {
                State::ServerStart
            },
            accepts: Seq::empty(),
            transmits: Seq::empty(),
        }
    }

    /// The handshake begins with the drawn id and number: the server queues an
    /// accept, the client a hello, and no other state can begin.
    pub open spec fn on_begin(self, src_conn_id: u32, packet_number: u64) -> HandshakeModel {
        match self.state {
            State::ServerStart => HandshakeModel {
                state: State::PendingAccept,
                accepts: self.accepts.push(PendingAccept { src_conn_id, packet_number }),
                ..self
            },
            State::ClientStart => HandshakeModel {
                state: State::RequestingAccept,
                transmits: self.transmits.push(Transmit { src_conn_id, packet_number }),
                ..self
            },
            _ => self,
        }
    }

    /// The hello that is sent next, if any.
    pub open spec fn next_hello(self) -> Option<Transmit> {
        if self.state == State::RequestingAccept && self.transmits.len() > 0 {
            Some(self.transmits[0])
        } else {
            None
        }
    }

    /// The next hello is taken.
    pub open spec fn on_polled(self) -> HandshakeModel {
        if self.next_hello() is Some {
            HandshakeModel { transmits: self.transmits.skip(1), ..self }
        } else {
            self
        }
    }

    /// Why the handshake cannot begin, if so.
    pub open spec fn begin_error(self) -> Option<ErrorView> {
        match self.state {
            State::ServerStart | State::ClientStart => None,
            other => Some(
                ErrorView::InvalidState("Cannot begin handshake at state: "@ + other.spec_name()),
            ),
        }
    }
}

impl HandshakeHandler {
    /// The handshake of a pack follower is not designed.
    pub fn new(host_type: BluefinHost) -> (handler: HandshakeHandler)
        requires
            host_type != BluefinHost::PackFollower,
        ensures
            handler@ == HandshakeModel::fresh(host_type),
    {
        let state = match host_type {
            BluefinHost::Client => State::ClientStart,
            _ => State::ServerStart,
        };
        HandshakeHandler {
            state,
            pending_accepts: VecDeque::new(),
            transmit_queue: VecDeque::new(),
        }
    }

    /// This initiates the handshake. For the pack leader a pending accept is
    /// queued, which indicates that the server is ready to accept a connection.
    /// For the client a transmit request is queued, which represents a
    /// client-hello packet to be sent on the wire. Connection id and packet
    /// number are drawn at random.
    pub fn begin(&mut self) -> (begun: BluefinResult<()>)
        ensures
            exists|src_conn_id: u32, packet_number: u64|
                final(self)@ == #[trigger] old(self)@.on_begin(src_conn_id, packet_number),
            match old(self)@.begin_error() {
                None => begun is Ok,
                Some(e) => fails_with(begun, e),
            },
    {
        match self.state {
            State::ServerStart => {
                let accept = PendingAccept::new();
                self.begin_with(accept.src_conn_id, accept.packet_number)
            },
            State::ClientStart => {
                let transmit = Transmit::new();
                self.begin_with(transmit.src_conn_id, transmit.packet_number)
            },
            // Nothing is drawn where nothing can begin.
            _ => self.begin_with(0, 0),
        }
    }

    /// [`begin`](Self::begin) with a given connection id and packet number.
    pub fn begin_with(&mut self, src_conn_id: u32, packet_number: u64) -> (begun: BluefinResult<()>)
        ensures
            final(self)@ == old(self)@.on_begin(src_conn_id, packet_number),
            match old(self)@.begin_error() {
                None => begun is Ok,
                Some(e) => fails_with(begun, e),
            },
    {
        match self.state {
            State::ServerStart => {
                self.pending_accepts.push_back(PendingAccept { src_conn_id, packet_number });
                self.state = State::PendingAccept;
                Ok(())
            },
            State::ClientStart => {
                self.transmit_queue.push_back(Transmit { src_conn_id, packet_number });
                self.state = State::RequestingAccept;
                Ok(())
            },
            other => {
                let mut message: String = "Cannot begin handshake at state: ".to_string();
                message.append(other.name());
                Err(BluefinError::InvalidState(message))
            },
        }
    }

    /// The next client hello to send, oldest first.
    pub fn poll_tx_client_hello(&mut self) -> (polled: BluefinResult<Option<Transmit>>)
        ensures
            final(self)@ == old(self)@.on_polled(),
            polled matches Ok(next) ==> next == old(self)@.next_hello(),
            polled is Ok <==> old(self)@.state == State::RequestingAccept,
            old(self)@.state != State::RequestingAccept ==> {
                &&& fails_with(polled, ErrorView::InvalidState("Cannot poll tx client hello"@))
                &&& final(self)@ == old(self)@
            },
            old(self)@.state == State::RequestingAccept ==> {
                if old(self)@.transmits.len() == 0 {
                    &&& polled == Ok::<Option<Transmit>, BluefinError>(None)
                    &&& final(self)@ == old(self)@
                } else {
                    &&& polled == Ok::<Option<Transmit>, BluefinError>(
                        Some(old(self)@.transmits[0]),
                    )
                    &&& final(self)@ == (HandshakeModel {
                        transmits: old(self)@.transmits.skip(1),
                        ..old(self)@
                    })
                }
            },
    {
        let ghost before = self@;
        if self.state != State::RequestingAccept {
            return Err(BluefinError::InvalidState("Cannot poll tx client hello".to_string()));
        }
        let next = self.transmit_queue.pop_front();
        proof {
            if before.transmits.len() > 0 {
                assert(self@.transmits =~= before.transmits.skip(1));
            }
        }
        Ok(next)
    }

    /// Incoming packets need no handling here.
    pub fn handle(&mut self) -> (handled: BluefinResult<()>)
        ensures
            handled is Ok,
            final(self)@ == old(self)@,
    {
        Ok(())
    }
}

/// A handshake begins once: after it began, beginning again fails and changes
/// nothing.
pub proof fn law_handshake_begins_once(
    model: HandshakeModel,
    first: (u32, u64),
    second: (u32, u64),
)
    requires
        model.begin_error() is None,
    ensures
        model.on_begin(first.0, first.1).begin_error() is Some,
        model.on_begin(first.0, first.1).on_begin(second.0, second.1) == model.on_begin(
            first.0,
            first.1,
        ),
{
}

/// A client that begins its handshake asks for a connection with exactly the hello
/// that was drawn, once; a pack leader that begins is ready for exactly one
/// connection, with the id and the number that were drawn, and sends no hello.
pub proof fn law_handshake_begins_with_what_was_drawn(src_conn_id: u32, packet_number: u64)
    ensures
        ({
            let client = HandshakeModel::fresh(BluefinHost::Client);
            let begun = client.on_begin(src_conn_id, packet_number);
            &&& client.begin_error() is None
            &&& client.next_hello() is None
            &&& begun.state == State::RequestingAccept
            &&& begun.accepts.len() == 0
            &&& begun.next_hello() matches Some(hello) && hello.src_conn_id == src_conn_id
                && hello.packet_number == packet_number
            &&& begun.on_polled().next_hello() is None
        }),
        ({
            let leader = HandshakeModel::fresh(BluefinHost::PackLeader);
            let begun = leader.on_begin(src_conn_id, packet_number);
            &&& leader.begin_error() is None
            &&& begun.state == State::PendingAccept
            &&& begun.accepts.len() == 1
            &&& begun.accepts[0].src_conn_id == src_conn_id
            &&& begun.accepts[0].packet_number == packet_number
            &&& begun.next_hello() is None
        }),
{
}

/// A handshake can begin where it has not begun, and only there.
pub proof fn law_only_a_start_begins(model: HandshakeModel)
    ensures
        model.begin_error() is None <==> model.state == State::ClientStart || model.state
            == State::ServerStart,
        model.begin_error() is Some ==> model.begin_error()->0 is InvalidState,
{
}

/// Hellos are sent in the order in which they were queued, each once, and only while a
/// connection is asked for.
pub proof fn law_hellos_are_sent_in_order(model: HandshakeModel)
    ensures
        model.next_hello() is Some <==> model.state == State::RequestingAccept
            && model.transmits.len() > 0,
        model.next_hello() matches Some(hello) ==> seq![hello] + model.on_polled().transmits
            == model.transmits,
        model.next_hello() is None ==> model.on_polled() == model,
        model.on_polled().state == model.state,
        model.on_polled().accepts == model.accepts,
{
    if model.next_hello() is Some {
        assert(seq![model.transmits[0]] + model.transmits.skip(1) =~= model.transmits);
    }
}

proof fn lemma_name(state: State)
    ensures
        ({
            let name = state.spec_name();
            match state {
                State::ServerStart => name.len() == 11 && name[0] == 'S' && name[4] == 'e',
                State::PendingAccept => name.len() == 13 && name[0] == 'P' && name[4] == 'i',
                State::RecvClientHello => name.len() == 15 && name[0] == 'R' && name[4] == 'C',
                State::SentServerHello => name.len() == 15 && name[0] == 'S' && name[4] == 'S',
                State::RecvClientAck => name.len() == 13 && name[0] == 'R' && name[4] == 'C',
                State::ClientStart => name.len() == 11 && name[0] == 'C' && name[4] == 'n',
                State::RequestingAccept => name.len() == 16 && name[0] == 'R' && name[4] == 'e',
                State::SentClientHello => name.len() == 15 && name[0] == 'S' && name[4] == 'C',
                State::RecvServerHello => name.len() == 15 && name[0] == 'R' && name[4] == 'S',
                State::SentClientAck => name.len() == 13 && name[0] == 'S' && name[4] == 'C',
                State::Conn => name.len() == 4,
            }
        }),
{
    match state {
        State::ServerStart => {
            reveal_strlit("ServerStart");
        },
        State::PendingAccept => {
            reveal_strlit("PendingAccept");
        },
        State::RecvClientHello => {
            reveal_strlit("RecvClientHello");
        },
        State::SentServerHello => {
            reveal_strlit("SentServerHello");
        },
        State::RecvClientAck => {
            reveal_strlit("RecvClientAck");
        },
        State::ClientStart => {
            reveal_strlit("ClientStart");
        },
        State::RequestingAccept => {
            reveal_strlit("RequestingAccept");
        },
        State::SentClientHello => {
            reveal_strlit("SentClientHello");
        },
        State::RecvServerHello => {
            reveal_strlit("RecvServerHello");
        },
        State::SentClientAck => {
            reveal_strlit("SentClientAck");
        },
        State::Conn => {
            reveal_strlit("Conn");
        },
    }
}

/// The name of a state tells it from the others.
pub proof fn law_names_tell_states_apart(one: State, other: State)
    requires
        one.spec_name() == other.spec_name(),
    ensures
        one == other,
{
    lemma_name(one);
    lemma_name(other);
}

} // verus!

//! An established connection, and how it is closed.
use bytes::Bytes;
use vstd::prelude::*;

use crate::connection::close::CloseState;
use crate::error::{BluefinError, BluefinResult, ErrorView, fails_with};
use crate::net::client::Established;
use crate::net::close_handler::{CloseBuffer, CloseBufferModel};
use crate::net::registry::ConnectionManager;
use crate::net::{DiagnosticEvent, bare_datagram, bare_packet};
use crate::shared_bytes::contents;
use crate::wire::header::{BluefinSecurityFields, PacketType};
use crate::wire::packet::PacketView;
use crate::worker::channel::{read_ack_channel, read_channel};
use crate::worker::handle::{WriterHandler, WriterModel, WriterTasks};
use crate::worker::pump::{DataPump, DataPumpModel};

verus! {

/// How often a `Fin` is sent before the connection is closed without an answer.
pub const MAX_FIN_ATTEMPTS: usize = 3;

/// How long an answer to a `Fin` is waited for, in milliseconds.
pub const FIN_TIMEOUT_MILLIS: u64 = 200;

/// [`BluefinConnection`] is a connection between a client and a server after the
/// handshake.
pub struct BluefinConnection {
    src_conn_id: u32,
    dst_conn_id: u32,
    writer_handler: WriterHandler,
    version: u8,
    security_fields: BluefinSecurityFields,
}

/// The mathematical value of a [`BluefinConnection`].
pub ghost struct BluefinConnectionModel {
    pub src_conn_id: u32,
    pub dst_conn_id: u32,
    pub writer: WriterModel,
    pub version: u8,
    pub security_fields: BluefinSecurityFields,
}

impl BluefinConnectionModel {
    /// The connection that a handshake has opened, with a writer that feeds these
    /// channels.
    pub open spec fn opened(
        established: Established,
        data_channel: nat,
        ack_channel: nat,
    ) -> BluefinConnectionModel {
        BluefinConnectionModel {
            src_conn_id: established.src_conn_id,
            dst_conn_id: established.dst_conn_id,
            writer: WriterModel::fresh(
                established.next_send_packet_num,
                established.src_conn_id,
                established.dst_conn_id,
            ).on_start(data_channel, ack_channel),
            version: 0,
            security_fields: BluefinSecurityFields::plain(),
        }
    }

    pub open spec fn with_writer(self, writer: WriterModel) -> BluefinConnectionModel {
        BluefinConnectionModel { writer, ..self }
    }
}

impl View for BluefinConnection {
    type V = BluefinConnectionModel;

    closed spec fn view(&self) -> BluefinConnectionModel {
        BluefinConnectionModel {
            src_conn_id: self.src_conn_id,
            dst_conn_id: self.dst_conn_id,
            writer: self.writer_handler@,
            version: self.version,
            security_fields: self.security_fields,
        }
    }
}

impl BluefinConnection {
    /// A connection with a writer that is started. The caller runs the tasks of
    /// the writer.
    pub fn new(established: Established) -> (opened: (Self, WriterTasks))
        ensures
            opened.0@ == (BluefinConnectionModel {
                src_conn_id: established.src_conn_id,
                dst_conn_id: established.dst_conn_id,
                writer: WriterModel::fresh(
                    established.next_send_packet_num,
                    established.src_conn_id,
                    established.dst_conn_id,
                ).on_start(
                    read_channel(opened.1.data),
                    read_ack_channel(opened.1.acks),
                ),
                version: 0,
                security_fields: BluefinSecurityFields::plain(),
            }),
            opened.0@ == BluefinConnectionModel::opened(
                established,
                read_channel(opened.1.data),
                read_ack_channel(opened.1.acks),
            ),
    {
        let mut writer_handler = WriterHandler::new(
            established.next_send_packet_num,
            established.src_conn_id,
            established.dst_conn_id,
        );
        let tasks: WriterTasks = writer_handler.start();
        (
            BluefinConnection {
                src_conn_id: established.src_conn_id,
                dst_conn_id: established.dst_conn_id,
                writer_handler,
                version: 0x0,
                security_fields: BluefinSecurityFields::default(),
            },
            tasks,
        )
    }

    /// The ids of the connection: ours and the peer's.
    pub fn ids(&self) -> (ids: (u32, u32))
        ensures
            ids == (self@.src_conn_id, self@.dst_conn_id),
    {
        (self.src_conn_id, self.dst_conn_id)
    }

    /// The writer of the connection.
    pub fn writer(&self) -> (writer: &WriterHandler)
        ensures
            writer@ == self@.writer,
    {
        &self.writer_handler
    }

    /// The writer of the connection, to be given work.
    pub fn writer_mut(&mut self) -> (writer: &mut WriterHandler)
        ensures
            writer@ == old(self)@.writer,
            final(self)@ == old(self)@.with_writer(final(writer)@),
    {
        &mut self.writer_handler
    }

    /// Sends a copy of the bytes.
    #[inline]
    pub fn send(&mut self, buf: &[u8]) -> (answer: BluefinResult<usize>)
        ensures
            match answer {
                Ok(len) => {
                    &&& old(self)@.writer.send_refusal() is None
                    &&& len == buf@.len()
                    &&& final(self)@ == old(self)@.with_writer(old(self)@.writer.on_sent(buf@))
                },
                Err(e) => e@ == old(self)@.writer.send_error() && final(self)@ == old(self)@,
            },
    {
        self.writer_handler.send_data(buf)
    }

    /// Sends the payload without a copy.
    #[inline]
    pub fn send_bytes(&mut self, payload: Bytes) -> (answer: BluefinResult<usize>)
        ensures
            match answer {
                Ok(len) => {
                    &&& old(self)@.writer.send_refusal() is None
                    &&& len == contents(payload).len()
                    &&& final(self)@ == old(self)@.with_writer(
                        old(self)@.writer.on_sent(contents(payload)),
                    )
                },
                Err(e) => e@ == old(self)@.writer.send_error() && final(self)@ == old(self)@,
            },
    {
        self.writer_handler.send_bytes(payload)
    }

    /// The connection has been closed, by us or by the peer.
    #[inline]
    pub fn is_closed(close_buff: &CloseBuffer) -> (closed: bool)
        ensures
            closed == (close_buff@.fsm.state is Closed),
    {
        match close_buff.state() {
            CloseState::Closed => true,
            _ => false,
        }
    }

    /// The protocol version of the connection.
    #[inline]
    pub fn version(&self) -> (version: u8)
        ensures
            version == self@.version,
    {
        self.version
    }

    /// The security fields of the connection.
    #[inline]
    pub fn security_fields(&self) -> (fields: &BluefinSecurityFields)
        ensures
            *fields == self@.security_fields,
    {
        &self.security_fields
    }

    /// Begins to close the connection, once all data was written: further data is
    /// refused, and the `Fin` gets the number after that of the last data packet.
    pub fn begin_close(&mut self, pump: &mut DataPump, close_buff: &mut CloseBuffer) -> (driver:
        CloseDriver)
        requires
            old(pump).valid(),
            old(pump)@.next_packet_num < u64::MAX,
        ensures
            final(pump).valid(),
            final(self)@ == old(self)@.with_writer(old(self)@.writer.on_closed()),
            final(pump)@ == (DataPumpModel {
                next_packet_num: (old(pump)@.next_packet_num + 1) as u64,
                ..old(pump)@
            }),
            final(close_buff)@ == (CloseBufferModel {
                fsm: old(close_buff)@.fsm.on_local_fin(old(pump)@.next_packet_num),
                ..old(close_buff)@
            }),
            final(close_buff)@ == locally_closed(old(close_buff)@, driver@),
            final(pump)@ == old(pump)@.on_reserved(),
            driver@ == (CloseDriverModel {
                src_conn_id: old(self)@.src_conn_id,
                dst_conn_id: old(self)@.dst_conn_id,
                fin_packet_num: old(pump)@.next_packet_num,
                attempts: 0,
            }),
            driver@ == CloseDriverModel::begun(old(self)@, old(pump)@),
    {
        self.writer_handler.mark_closed();
        let fin_packet_num: u64 = pump.reserve_close_packet_num();
        close_buff.record_local_fin_sent(fin_packet_num);
        CloseDriver {
            src_conn_id: self.src_conn_id,
            dst_conn_id: self.dst_conn_id,
            fin_packet_num,
            attempts: 0,
        }
    }
}

/// The exchange by which we close a connection: a `Fin` is sent until it is
/// answered, or until it was sent often enough.
pub struct CloseDriver {
    src_conn_id: u32,
    dst_conn_id: u32,
    fin_packet_num: u64,
    attempts: usize,
}

/// The mathematical value of a [`CloseDriver`].
pub ghost struct CloseDriverModel {
    pub src_conn_id: u32,
    pub dst_conn_id: u32,
    pub fin_packet_num: u64,
    /// How often the `Fin` was sent.
    pub attempts: nat,
}

impl View for CloseDriver {
    type V = CloseDriverModel;

    closed spec fn view(&self) -> CloseDriverModel {
        CloseDriverModel {
            src_conn_id: self.src_conn_id,
            dst_conn_id: self.dst_conn_id,
            fin_packet_num: self.fin_packet_num,
            attempts: self.attempts as nat,
        }
    }
}

impl CloseDriverModel {
    /// The close of a connection begins: its `Fin` gets the number after that of the
    /// last data packet.
    pub open spec fn begun(
        connection: BluefinConnectionModel,
        pump: DataPumpModel,
    ) -> CloseDriverModel {
        CloseDriverModel {
            src_conn_id: connection.src_conn_id,
            dst_conn_id: connection.dst_conn_id,
            fin_packet_num: pump.next_packet_num,
            attempts: 0,
        }
    }

    /// The `Fin` that is sent.
    pub open spec fn fin(self) -> PacketView {
        bare_packet(self.src_conn_id, self.dst_conn_id, self.fin_packet_num, PacketType::Fin)
    }

    /// The `Fin` may be sent once more.
    pub open spec fn may_send(self) -> bool {
        self.attempts < MAX_FIN_ATTEMPTS
    }

    /// The driver after it was asked for the next `Fin`.
    pub open spec fn on_attempt(self) -> CloseDriverModel {
        if self.may_send() {
            CloseDriverModel { attempts: self.attempts + 1, ..self }
        } else {
            self
        }
    }

    /// How many of the next `calls` attempts send a `Fin`.
    pub open spec fn sends_in(self, calls: nat) -> nat
        decreases calls,
    {
        if calls == 0 {
            0
        } else {
            (if self.may_send() {
                1nat
            } else {
                0
            }) + self.on_attempt().sends_in((calls - 1) as nat)
        }
    }

    /// The connections without the one that is closed.
    pub open spec fn without_it(
        self,
        connections: Map<(u32, u32), u64>,
    ) -> Map<(u32, u32), u64> {
        connections.remove((self.src_conn_id, self.dst_conn_id))
    }

    /// The peer has answered our `Fin`.
    pub open spec fn answered(self, close: CloseBufferModel) -> bool {
        close.fsm.acked == Some(self.fin_packet_num)
    }
}

/// The close side of a connection whose `Fin` is being sent.
pub open spec fn locally_closed(
    close: CloseBufferModel,
    driver: CloseDriverModel,
) -> CloseBufferModel {
    CloseBufferModel { fsm: close.fsm.on_local_fin(driver.fin_packet_num), ..close }
}

/// The close side of a connection that is closed.
pub open spec fn closed(close: CloseBufferModel) -> CloseBufferModel {
    CloseBufferModel { fsm: close.fsm.on_closed(), ..close }
}

impl CloseDriver {
    /// The number of the `Fin`.
    pub fn fin_packet_num(&self) -> (number: u64)
        ensures
            number == self@.fin_packet_num,
    {
        self.fin_packet_num
    }

    /// The next `Fin` to be sent, as long as it was not sent often enough, with
    /// what a listener is told of it.
    pub fn next_attempt(&mut self) -> (attempt: Option<(Vec<u8>, DiagnosticEvent)>)
        ensures
            final(self)@ == old(self)@.on_attempt(),
            match attempt {
                Some((datagram, event)) => {
                    &&& old(self)@.may_send()
                    &&& datagram@ == bare_packet(
                        old(self)@.src_conn_id,
                        old(self)@.dst_conn_id,
                        old(self)@.fin_packet_num,
                        PacketType::Fin,
                    ).wire()
                    &&& datagram@ == old(self)@.fin().wire()
                    &&& event == (DiagnosticEvent::FinSent {
                        packet_num: old(self)@.fin_packet_num,
                    })
                },
                None => !old(self)@.may_send(),
            },
    {
        if self.attempts >= MAX_FIN_ATTEMPTS {
            return None;
        }
        self.attempts = self.attempts + 1;
        let datagram: Vec<u8> = bare_datagram(
            self.src_conn_id,
            self.dst_conn_id,
            self.fin_packet_num,
            PacketType::Fin,
        );
        Some((datagram, DiagnosticEvent::FinSent { packet_num: self.fin_packet_num }))
    }

    /// Looks whether the peer has answered. If so the connection is closed, and
    /// its packets are no longer routed to it.
    pub fn finish(&self, close_buff: &mut CloseBuffer, connections: &mut ConnectionManager) -> (
        finished: bool)
        ensures
            finished == self@.answered(old(close_buff)@),
            finished ==> {
                &&& final(close_buff)@ == closed(old(close_buff)@)
                &&& final(connections)@ == old(connections)@.remove(
                    (self@.src_conn_id, self@.dst_conn_id),
                )
                &&& final(connections)@ == self@.without_it(old(connections)@)
            },
            !finished ==> final(close_buff)@ == old(close_buff)@ && final(connections)@ == old(
                connections,
            )@,
    {
        let answered: bool = match close_buff.received_fin_ack_for() {
            Some(number) => number == self.fin_packet_num,
            None => false,
        };
        if answered {
            close_buff.mark_closed();
            let _ = connections.remove((self.src_conn_id, self.dst_conn_id));
        }
        answered
    }

    /// Closes the connection without an answer of the peer.
    pub fn give_up(&self, close_buff: &mut CloseBuffer, connections: &mut ConnectionManager) -> (
        answer: BluefinResult<()>)
        ensures
            final(close_buff)@ == closed(old(close_buff)@),
            final(connections)@ == old(connections)@.remove(
                (self@.src_conn_id, self@.dst_conn_id),
            ),
            final(connections)@ == self@.without_it(old(connections)@),
            fails_with(
                answer,
                ErrorView::TimedOut("close: peer did not send FinAck within retransmit budget"@),
            ),
    {
        close_buff.mark_closed();
        let _ = connections.remove((self.src_conn_id, self.dst_conn_id));
        Err(BluefinError::TimedOut("close: peer did not send FinAck within retransmit budget"))
    }
}

/// However often it is asked, a driver sends no more `Fin`s than allowed.
pub proof fn law_fin_is_sent_a_bounded_number_of_times(driver: CloseDriverModel, calls: nat)
    requires
        driver.attempts <= MAX_FIN_ATTEMPTS,
    ensures
        driver.attempts + driver.sends_in(calls) <= MAX_FIN_ATTEMPTS,
        calls >= MAX_FIN_ATTEMPTS - driver.attempts ==> driver.attempts + driver.sends_in(calls)
            == MAX_FIN_ATTEMPTS,
    decreases calls,
{
    if calls > 0 {
        law_fin_is_sent_a_bounded_number_of_times(driver.on_attempt(), (calls - 1) as nat);
    }
}

/// The `FinAck` with which a peer answers our `Fin` ends the close: the driver
/// finds it answered, and the connection is closed.
pub proof fn law_fin_ack_ends_the_close(driver: CloseDriverModel, close: CloseBufferModel)
    ensures
        driver.answered(close.on_fin_ack(driver.fin_packet_num)),
        closed(close.on_fin_ack(driver.fin_packet_num)).fsm.state is Closed,
{
}

/// A `Fin` is sent three times at most: after the first one come two more, and then
/// none, however often it is asked for.
pub proof fn law_fin_is_sent_three_times(driver: CloseDriverModel, calls: nat)
    requires
        driver.attempts == 0,
    ensures
        driver.sends_in(calls) == if calls < 3 {
            calls
        } else {
            3
        },
        driver.on_attempt().fin() == driver.fin(),
    decreases calls,
{
    law_fin_is_sent_a_bounded_number_of_times(driver, calls);
    reveal_with_fuel(CloseDriverModel::sends_in, 3);
}

} // verus!

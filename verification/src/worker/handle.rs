//! The handle by which the callers of a connection give work to its writer.
use bytes::Bytes;
use tokio::sync::mpsc::{Receiver, Sender, UnboundedReceiver, UnboundedSender};
use vstd::prelude::*;

use crate::error::{BluefinError, BluefinResult, ErrorView, fails_with};
use crate::net::{bare_datagram, bare_packet};
use crate::shared_bytes::contents;
use crate::wire::header::PacketType;
use crate::wire::packet::PacketView;
use crate::worker::ack::AckData;
use crate::worker::channel::{
    ack_channel, bound_of, data_channel, fed_ack_channel, fed_channel, handed, handed_acks,
    read_ack_channel, read_channel, send, try_send,
};
use crate::worker::packing::{joined, lemma_joined_push};

verus! {

/// How many payloads the data channel holds. Large enough that the writer keeps
/// up under bursts, and small enough to put a cap on the memory used.
pub const DATA_CHANNEL_BOUND: usize = 4096;

/// [`WriterHandler`] is a handle for all write operations to the network. It
/// accepts bytes and acks; its tasks divide them into packets and datagrams. The
/// order in which the sends arrive is preserved.
pub struct WriterHandler {
    next_packet_num: u64,
    channels: Option<Channels>,
    src_conn_id: u32,
    dst_conn_id: u32,
    closed: bool,
}

/// The sending ends of the channels of a writer.
struct Channels {
    data: Sender<Bytes>,
    acks: UnboundedSender<AckData>,
}

/// The mathematical value of a [`WriterHandler`].
#[verifier::ext_equal]
pub ghost struct WriterModel {
    pub next_packet_num: u64,
    pub src_conn_id: u32,
    pub dst_conn_id: u32,
    /// The channels were opened, and how many payloads the data channel holds.
    pub bound: Option<nat>,
    /// The channel that the payloads go into.
    pub data_channel: Option<nat>,
    /// The channel that the acks go into.
    pub ack_channel: Option<nat>,
    /// The payloads that were given to the data task without waiting for room, in
    /// their order.
    pub sent: Seq<Seq<u8>>,
    /// The acks that were given to the ack task, in their order.
    pub acks: Seq<(u64, usize)>,
    /// No more data is accepted.
    pub closed: bool,
}

impl WriterModel {
    /// A writer that was not started.
    pub open spec fn fresh(next_packet_num: u64, src_conn_id: u32, dst_conn_id: u32) -> WriterModel {
        WriterModel {
            next_packet_num,
            src_conn_id,
            dst_conn_id,
            bound: None,
            data_channel: None,
            ack_channel: None,
            sent: Seq::empty(),
            acks: Seq::empty(),
            closed: false,
        }
    }

    /// A writer whose channels are new.
    pub open spec fn on_start(self, data_channel: nat, ack_channel: nat) -> WriterModel {
        WriterModel {
            bound: Some(DATA_CHANNEL_BOUND as nat),
            data_channel: Some(data_channel),
            ack_channel: Some(ack_channel),
            sent: Seq::empty(),
            acks: Seq::empty(),
            ..self
        }
    }

    /// The channel takes a payload.
    pub open spec fn on_sent(self, payload: Seq<u8>) -> WriterModel {
        WriterModel { sent: self.sent.push(payload), ..self }
    }

    /// The channel takes an ack.
    pub open spec fn on_acked(self, base_packet_num: u64, num_packets: usize) -> WriterModel {
        WriterModel { acks: self.acks.push((base_packet_num, num_packets)), ..self }
    }

    /// The answer to the peer's `Fin` with that number.
    pub open spec fn fin_ack(self, packet_num: u64) -> PacketView {
        bare_packet(self.src_conn_id, self.dst_conn_id, packet_num, PacketType::FinAck)
    }

    pub open spec fn on_closed(self) -> WriterModel {
        WriterModel { closed: true, ..self }
    }

    /// Why data is refused without asking the channel.
    pub open spec fn send_refusal(self) -> Option<ErrorView> {
        if self.closed {
            Some(ErrorView::ConnectionClosed)
        } else if self.bound is None {
            Some(ErrorView::WriteError("Sender is not available"@))
        } else {
            None
        }
    }

    /// Acks can be sent: the writer was started. That it was closed does not matter.
    pub open spec fn takes_acks(self) -> bool {
        self.bound is Some
    }

    /// Why data is refused: because of the state, or else by the channel.
    pub open spec fn send_error(self) -> ErrorView {
        if self.send_refusal() is Some {
            self.send_refusal()->0
        } else {
            ErrorView::WriteError("Failed to send data (channel full or closed)"@)
        }
    }
}

/// The receiving ends of the channels of a writer. Its tasks read from them.
pub struct WriterTasks {
    pub data: Receiver<Bytes>,
    pub acks: UnboundedReceiver<AckData>,
}

impl View for WriterHandler {
    type V = WriterModel;

    closed spec fn view(&self) -> WriterModel {
        WriterModel {
            next_packet_num: self.next_packet_num,
            src_conn_id: self.src_conn_id,
            dst_conn_id: self.dst_conn_id,
            bound: match self.channels {
                Some(channels) => Some(bound_of(channels.data)),
                None => None,
            },
            data_channel: match self.channels {
                Some(channels) => Some(fed_channel(channels.data)),
                None => None,
            },
            ack_channel: match self.channels {
                Some(channels) => Some(fed_ack_channel(channels.acks)),
                None => None,
            },
            sent: match self.channels {
                Some(channels) => handed(channels.data),
                None => Seq::empty(),
            },
            acks: match self.channels {
                Some(channels) => handed_acks(channels.acks),
                None => Seq::empty(),
            },
            closed: self.closed,
        }
    }
}

impl WriterHandler {
    pub fn new(next_packet_num: u64, src_conn_id: u32, dst_conn_id: u32) -> (writer: Self)
        ensures
            writer@ == WriterModel::fresh(next_packet_num, src_conn_id, dst_conn_id),
    {
        WriterHandler { next_packet_num, channels: None, src_conn_id, dst_conn_id, closed: false }
    }

    /// Opens the channels. The caller runs the two tasks on what is returned: the
    /// other ends of the channels that the writer feeds.
    pub fn start(&mut self) -> (tasks: WriterTasks)
        ensures
            final(self)@ == old(self)@.on_start(
                read_channel(tasks.data),
                read_ack_channel(tasks.acks),
            ),
    {
        let (data_sender, data) = data_channel(DATA_CHANNEL_BOUND);
        let (ack_sender, acks) = ack_channel();
        self.channels = Some(Channels { data: data_sender, acks: ack_sender });
        assert(self@.sent =~= Seq::empty());
        assert(self@.acks =~= Seq::empty());
        WriterTasks { data, acks }
    }

    /// The number of the first packet that the data task sends.
    pub fn next_packet_num(&self) -> (number: u64)
        ensures
            number == self@.next_packet_num,
    {
        self.next_packet_num
    }

    /// The connection ids in the packets that are sent: ours and the peer's.
    pub fn connection_ids(&self) -> (ids: (u32, u32))
        ensures
            ids == (self@.src_conn_id, self@.dst_conn_id),
    {
        (self.src_conn_id, self.dst_conn_id)
    }

    /// Refuses all further data.
    pub fn mark_closed(&mut self)
        ensures
            final(self)@ == old(self)@.on_closed(),
    {
        self.closed = true;
    }

    /// The datagram that answers the peer's `Fin`.
    pub fn fin_ack_datagram(&self, packet_num: u64) -> (datagram: Vec<u8>)
        ensures
            datagram@ == bare_packet(
                self@.src_conn_id,
                self@.dst_conn_id,
                packet_num,
                PacketType::FinAck,
            ).wire(),
            datagram@ == self@.fin_ack(packet_num).wire(),
    {
        bare_datagram(self.src_conn_id, self.dst_conn_id, packet_num, PacketType::FinAck)
    }

    /// The sending end of the data channel, where data may be sent.
    pub fn data_sender(&self) -> (sender: BluefinResult<&Sender<Bytes>>)
        ensures
            match sender {
                Ok(sender) => {
                    &&& self@.send_refusal() is None
                    &&& handed(*sender) == self@.sent
                    &&& self@.data_channel == Some(fed_channel(*sender))
                    &&& self@.bound == Some(bound_of(*sender))
                },
                Err(e) => self@.send_refusal() == Some(e@),
            },
    {
        if self.closed {
            return Err(BluefinError::ConnectionClosed);
        }
        match &self.channels {
            Some(channels) => Ok(&channels.data),
            None => Err(BluefinError::WriteError("Sender is not available")),
        }
    }

    /// What a send of `len` bytes answers, once the channel has taken or refused
    /// them without waiting.
    pub fn sent(accepted: bool, len: usize) -> (answer: BluefinResult<usize>)
        ensures
            accepted ==> answer == Ok::<usize, BluefinError>(len),
            !accepted ==> fails_with(
                answer,
                ErrorView::WriteError("Failed to send data (channel full or closed)"@),
            ),
    {
        if !accepted {
            return Err(BluefinError::WriteError("Failed to send data (channel full or closed)"));
        }
        Ok(len)
    }

    /// What a send of `len` bytes that waited for room in the channel answers.
    pub fn sent_async(accepted: bool, len: usize) -> (answer: BluefinResult<usize>)
        ensures
            accepted ==> answer == Ok::<usize, BluefinError>(len),
            !accepted ==> fails_with(
                answer,
                ErrorView::WriteError("Failed to send data (channel closed)"@),
            ),
    {
        if !accepted {
            return Err(BluefinError::WriteError("Failed to send data (channel closed)"));
        }
        Ok(len)
    }

    /// Sends the payload without a copy. Answers an error instead of waiting for
    /// room in the channel.
    pub fn send_bytes(&mut self, payload: Bytes) -> (answer: BluefinResult<usize>)
        ensures
            match answer {
                Ok(len) => {
                    &&& old(self)@.send_refusal() is None
                    &&& len == contents(payload).len()
                    &&& final(self)@ == old(self)@.on_sent(contents(payload))
                },
                Err(e) => e@ == old(self)@.send_error() && final(self)@ == old(self)@,
            },
    {
        if self.closed {
            return Err(BluefinError::ConnectionClosed);
        }
        match &mut self.channels {
            Some(channels) => {
                let len: usize = payload.len();
                let accepted: bool = try_send(&mut channels.data, payload);
                Self::sent(accepted, len)
            },
            None => Err(BluefinError::WriteError("Sender is not available")),
        }
    }

    /// Sends a copy of the payload. Answers an error instead of waiting for room
    /// in the channel.
    pub fn send_data(&mut self, payload: &[u8]) -> (answer: BluefinResult<usize>)
        ensures
            match answer {
                Ok(len) => {
                    &&& old(self)@.send_refusal() is None
                    &&& len == payload@.len()
                    &&& final(self)@ == old(self)@.on_sent(payload@)
                },
                Err(e) => e@ == old(self)@.send_error() && final(self)@ == old(self)@,
            },
    {
        self.send_bytes(Bytes::copy_from_slice(payload))
    }

    /// What an ack answers, once the channel has taken or refused it.
    pub fn acked(accepted: bool) -> (answer: BluefinResult<()>)
        ensures
            accepted ==> answer == Ok::<(), BluefinError>(()),
            !accepted ==> fails_with(answer, ErrorView::WriteError("Failed to send ack"@)),
    {
        if !accepted {
            return Err(BluefinError::WriteError("Failed to send ack"));
        }
        Ok(())
    }

    /// Acknowledges `num_packets_consumed` packets from `base_packet_num` on.
    pub fn send_ack(&mut self, base_packet_num: u64, num_packets_consumed: usize) -> (answer:
        BluefinResult<()>)
        ensures
            match answer {
                Ok(()) => {
                    &&& old(self)@.takes_acks()
                    &&& old(self)@.bound is Some
                    &&& final(self)@ == old(self)@.on_acked(base_packet_num, num_packets_consumed)
                },
                Err(e) => {
                    &&& e@ == if old(self)@.bound is Some {
                        ErrorView::WriteError("Failed to send ack"@)
                    } else {
                        ErrorView::WriteError("Ack sender is not available"@)
                    }
                    &&& final(self)@ == old(self)@
                },
            },
    {
        match &mut self.channels {
            Some(channels) => {
                let data = AckData { base_packet_num, num_packets_consumed };
                let accepted: bool = send(&mut channels.acks, data);
                Self::acked(accepted)
            },
            None => Err(BluefinError::WriteError("Ack sender is not available")),
        }
    }
}

/// The order in which the sends arrive is preserved: what is given to the data task
/// is what was given before, followed by the new payload.
pub proof fn law_sends_keep_their_order(writer: WriterModel, first: Seq<u8>, second: Seq<u8>)
    ensures
        joined(writer.on_sent(first).on_sent(second).sent) == joined(writer.sent) + first + second,
{
    lemma_joined_push(writer.sent, first);
    lemma_joined_push(writer.sent.push(first), second);
}

/// A closed writer accepts no data, whether it was started or not, and closing it
/// loses nothing of what was given to its tasks.
pub proof fn law_closed_writer_refuses_data(writer: WriterModel)
    ensures
        writer.on_closed().send_refusal() == Some(ErrorView::ConnectionClosed),
        writer.on_closed().sent == writer.sent,
        writer.on_closed().acks == writer.acks,
        writer.on_closed().on_closed() == writer.on_closed(),
{
}

/// Acks are given to the ack task in the order in which they were given to the
/// writer, each with its number and its count, and data is not mixed with them.
pub proof fn law_acks_keep_their_order(
    writer: WriterModel,
    first: (u64, usize),
    second: (u64, usize),
    payload: Seq<u8>,
)
    ensures
        writer.on_acked(first.0, first.1).on_acked(second.0, second.1).acks == writer.acks + seq![
            first,
            second,
        ],
        writer.on_acked(first.0, first.1).sent == writer.sent,
        writer.on_sent(payload).acks == writer.acks,
        writer.on_sent(payload).on_acked(first.0, first.1) == writer.on_acked(
            first.0,
            first.1,
        ).on_sent(payload),
{
    assert(writer.on_acked(first.0, first.1).on_acked(second.0, second.1).acks =~= writer.acks
        + seq![first, second]);
}

/// A writer takes data from when it was started until it is closed, and not before or
/// after. Until then no send and no ack changes that, nor with what numbers and ids
/// the packets are sent, nor into what channels they go.
pub proof fn law_started_writer_takes_data(
    next_packet_num: u64,
    src_conn_id: u32,
    dst_conn_id: u32,
    data_channel: nat,
    ack_channel: nat,
    payload: Seq<u8>,
    ack: (u64, usize),
)
    ensures
        ({
            let fresh = WriterModel::fresh(next_packet_num, src_conn_id, dst_conn_id);
            let started = fresh.on_start(data_channel, ack_channel);
            let used = started.on_sent(payload).on_acked(ack.0, ack.1);
            &&& fresh.send_refusal() is Some
            &&& started.send_refusal() is None
            &&& started.sent.len() == 0 && started.acks.len() == 0
            &&& used.send_refusal() is None
            &&& used.next_packet_num == next_packet_num
            &&& used.src_conn_id == src_conn_id
            &&& used.dst_conn_id == dst_conn_id
            &&& used.data_channel == Some(data_channel)
            &&& used.ack_channel == Some(ack_channel)
            &&& used.sent == seq![payload]
            &&& used.acks == seq![ack]
            &&& used.on_closed().send_refusal() is Some
        }),
{
    let started = WriterModel::fresh(next_packet_num, src_conn_id, dst_conn_id).on_start(
        data_channel,
        ack_channel,
    );
    assert(started.on_sent(payload).sent =~= seq![payload]);
    assert(started.on_acked(ack.0, ack.1).acks =~= seq![ack]);
}

/// A writer that was started sends acks also after it was closed, and one that was not
/// started sends none.
pub proof fn law_closed_writer_sends_acks(
    writer: WriterModel,
    data_channel: nat,
    ack_channel: nat,
    payload: Seq<u8>,
)
    ensures
        writer.on_start(data_channel, ack_channel).takes_acks(),
        writer.on_closed().takes_acks() == writer.takes_acks(),
        writer.on_sent(payload).takes_acks() == writer.takes_acks(),
        writer.on_start(data_channel, ack_channel).on_closed().takes_acks(),
        !WriterModel::fresh(
            writer.next_packet_num,
            writer.src_conn_id,
            writer.dst_conn_id,
        ).takes_acks(),
{
}

} // verus!

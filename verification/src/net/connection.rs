//! What a host keeps of a connection.
use bytes::Bytes;
use core::task::Waker;
use vstd::prelude::*;

use crate::addr::SocketAddr;
use crate::context::BluefinHost;
use crate::error::{BluefinError, BluefinResult, ErrorView, fails_with};
use crate::net::ack_handler::{AckBuffer, AckBufferModel};
use crate::net::close_handler::{CloseBuffer, CloseBufferModel};
use crate::net::ordered_bytes::{ConsumeResult, OrderedBytes, OrderedModel, least};
use crate::net::wake::kept_waker;
use crate::wire::packet::{BluefinPacket, PacketView};
use crate::worker::writer::bytes_parts;

verus! {

broadcast use vstd::string::group_string_axioms;

/// The most packets that wait to be read.
pub const MAX_BUFFER_SIZE: usize = 10_000;

/// [`ConnectionBuffer`] is a buffer per connection. In a connection's use it is
/// the received bytes that matter; in the handshake it is the packet.
pub struct ConnectionBuffer {
    ordered_bytes: OrderedBytes,
    addr: Option<SocketAddr>,
    waker: Option<Waker>,
    packet: Option<BluefinPacket>,
    dst_conn_id: u32,
    host_type: BluefinHost,
    set_start_packet_number: bool,
}

/// The mathematical value of a [`ConnectionBuffer`].
#[verifier::ext_equal]
pub ghost struct ConnectionModel {
    /// The received bytes.
    pub ordered: OrderedModel,
    /// The peer's address.
    pub addr: Option<SocketAddr>,
    /// The reader that waits.
    pub waker: Option<Waker>,
    /// The handshake packet that waits to be looked at.
    pub packet: Option<PacketView>,
    pub dst_conn_id: u32,
    pub host_type: BluefinHost,
    /// The number of the first data packet is known.
    pub start_known: bool,
}

impl View for ConnectionBuffer {
    type V = ConnectionModel;

    closed spec fn view(&self) -> ConnectionModel {
        ConnectionModel {
            ordered: self.ordered_bytes@,
            addr: self.addr,
            waker: self.waker,
            packet: match self.packet {
                Some(packet) => Some(packet@),
                None => None,
            },
            dst_conn_id: self.dst_conn_id,
            host_type: self.host_type,
            start_known: self.set_start_packet_number,
        }
    }
}

impl ConnectionModel {
    pub open spec fn fresh(host_type: BluefinHost) -> ConnectionModel {
        ConnectionModel {
            ordered: OrderedModel::fresh(0),
            addr: None,
            waker: None,
            packet: None,
            dst_conn_id: 0,
            host_type,
            start_known: false,
        }
    }

    pub open spec fn valid(self) -> bool {
        self.ordered.valid()
    }

    /// Why an address is refused.
    pub open spec fn addr_refusal(self) -> Option<ErrorView> {
        if self.addr is Some {
            Some(ErrorView::Unexpected("Address already exists"@))
        } else {
            None
        }
    }

    /// The first address stays.
    pub open spec fn on_addr(self, addr: SocketAddr) -> ConnectionModel {
        if self.addr is Some {
            self
        } else {
            ConnectionModel { addr: Some(addr), ..self }
        }
    }

    /// A data packet.
    pub open spec fn on_bytes(self, packet: PacketView) -> ConnectionModel {
        ConnectionModel {
            ordered: self.ordered.on_packet(packet.header.packet_number, packet.payload),
            ..self
        }
    }

    /// Why a data packet is refused.
    pub open spec fn bytes_refusal(self, packet: PacketView) -> Option<ErrorView> {
        self.ordered.refusal(packet.header.packet_number)
    }

    /// The handshake packet that waits, with the address that it came from.
    pub open spec fn handshake_ready(self) -> Option<(PacketView, SocketAddr)> {
        if self.packet is Some && self.addr is Some {
            Some((self.packet->0, self.addr->0))
        } else {
            None
        }
    }

    /// How far after the first handshake packet the data of the peer begins: a
    /// client sends an ack between its hello and its data, a server does not.
    pub open spec fn start_offset(self) -> int {
        match self.host_type {
            BluefinHost::PackLeader => 2,
            BluefinHost::Client => 1,
            BluefinHost::PackFollower => 0,
        }
    }

    /// There is a number for the peer's first data packet.
    pub open spec fn start_fits(self, packet: PacketView) -> bool {
        self.packet is None && !self.start_known ==> packet.header.packet_number
            + self.start_offset() <= u64::MAX
    }

    /// Why a handshake packet is refused.
    pub open spec fn packet_refusal(self) -> Option<ErrorView> {
        if self.packet is Some {
            Some(
                ErrorView::BufferFullError(
                    "Buffer already contains a packet. Could not buffer another packet."@,
                ),
            )
        } else {
            None
        }
    }

    /// A handshake packet. The first one tells where the peer's data begins.
    pub open spec fn on_packet(self, packet: PacketView) -> ConnectionModel {
        if self.packet is Some {
            self
        } else {
            ConnectionModel {
                packet: Some(packet),
                ordered: if self.start_known || self.host_type is PackFollower {
                    self.ordered
                } else {
                    OrderedModel::fresh(
                        (packet.header.packet_number + self.start_offset()) as u64,
                    )
                },
                start_known: true,
                ..self
            }
        }
    }
}

/// The answer of an operation that `refusal` stops.
pub open spec fn answers(answer: BluefinResult<()>, refusal: Option<ErrorView>) -> bool {
    match refusal {
        Some(e) => fails_with(answer, e),
        None => answer == Ok::<(), BluefinError>(()),
    }
}

impl ConnectionBuffer {
    /// The buffer is in a state that its methods keep.
    pub open spec fn valid(&self) -> bool {
        self@.valid()
    }

    pub fn new(src_conn_id: u32, host_type: BluefinHost) -> (buffer: Self)
        ensures
            buffer@ == ConnectionModel::fresh(host_type),
            buffer.valid(),
    {
        ConnectionBuffer {
            ordered_bytes: OrderedBytes::new(src_conn_id, 0x0),
            addr: None,
            waker: None,
            packet: None,
            dst_conn_id: 0,
            host_type,
            set_start_packet_number: false,
        }
    }

    #[inline]
    pub fn set_dst_conn_id(&mut self, dst_conn_id: u32)
        ensures
            final(self)@ == (ConnectionModel { dst_conn_id, ..old(self)@ }),
    {
        self.dst_conn_id = dst_conn_id;
    }

    #[inline]
    pub fn buffer_in_addr(&mut self, addr: SocketAddr) -> (buffered: BluefinResult<()>)
        ensures
            final(self)@ == old(self)@.on_addr(addr),
            answers(buffered, old(self)@.addr_refusal()),
    {
        if self.addr.is_some() {
            return Err(BluefinError::Unexpected("Address already exists".to_string()));
        }
        self.addr = Some(addr);
        Ok(())
    }

    #[inline]
    pub fn buffer_in_bytes(&mut self, packet: BluefinPacket) -> (buffered: BluefinResult<()>)
        requires
            old(self).valid(),
            packet@.payload.len() <= u16::MAX,
        ensures
            final(self).valid(),
            final(self)@ == old(self)@.on_bytes(packet@),
            answers(buffered, old(self)@.bytes_refusal(packet@)),
    {
        self.ordered_bytes.buffer_in_packet(packet)
    }

    #[inline]
    pub fn buffer_in_packet(&mut self, packet: BluefinPacket) -> (buffered: BluefinResult<()>)
        requires
            old(self).valid(),
            old(self)@.start_fits(packet@),
        ensures
            final(self).valid(),
            final(self)@ == old(self)@.on_packet(packet@),
            answers(buffered, old(self)@.packet_refusal()),
    {
        if self.packet.is_some() {
            return Err(
                BluefinError::BufferFullError(
                    "Buffer already contains a packet. Could not buffer another packet.".to_string(),
                ),
            );
        }
        let packet_num: u64 = packet.header.packet_number;
        self.packet = Some(packet);
        if !self.set_start_packet_number {
            match self.host_type {
                BluefinHost::PackLeader => {
                    self.ordered_bytes.set_start_packet_number(packet_num + 2);
                },
                BluefinHost::Client => {
                    self.ordered_bytes.set_start_packet_number(packet_num + 1);
                },
                BluefinHost::PackFollower => {},
            }
            self.set_start_packet_number = true;
        }
        Ok(())
    }

    /// Reads up to `bytes_to_read` bytes over the beginning of `buf`.
    #[inline]
    pub fn consume(&mut self, bytes_to_read: usize, buf: &mut [u8]) -> (consumed: BluefinResult<
        (ConsumeResult, SocketAddr),
    >)
        requires
            old(self).valid(),
        ensures
            final(self).valid(),
            match consumed {
                Ok((result, addr)) => {
                    let limit = least(bytes_to_read as int, old(buf)@.len() as int);
                    &&& old(self)@.addr == Some(addr)
                    &&& old(self)@.ordered.readable()
                    &&& result@ == old(self)@.ordered.read_result(limit)
                    &&& final(self)@ == (ConnectionModel {
                        ordered: old(self)@.ordered.on_read(limit),
                        ..old(self)@
                    })
                    &&& final(buf)@ == old(self)@.ordered.available().take(result@.bytes as int)
                        + old(buf)@.skip(result@.bytes as int)
                },
                Err(e) => {
                    &&& e@ == if old(self)@.addr is None {
                        ErrorView::Unexpected(
                            "Cannot consume buffer because addr is field is none"@,
                        )
                    } else {
                        ErrorView::BufferEmptyError
                    }
                    &&& old(self)@.addr is None || !old(self)@.ordered.readable()
                    &&& final(self)@ == old(self)@
                    &&& final(buf)@ == old(buf)@
                },
            },
    {
        match self.addr {
            None => Err(
                BluefinError::Unexpected(
                    "Cannot consume buffer because addr is field is none".to_string(),
                ),
            ),
            Some(addr) => match self.ordered_bytes.consume(bytes_to_read, buf) {
                Ok(result) => Ok((result, addr)),
                Err(e) => Err(e),
            },
        }
    }

    /// Reads up to `max_packets` whole payloads and appends them to `out`.
    #[inline]
    pub fn consume_bytes(&mut self, out: &mut Vec<Bytes>, max_packets: usize) -> (consumed:
        BluefinResult<(ConsumeResult, SocketAddr)>)
        requires
            old(self).valid(),
        ensures
            final(self).valid(),
            match consumed {
                Ok((result, addr)) => {
                    &&& old(self)@.addr == Some(addr)
                    &&& old(self)@.ordered.readable()
                    &&& result@ == old(self)@.ordered.whole_read_result(max_packets as nat)
                    &&& final(self)@ == (ConnectionModel {
                        ordered: old(self)@.ordered.on_whole_read(max_packets as nat),
                        ..old(self)@
                    })
                    &&& bytes_parts(final(out)@) == bytes_parts(old(out)@) + old(
                        self,
                    )@.ordered.whole_payloads(max_packets as nat)
                },
                Err(e) => {
                    &&& e@ == if old(self)@.addr is None {
                        ErrorView::Unexpected(
                            "Cannot consume buffer because addr is field is none"@,
                        )
                    } else {
                        ErrorView::BufferEmptyError
                    }
                    &&& old(self)@.addr is None || !old(self)@.ordered.readable()
                    &&& final(self)@ == old(self)@
                    &&& final(out)@ == old(out)@
                },
            },
    {
        match self.addr {
            None => Err(
                BluefinError::Unexpected(
                    "Cannot consume buffer because addr is field is none".to_string(),
                ),
            ),
            Some(addr) => match self.ordered_bytes.consume_bytes(out, max_packets) {
                Ok(result) => Ok((result, addr)),
                Err(e) => Err(e),
            },
        }
    }

    /// Says whether something can be read.
    pub fn peek(&self) -> (peeked: BluefinResult<()>)
        ensures
            answers(
                peeked,
                if self@.addr is None {
                    Some(
                        ErrorView::Unexpected(
                            "Cannot consume buffer because addr is field is none"@,
                        ),
                    )
                } else if !self@.ordered.readable() {
                    Some(ErrorView::BufferEmptyError)
                } else {
                    None
                },
            ),
    {
        if self.addr.is_none() {
            return Err(
                BluefinError::Unexpected(
                    "Cannot consume buffer because addr is field is none".to_string(),
                ),
            );
        }
        self.ordered_bytes.peek()
    }

    /// The peer's address, once it is known.
    #[inline]
    pub fn addr(&self) -> (addr: Option<SocketAddr>)
        ensures
            addr == self@.addr,
    {
        self.addr
    }

    #[inline]
    pub fn get_waker(&self) -> (waker: Option<&Waker>)
        ensures
            match waker {
                Some(waker) => self@.waker == Some(*waker),
                None => self@.waker is None,
            },
    {
        self.waker.as_ref()
    }

    #[inline]
    pub fn set_waker(&mut self, waker: Waker)
        ensures
            final(self)@ == (ConnectionModel { waker: Some(waker), ..old(self)@ }),
    {
        self.waker = Some(waker);
    }

    /// From now on it is the task of this waker that is woken. The waker is cloned
    /// only where the one that is kept may be that of another task.
    #[inline]
    pub fn set_waker_if_changed(&mut self, new_waker: &Waker)
        ensures
            final(self)@ == (ConnectionModel { waker: Some(*new_waker), ..old(self)@ }),
    {
        let will_wake: bool = match &self.waker {
            Some(existing) => existing.will_wake(new_waker),
            None => false,
        };
        self.keep_waker(will_wake, new_waker);
    }

    /// Keeps the waker, unless there is one already and it wakes the same task.
    #[inline]
    pub fn keep_waker(&mut self, will_wake: bool, new_waker: &Waker)
        ensures
            final(self)@ == (ConnectionModel {
                waker: kept_waker(old(self)@.waker, will_wake, *new_waker),
                ..old(self)@
            }),
    {
        if self.waker.is_none() || !will_wake {
            self.waker = Some(new_waker.clone());
        }
    }

    /// A copy of the waker, to be woken once the buffer is no longer in use.
    #[inline]
    pub fn take_waker_clone(&self) -> (waker: Option<Waker>)
        ensures
            waker == self@.waker,
    {
        match &self.waker {
            Some(waker) => Some(waker.clone()),
            None => None,
        }
    }

    /// Takes the handshake packet together with the peer's address. A packet
    /// without an address is dropped. Where there is nothing to hand out, the
    /// task is woken when there is.
    pub fn poll_handshake(&mut self, waker: &Waker) -> (ready: Option<
        (BluefinPacket, SocketAddr),
    >)
        ensures
            match ready {
                Some((packet, addr)) => old(self)@.handshake_ready() == Some((packet@, addr)),
                None => old(self)@.handshake_ready() is None,
            },
            match ready {
                Some((packet, addr)) => {
                    &&& old(self)@.packet == Some(packet@)
                    &&& old(self)@.addr == Some(addr)
                    &&& final(self)@ == (ConnectionModel { packet: None, ..old(self)@ })
                },
                None => {
                    &&& old(self)@.packet is None || old(self)@.addr is None
                    &&& final(self)@ == (ConnectionModel {
                        packet: None,
                        waker: Some(*waker),
                        ..old(self)@
                    })
                },
            },
    {
        let packet: Option<BluefinPacket> = self.packet.take();
        match (packet, self.addr) {
            (Some(packet), Some(addr)) => Some((packet, addr)),
            _ => {
                self.set_waker_if_changed(waker);
                None
            },
        }
    }
}

/// All that a host keeps of a connection.
pub struct ConnectionManagedBuffers {
    pub conn_buff: ConnectionBuffer,
    pub ack_buff: AckBuffer,
    pub close_buff: CloseBuffer,
}

/// The mathematical value of [`ConnectionManagedBuffers`].
#[verifier::ext_equal]
pub ghost struct ManagedModel {
    pub conn: ConnectionModel,
    pub acks: AckBufferModel,
    pub close: CloseBufferModel,
}

impl View for ConnectionManagedBuffers {
    type V = ManagedModel;

    open spec fn view(&self) -> ManagedModel {
        ManagedModel { conn: self.conn_buff@, acks: self.ack_buff@, close: self.close_buff@ }
    }
}

impl ConnectionManagedBuffers {
    /// The buffers of a connection that is about to be opened. The peer will
    /// acknowledge packets from `first_acked` on.
    pub fn new(src_conn_id: u32, host_type: BluefinHost, first_acked: u64) -> (buffers: Self)
        ensures
            buffers.conn_buff.valid(),
            buffers@ == (ManagedModel {
                conn: ConnectionModel::fresh(host_type),
                acks: AckBufferModel::fresh(first_acked),
                close: CloseBufferModel::fresh(),
            }),
    {
        ConnectionManagedBuffers {
            conn_buff: ConnectionBuffer::new(src_conn_id, host_type),
            ack_buff: AckBuffer::new(first_acked),
            close_buff: CloseBuffer::new(),
        }
    }
}

} // verus!

//! What the use of a socket decides, apart from the calls to the operating
//! system.
use vstd::prelude::*;

use crate::addr::SocketAddr;
use crate::text::{decimal, push_decimal};

pub mod ancillary;
pub mod error;

use crate::socket::error::{BluefinIoError, BluefinIoResult, IoErrorView};

verus! {

broadcast use vstd::string::group_string_axioms;

/// How many bytes the buffers of a socket are asked to hold.
pub const DEFAULT_SOCKET_BUF_BYTES: usize = 33_554_432;

/// How many bytes of ancillary data go with a message.
pub const MSG_CONTROLLEN: usize = 80;

/// The most datagrams that are handed to the operating system at once.
pub const MAX_BATCH: usize = 16;

/// The address family of IPv4, on Linux as on macOS.
pub const AF_INET: i32 = 2;

/// What is known of a received datagram.
#[derive(Clone, Copy, Debug)]
pub struct BufMetadata {
    pub src_addr: SocketAddr,
    pub len: usize,
}

impl Default for BufMetadata {
    fn default() -> (metadata: BufMetadata)
        ensures
            metadata.src_addr is V4,
            metadata.src_addr->octets@ == seq![0u8, 0u8, 0u8, 0u8],
            metadata.src_addr->V4_port == 0,
            metadata.len == 0,
    {
        let metadata = BufMetadata {
            src_addr: SocketAddr::V4 { octets: [0, 0, 0, 0], port: 0 },
            len: 0,
        };
        assert(metadata.src_addr->octets@ =~= seq![0u8, 0u8, 0u8, 0u8]);
        metadata
    }
}

/// A datagram to be sent.
pub struct TransmitData<'a> {
    src_addr: SocketAddr,
    dst_addr: SocketAddr,
    data: &'a [u8],
}

impl<'a> TransmitData<'a> {
    pub closed spec fn spec_src_addr(&self) -> SocketAddr {
        self.src_addr
    }

    pub closed spec fn spec_dst_addr(&self) -> SocketAddr {
        self.dst_addr
    }

    pub closed spec fn spec_data(&self) -> Seq<u8> {
        self.data@
    }

    pub fn new(src_addr: SocketAddr, dst_addr: SocketAddr, data: &'a [u8]) -> (transmit:
        TransmitData<'a>)
        ensures
            transmit.spec_src_addr() == src_addr,
            transmit.spec_dst_addr() == dst_addr,
            transmit.spec_data() == data@,
    {
        TransmitData { src_addr, dst_addr, data }
    }

    /// Where the datagram goes.
    pub fn dst_addr(&self) -> (addr: SocketAddr)
        ensures
            addr == self.spec_dst_addr(),
    {
        self.dst_addr
    }

    /// What is sent.
    pub fn data(&self) -> (data: &'a [u8])
        ensures
            data@ == self.spec_data(),
    {
        self.data
    }

    /// The address that the datagram is sent from, as the ancillary data tell it.
    /// Only IPv4 addresses can be told.
    pub fn source_octets(&self) -> (octets: BluefinIoResult<[u8; 4]>)
        ensures
            match self.spec_src_addr() {
                SocketAddr::V4 { octets: own, .. } => octets == Ok::<[u8; 4], BluefinIoError>(own),
                SocketAddr::V6 { .. } => octets matches Err(e) && e@ == IoErrorView::Unsupported(
                    "Non ipv4 addr are currently unsupported"@,
                ),
            },
    {
        match self.src_addr {
            SocketAddr::V4 { octets, .. } => Ok(octets),
            SocketAddr::V6 { .. } => Err(
                BluefinIoError::Unsupported("Non ipv4 addr are currently unsupported".to_string()),
            ),
        }
    }
}

/// A number with its sign.
pub open spec fn signed_decimal(n: int) -> Seq<char> {
    if n < 0 {
        seq!['-'] + decimal((-n) as nat)
    } else {
        decimal(n as nat)
    }
}

/// Appends a number with its sign.
fn push_signed(text: &mut String, n: i32)
    ensures
        final(text)@ == old(text)@ + signed_decimal(n as int),
{
    let ghost before = text@;
    if n < 0 {
        text.push('-');
        push_decimal(text, (-(n as i64)) as u64);
        assert(text@ =~= before + signed_decimal(n as int));
    } else {
        push_decimal(text, n as u64);
    }
}

/// The port that two bytes in network order stand for.
pub open spec fn port_of(high: u8, low: u8) -> u16 {
    (high * 256 + low) as u16
}

/// Every port is read from the two bytes in which it is sent, the most significant
/// first.
pub proof fn law_port_is_read_back(port: u16)
    ensures
        port_of((port / 256) as u8, (port % 256) as u8) == port,
{
}

/// The sender that the operating system tells of, where it is one of IPv4.
pub open spec fn told_sender(family: i32, octets: [u8; 4], port: u16) -> Option<SocketAddr> {
    if family == AF_INET {
        Some(SocketAddr::V4 { octets, port })
    } else {
        None
    }
}

/// Every sender of IPv4 is told of as it is, and no other.
pub proof fn law_sender_is_told(family: i32, octets: [u8; 4], port: u16)
    ensures
        told_sender(2, octets, port) == Some(SocketAddr::V4 { octets, port }),
        told_sender(family, octets, port) is Some <==> family == 2,
{
}

/// A number with its sign is the number without it, with a minus before it where it is
/// negative.
pub proof fn law_sign_is_told(n: nat)
    ensures
        signed_decimal(n as int) == decimal(n),
        n > 0 ==> signed_decimal(-n) == seq!['-'] + decimal(n),
{
}

/// What is known of a received datagram, given what the operating system wrote of
/// its sender: the address family, the address, and the port in network order.
pub fn get_metadata_buf(family: i32, octets: [u8; 4], port: [u8; 2], len: usize) -> (metadata:
    BluefinIoResult<BufMetadata>)
    ensures
        match metadata {
            Ok(metadata) => {
                &&& family == AF_INET
                &&& metadata.len == len
                &&& metadata.src_addr == (SocketAddr::V4 {
                    octets,
                    port: (port[0] * 256 + port[1]) as u16,
                })
                &&& metadata.src_addr == (SocketAddr::V4 {
                    octets,
                    port: port_of(port[0], port[1]),
                })
                &&& told_sender(family, octets, port_of(port[0], port[1])) == Some(
                    metadata.src_addr,
                )
            },
            Err(e) => {
                &&& family != AF_INET
                &&& told_sender(family, octets, port_of(port[0], port[1])) is None
                &&& e@ == IoErrorView::StdIoError(
                    "Unknown ss_family received: "@ + signed_decimal(family as int),
                )
            },
        },
{
    if family != AF_INET {
        let mut message: String = "Unknown ss_family received: ".to_string();
        push_signed(&mut message, family);
        return Err(BluefinIoError::StdIoError(message));
    }
    let port: u16 = port[0] as u16 * 256 + port[1] as u16;
    Ok(BufMetadata { src_addr: SocketAddr::V4 { octets, port }, len })
}

/// What to do after a call of the operating system.
pub enum CallStep {
    /// Call again.
    Again,
    /// The call did its work on so many bytes.
    Done(usize),
    /// The call failed.
    Failed(BluefinIoError),
}

/// How many bytes a call did its work on, which answered `n`, if it did: it answers a
/// negative number where it failed.
pub open spec fn bytes_done(n: i64) -> Option<nat> {
    if n < 0 {
        None
    } else {
        Some(n as nat)
    }
}

/// A call that did its work tells exactly how many bytes it was, and one that failed
/// none.
pub proof fn law_calls_tell_their_bytes(len: u32, n: i64)
    ensures
        bytes_done(len as i64) == Some(len as nat),
        n < 0 <==> bytes_done(n) is None,
        bytes_done(n) matches Some(bytes) ==> bytes == n,
{
}

/// A receive is done again: it was interrupted, or what it gave was cut off.
pub open spec fn receives_again(n: i64, interrupted: bool, truncated: bool) -> bool {
    if n == -1 {
        interrupted
    } else {
        truncated
    }
}

/// A receive that was interrupted is done again, and so is one that gave a datagram that
/// was cut off; one that failed for another reason is not, and neither is one that gave
/// a whole datagram.
pub proof fn law_receives_are_repeated(n: i64, flag: bool)
    requires
        n >= 0,
    ensures
        receives_again((-1) as i64, true, flag),
        !receives_again((-1) as i64, false, flag),
        receives_again(n, flag, true),
        !receives_again(n, flag, false),
{
}

/// What to do after a receive that returned `n`. A datagram that was cut off is
/// dropped.
pub fn after_receive(n: i64, interrupted: bool, truncated: bool, error: String) -> (step: CallStep)
    requires
        -1 <= n <= usize::MAX,
    ensures
        match step {
            CallStep::Again => if n == -1 {
                interrupted
            } else {
                truncated
            },
            CallStep::Done(len) => n != -1 && !truncated && len == n,
            CallStep::Failed(e) => n == -1 && !interrupted && e@ == IoErrorView::StdIoError(
                error@,
            ),
        },
        step is Again <==> receives_again(n, interrupted, truncated),
        step matches CallStep::Done(len) ==> bytes_done(n) == Some(len as nat),
{
    if n == -1 {
        if interrupted {
            return CallStep::Again;
        }
        return CallStep::Failed(BluefinIoError::StdIoError(error));
    }
    if truncated {
        return CallStep::Again;
    }
    CallStep::Done(n as usize)
}

/// What to do after a send that returned `n`.
pub fn after_send(n: i64, interrupted: bool, error: String) -> (step: CallStep)
    requires
        n <= usize::MAX,
    ensures
        match step {
            CallStep::Again => n < 0 && interrupted,
            CallStep::Done(len) => n >= 0 && len == n,
            CallStep::Failed(e) => n < 0 && !interrupted && e@ == IoErrorView::StdIoError(error@),
        },
        step matches CallStep::Done(len) ==> bytes_done(n) == Some(len as nat),
{
    if n >= 0 {
        return CallStep::Done(n as usize);
    }
    if interrupted {
        return CallStep::Again;
    }
    CallStep::Failed(BluefinIoError::StdIoError(error))
}

} // verus!

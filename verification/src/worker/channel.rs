//! What this crate relies on of the channels of the `tokio` crate, by which the
//! callers of a connection hand their work to its tasks.
use bytes::Bytes;
use tokio::sync::mpsc::{Receiver, Sender, UnboundedReceiver, UnboundedSender};
use vstd::prelude::*;

use crate::shared_bytes::contents;
use crate::worker::ack::AckData;

verus! {

/// The sending end of a bounded channel.
#[verifier::external_type_specification]
#[verifier::external_body]
#[verifier::reject_recursive_types(T)]
pub struct ExSender<T>(tokio::sync::mpsc::Sender<T>);

/// The receiving end of a bounded channel.
#[verifier::external_type_specification]
#[verifier::external_body]
#[verifier::reject_recursive_types(T)]
pub struct ExReceiver<T>(tokio::sync::mpsc::Receiver<T>);

/// The sending end of an unbounded channel.
#[verifier::external_type_specification]
#[verifier::external_body]
#[verifier::reject_recursive_types(T)]
pub struct ExUnboundedSender<T>(tokio::sync::mpsc::UnboundedSender<T>);

/// The receiving end of an unbounded channel.
#[verifier::external_type_specification]
#[verifier::external_body]
#[verifier::reject_recursive_types(T)]
pub struct ExUnboundedReceiver<T>(tokio::sync::mpsc::UnboundedReceiver<T>);

/// The payloads that the channel has taken from the handle by `try_send`, in their
/// order.
pub uninterp spec fn handed(sender: Sender<Bytes>) -> Seq<Seq<u8>>;

/// How many payloads the channel of the handle holds at most.
pub uninterp spec fn bound_of(sender: Sender<Bytes>) -> nat;

/// The acks that the channel has taken from the handle, in their order: the number
/// of the first packet, and how many packets.
pub uninterp spec fn handed_acks(sender: UnboundedSender<AckData>) -> Seq<(u64, usize)>;

/// The channel that the handle feeds.
pub uninterp spec fn fed_channel(sender: Sender<Bytes>) -> nat;

/// The channel that the receiver reads from.
pub uninterp spec fn read_channel(receiver: Receiver<Bytes>) -> nat;

/// The channel of acks that the handle feeds.
pub uninterp spec fn fed_ack_channel(sender: UnboundedSender<AckData>) -> nat;

/// The channel of acks that the receiver reads from.
pub uninterp spec fn read_ack_channel(receiver: UnboundedReceiver<AckData>) -> nat;

/// `tokio::sync::mpsc::channel` makes a channel that holds up to `bound`
/// payloads, and none at first. What the one end takes the other gives out. It
/// panics on a bound of zero and on one over an eighth of the address space.
#[verifier::external_body]
pub(crate) fn data_channel(bound: usize) -> (ends: (Sender<Bytes>, Receiver<Bytes>))
    requires
        0 < bound <= usize::MAX / 8,
    ensures
        handed(ends.0).len() == 0,
        bound_of(ends.0) == bound,
        fed_channel(ends.0) == read_channel(ends.1),
{
    tokio::sync::mpsc::channel(bound)
}

/// `tokio::sync::mpsc::unbounded_channel` makes a channel without a bound, and
/// without acks at first. What the one end takes the other gives out.
#[verifier::external_body]
pub(crate) fn ack_channel() -> (ends: (UnboundedSender<AckData>, UnboundedReceiver<AckData>))
    ensures
        handed_acks(ends.0).len() == 0,
        fed_ack_channel(ends.0) == read_ack_channel(ends.1),
{
    tokio::sync::mpsc::unbounded_channel()
}

/// `Sender::try_send` puts the payload into the channel after those that went
/// before, or refuses it where the channel is full or its receiver is gone. Which
/// of the two it does rests on what the receiver did meanwhile, so that is not
/// claimed.
#[verifier::external_body]
pub(crate) fn try_send(sender: &mut Sender<Bytes>, payload: Bytes) -> (accepted: bool)
    ensures
        bound_of(*final(sender)) == bound_of(*old(sender)),
        fed_channel(*final(sender)) == fed_channel(*old(sender)),
        handed(*final(sender)) == if accepted {
            handed(*old(sender)).push(contents(payload))
        } else {
            handed(*old(sender))
        },
{
    sender.try_send(payload).is_ok()
}

/// `UnboundedSender::send` puts the ack into the channel after those that went
/// before, or refuses it where the channel's receiver is gone. Which of the two it
/// does rests on the receiver, so that is not claimed.
#[verifier::external_body]
pub(crate) fn send(sender: &mut UnboundedSender<AckData>, ack: AckData) -> (accepted: bool)
    ensures
        fed_ack_channel(*final(sender)) == fed_ack_channel(*old(sender)),
        handed_acks(*final(sender)) == if accepted {
            handed_acks(*old(sender)).push((ack.base_packet_num, ack.num_packets_consumed))
        } else {
            handed_acks(*old(sender))
        },
{
    sender.send(ack).is_ok()
}

} // verus!

use vstd::pervasive::arbitrary;
use vstd::prelude::*;

use crate::registry::DeliveryFailure;

verus! {

#[verifier::external_type_specification]
#[verifier::external_body]
#[verifier::reject_recursive_types(T)]
pub struct ExSender<T>(flume::Sender<T>);

#[verifier::external_type_specification]
#[verifier::external_body]
#[verifier::reject_recursive_types(T)]
pub struct ExReceiver<T>(flume::Receiver<T>);

/// The sending half of a bounded flume channel. Its ghost state names the
/// channel it belongs to and records every message offered through it.
#[verifier::reject_recursive_types(E)]
pub struct ChannelSender<E> {
    sender: flume::Sender<E>,
    channel: Ghost<int>,
    offered: Ghost<Seq<E>>,
}

/// The receiving half of a bounded flume channel, with the name of its channel.
#[verifier::reject_recursive_types(E)]
pub struct ChannelReceiver<E> {
    pub receiver: flume::Receiver<E>,
    channel: Ghost<int>,
}

impl<E> ChannelSender<E> {
    /// The channel this half sends into.
    pub closed spec fn channel(&self) -> int {
        self.channel@
    }

    /// The messages offered through this half so far, in order.
    pub closed spec fn offered(&self) -> Seq<E> {
        self.offered@
    }
}

impl<E> ChannelReceiver<E> {
    /// The channel this half receives from.
    pub closed spec fn channel(&self) -> int {
        self.channel@
    }
}

/// Opens a bounded channel with `flume::bounded(buffer)` and returns its two
/// halves, named as one channel; nothing has been offered yet. Flume accepts
/// any capacity, 0 giving a rendezvous channel.
#[verifier::external_body]
pub(crate) fn open_channel<E>(buffer: usize) -> (halves: (ChannelSender<E>, ChannelReceiver<E>))
    ensures
        halves.0.channel() == halves.1.channel(),
        halves.0.offered() == Seq::<E>::empty(),
{
    let (sender, receiver) = flume::bounded(buffer);
    let channel: Ghost<int> = Ghost(arbitrary());
    (
        ChannelSender { sender, channel, offered: Ghost(Seq::empty()) },
        ChannelReceiver { receiver, channel },
    )
}

/// Offers `message` to the channel with `flume::Sender::try_send`, which never
/// waits: it fails with `Full` when the buffer has no room and with
/// `Disconnected`, reported here as `Closed`, when every receiver is gone. The offer is recorded on the sending half. Which
/// answer comes depends on the channel's state at the time, so nothing is
/// claimed of it.
#[verifier::external_body]
pub(crate) fn try_send<E>(sender: &mut ChannelSender<E>, message: E) -> (answer: Result<(), DeliveryFailure>)
    ensures
        final(sender).channel() == old(sender).channel(),
        final(sender).offered() == old(sender).offered().push(message),
{
    match sender.sender.try_send(message) {
        Ok(()) => Ok(()),
        Err(flume::TrySendError::Full(_)) => Err(DeliveryFailure::Full),
        Err(flume::TrySendError::Disconnected(_)) => Err(DeliveryFailure::Closed),
    }
}

} // verus!

//! The broadcast channel of tokio, as far as the server needs it.
use vstd::prelude::*;

use crate::protocol::BroadcastEvent;

verus! {

/// `tokio::sync::broadcast::Sender`, of which nothing inside is known here.
#[verifier::external_type_specification]
#[verifier::external_body]
#[verifier::reject_recursive_types(T)]
pub struct ExSender<T>(tokio::sync::broadcast::Sender<T>);

/// `tokio::sync::broadcast::Receiver`, of which nothing inside is known here.
#[verifier::external_type_specification]
#[verifier::external_body]
#[verifier::reject_recursive_types(T)]
pub struct ExReceiver<T>(tokio::sync::broadcast::Receiver<T>);

/// The events that were handed to a channel so far, in order.
pub uninterp spec fn handed_over(
    tx: tokio::sync::broadcast::Sender<BroadcastEvent>,
) -> Seq<BroadcastEvent>;

/// How many of the latest events a channel keeps for a receiver that falls
/// behind. Older ones are lost to that receiver.
pub uninterp spec fn kept_for_laggards(
    tx: tokio::sync::broadcast::Sender<BroadcastEvent>,
) -> nat;

/// The smallest power of two that is not less than `n`.
pub open spec fn power_of_two_from(n: nat) -> nat
    decreases n,
{
    if n <= 1 {
        1
    } else {
        2 * power_of_two_from((n + 1) / 2)
    }
}

/// How many events had been handed to the channel when a receiver subscribed:
/// the receiver gets those that come after them.
pub uninterp spec fn subscribed_after(
    rx: tokio::sync::broadcast::Receiver<BroadcastEvent>,
) -> nat;

/// `tokio::sync::broadcast::channel` opens a channel in which nothing was sent
/// yet, and which keeps as many events as it is asked to, rounded up to a power
/// of two. It panics on a capacity of zero and on one over half of `usize`, and
/// allocates a buffer of that rounded size; the bound keeps the size of that
/// buffer in range.
#[verifier::external_body]
pub(crate) fn open_channel(capacity: usize) -> (tx: tokio::sync::broadcast::Sender<BroadcastEvent>)
    requires
        0 < capacity <= usize::MAX / 4096,
    ensures
        handed_over(tx) == Seq::<BroadcastEvent>::empty(),
        kept_for_laggards(tx) == power_of_two_from(capacity as nat),
{
    tokio::sync::broadcast::channel(capacity).0
}

/// `Sender::send` takes one event, behind all those it took before, for every
/// receiver that is subscribed. With no receiver left it gives the event back
/// as an error, which is dropped here. How many events the channel keeps is
/// settled when it is opened, and stays. How many receivers there are, and
/// whether each keeps up, is not said.
#[verifier::external_body]
pub(crate) fn hand_over(
    tx: &mut tokio::sync::broadcast::Sender<BroadcastEvent>,
    event: BroadcastEvent,
)
    ensures
        handed_over(*final(tx)) == handed_over(*old(tx)).push(event),
        kept_for_laggards(*final(tx)) == kept_for_laggards(*old(tx)),
{
    let _ = tx.send(event);
}

/// `Sender::subscribe` makes a receiver of the values that are sent after the
/// call. It panics where a quarter of `usize` receivers are alive, which is more
/// than fit in memory.
#[verifier::external_body]
pub(crate) fn subscribe_to(
    tx: &tokio::sync::broadcast::Sender<BroadcastEvent>,
) -> (rx: tokio::sync::broadcast::Receiver<BroadcastEvent>)
    ensures
        subscribed_after(rx) == handed_over(*tx).len(),
{
    tx.subscribe()
}

} // verus!

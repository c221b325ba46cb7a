//! News for whoever subscribes to them.

use vstd::prelude::*;

use crate::binary64::Binary64;
use crate::instrument_names::Instrument;
use crate::oms::Order;
use crate::order_book::OrderBook;
use crate::portfolio::PortfolioData;

verus! {

/// A piece of news.
#[derive(Debug)]
pub enum Event {
    OrderBookUpdate(OrderBook),
    PortfolioUpdate(PortfolioData),
    VolatilityUpdate(Binary64),
    InstrumentUpdate(Instrument),
    OrderUpdate(Order),
}

impl Event {
    /// Whether both tell the same.
    pub open spec fn same_as(&self, other: &Self) -> bool {
        match (*self, *other) {
            (Event::OrderBookUpdate(a), Event::OrderBookUpdate(b)) => a.same_as(&b),
            (Event::PortfolioUpdate(a), Event::PortfolioUpdate(b)) => a.same_as(&b),
            (Event::VolatilityUpdate(a), Event::VolatilityUpdate(b)) => a == b,
            (Event::InstrumentUpdate(a), Event::InstrumentUpdate(b)) => a.same_as(&b),
            (Event::OrderUpdate(a), Event::OrderUpdate(b)) => a == b,
            _ => false,
        }
    }
}

impl Clone for Event {
    fn clone(&self) -> (r: Self)
        ensures
            r.same_as(self),
    {
        match self {
            Event::OrderBookUpdate(book) => Event::OrderBookUpdate(book.clone()),
            Event::PortfolioUpdate(data) => Event::PortfolioUpdate(data.clone()),
            Event::VolatilityUpdate(volatility) => Event::VolatilityUpdate(*volatility),
            Event::InstrumentUpdate(instrument) => Event::InstrumentUpdate(instrument.clone()),
            Event::OrderUpdate(order) => Event::OrderUpdate(order.clone()),
        }
    }
}

/// `tokio::sync::broadcast::Sender`, declared as an opaque type.
#[verifier::external_type_specification]
#[verifier::external_body]
#[verifier::reject_recursive_types(T)]
pub struct ExSender<T>(tokio::sync::broadcast::Sender<T>);

/// `tokio::sync::broadcast::Receiver`, declared as an opaque type.
#[verifier::external_type_specification]
#[verifier::external_body]
#[verifier::reject_recursive_types(T)]
pub struct ExReceiver<T>(tokio::sync::broadcast::Receiver<T>);

/// The greatest capacity whose buffer can be addressed.
pub const MAX_CAPACITY: usize = usize::MAX / 1024 + 1;

/// How many events the channel of a sender retains for a receiver that lags: the limit that it
/// was made with, which no call changes.
pub uninterp spec fn sender_room(sender: tokio::sync::broadcast::Sender<Event>) -> nat;

/// How many events the channel of a receiver retains for it.
pub uninterp spec fn receiver_room(receiver: tokio::sync::broadcast::Receiver<Event>) -> nat;

/// Whether `room` is `capacity` rounded up to a power of two.
pub open spec fn rounds_up(room: nat, capacity: nat) -> bool {
    &&& capacity <= room < 2 * capacity
    &&& exists|k: nat| room == #[trigger] vstd::arithmetic::power2::pow2(k)
}

/// `tokio::sync::broadcast::channel`, whose receiver is dropped. It panics on a capacity of zero,
/// on one above half of `usize::MAX`, and where the buffer cannot be addressed. The length of the
/// buffer is the next power of two, and a slot of it, which holds an event, takes more than 256
/// and less than 512 bytes: the bound is the greatest capacity that fits. Trusted: the channel retains as many
/// events as the capacity, rounded up to a power of two. Which events it holds is not claimed:
/// other tasks share its state.
#[verifier::external_body]
fn open_channel(capacity: usize) -> (r: tokio::sync::broadcast::Sender<Event>)
    requires
        1 <= capacity <= MAX_CAPACITY,
    ensures
        rounds_up(sender_room(r), capacity as nat),
{
    tokio::sync::broadcast::channel(capacity).0
}

/// `tokio::sync::broadcast::Sender::subscribe`. Trusted: the receiver is one of the sender's
/// channel, which retains as many events for it as for any other. Which events it will receive is
/// not claimed: other tasks share the channel's state.
#[verifier::external_body]
fn open_receiver(sender: &tokio::sync::broadcast::Sender<Event>) -> (r:
    tokio::sync::broadcast::Receiver<Event>)
    ensures
        receiver_room(r) == sender_room(*sender),
{
    sender.subscribe()
}

/// `tokio::sync::broadcast::Sender::send`. Trusted: a success tells of at least one receiver, and
/// a failure gives the event back. Whether there is a receiver depends on what other tasks do.
#[verifier::external_body]
fn send_event(sender: &tokio::sync::broadcast::Sender<Event>, event: Event) -> (r: Result<
    usize,
    Event,
>)
    ensures
        match r {
            Ok(receivers) => receivers >= 1,
            Err(unsent) => unsent == event,
        },
{
    sender.send(event).map_err(|error| error.0)
}

/// Where news are handed out.
pub struct EventBucket {
    sender: tokio::sync::broadcast::Sender<Event>,
}

impl EventBucket {
    /// How many events are retained for a subscriber that lags.
    pub closed spec fn room(&self) -> nat {
        sender_room(self.sender)
    }

    /// A bucket that retains this many events for slow subscribers, rounded up to a power of two.
    pub fn new(capacity: usize) -> (r: Self)
        requires
            1 <= capacity <= MAX_CAPACITY,
        ensures
            rounds_up(r.room(), capacity as nat),
    {
        EventBucket { sender: open_channel(capacity) }
    }

    /// A receiver of what is sent from now on.
    pub fn subscribe(&self) -> (r: tokio::sync::broadcast::Receiver<Event>)
        ensures
            receiver_room(r) == self.room(),
    {
        open_receiver(&self.sender)
    }

    /// Sends an event to all subscribers, and says how many there are. Without any, the event
    /// comes back.
    pub fn send(&self, event: Event) -> (r: Result<usize, Event>)
        ensures
            match r {
                Ok(receivers) => receivers >= 1,
                Err(unsent) => unsent == event,
            },
    {
        send_event(&self.sender, event)
    }
}

/// News that tell the same are of one sort, and agree in what they bring.
pub proof fn law_same_news(a: Event, b: Event)
    requires
        a.same_as(&b),
    ensures
        a is OrderBookUpdate <==> b is OrderBookUpdate,
        a is PortfolioUpdate <==> b is PortfolioUpdate,
        a is VolatilityUpdate <==> b is VolatilityUpdate,
        a is InstrumentUpdate <==> b is InstrumentUpdate,
        a is OrderUpdate <==> b is OrderUpdate,
        a is OrderBookUpdate ==> a->OrderBookUpdate_0.same_as(&b->OrderBookUpdate_0),
        a is PortfolioUpdate ==> a->PortfolioUpdate_0.same_as(&b->PortfolioUpdate_0),
        a is VolatilityUpdate ==> a->VolatilityUpdate_0 == b->VolatilityUpdate_0,
        a is InstrumentUpdate ==> a->InstrumentUpdate_0.same_as(&b->InstrumentUpdate_0),
        a is OrderUpdate ==> a->OrderUpdate_0 == b->OrderUpdate_0,
{
}

} // verus!

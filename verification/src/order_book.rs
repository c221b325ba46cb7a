//! The order book of one instrument, kept up to date by the exchange's change messages.

use vstd::prelude::*;

use crate::auth::DeribitConfig;
use crate::binary64::Binary64;
use crate::json::{Json, JsonModel};
use crate::ladder;
use crate::ladder::{Ladder, PriceKey};
use crate::rpc;
use crate::rpc::{Params, Request};
use crate::seqs;
use crate::session;
use crate::session::{react, Reaction, Signal};
use crate::text::{joined, same_text, starts_with};

verus! {

/// One side of a book: prices with the amounts that rest there, the lowest price first.
pub type Side = Seq<(Binary64, Binary64)>;

/// The order book of one instrument.
#[derive(Debug)]
pub struct OrderBook {
    pub bids: Ladder<Binary64, Binary64>,
    pub asks: Ladder<Binary64, Binary64>,
    pub instrument_name: String,
    /// The id of the last change message that was taken in.
    pub change_id: u64,
}

/// A change message. Each change is a list of an action, a price and an amount.
#[derive(Debug)]
pub struct OrderBookUpdate {
    pub update_type: String,
    pub timestamp: u64,
    pub instrument_name: String,
    pub change_id: u64,
    pub prev_change_id: Option<u64>,
    pub bids: Vec<Vec<Json>>,
    pub asks: Vec<Vec<Json>>,
}

/// Why a change message was refused, or where it stopped.
#[derive(Clone, Copy, Debug, PartialEq, Eq, Structural)]
pub enum UpdateError {
    InstrumentMismatch,
    MissedUpdate,
    InvalidChangeFormat,
    InvalidAction,
    InvalidPrice,
    InvalidAmount,
    UnknownAction,
}

impl UpdateError {
    pub open spec fn text(self) -> Seq<char> {
        match self {
            UpdateError::InstrumentMismatch => "Instrument name mismatch"@,
            UpdateError::MissedUpdate => "Missed update"@,
            UpdateError::InvalidChangeFormat => "Invalid change format"@,
            UpdateError::InvalidAction => "Invalid action"@,
            UpdateError::InvalidPrice => "Invalid price"@,
            UpdateError::InvalidAmount => "Invalid amount"@,
            UpdateError::UnknownAction => "Unknown action"@,
        }
    }

    pub fn message(self) -> (r: &'static str)
        ensures
            r@ == self.text(),
            self is InstrumentMismatch ==> r@ == "Instrument name mismatch"@,
            self is MissedUpdate ==> r@ == "Missed update"@,
            self is InvalidChangeFormat ==> r@ == "Invalid change format"@,
            self is InvalidAction ==> r@ == "Invalid action"@,
            self is InvalidPrice ==> r@ == "Invalid price"@,
            self is InvalidAmount ==> r@ == "Invalid amount"@,
            self is UnknownAction ==> r@ == "Unknown action"@,
    {
        match self {
            UpdateError::InstrumentMismatch => "Instrument name mismatch",
            UpdateError::MissedUpdate => "Missed update",
            UpdateError::InvalidChangeFormat => "Invalid change format",
            UpdateError::InvalidAction => "Invalid action",
            UpdateError::InvalidPrice => "Invalid price",
            UpdateError::InvalidAmount => "Invalid amount",
            UpdateError::UnknownAction => "Unknown action",
        }
    }
}

/// The contents of one change.
pub open spec fn change_of(change: Seq<Json>) -> Seq<JsonModel> {
    change.map_values(|part: Json| part@)
}

/// The contents of a list of changes.
pub open spec fn changes_of(changes: Seq<Vec<Json>>) -> Seq<Seq<JsonModel>> {
    changes.map_values(|change: Vec<Json>| change_of(change@))
}

/// A side after an amount was set at a price. Only a positive amount stays on the book.
pub open spec fn amount_set(side: Side, price: Binary64, amount: Binary64) -> Side {
    if Binary64::zero_spec().lt_spec(amount) {
        ladder::placed(side, price, amount)
    } else {
        ladder::removed(side, price.rank())
    }
}

/// A side after one change, or why the change cannot be read.
pub open spec fn changed(side: Side, change: Seq<JsonModel>) -> Result<Side, UpdateError> {
    if change.len() != 3 {
        Err(UpdateError::InvalidChangeFormat)
    } else if !(change[0] is Text) {
        Err(UpdateError::InvalidAction)
    } else if change[1].float() is None {
        Err(UpdateError::InvalidPrice)
    } else if change[2].float() is None {
        Err(UpdateError::InvalidAmount)
    } else {
        let action = change[0]->Text_0;
        let price = change[1].float()->0;
        let amount = change[2].float()->0;
        if action == "new"@ || action == "change"@ {
            Ok(amount_set(side, price, amount))
        } else if action == "delete"@ {
            Ok(ladder::removed(side, price.rank()))
        } else {
            Err(UpdateError::UnknownAction)
        }
    }
}

/// A side after changes that came one after the other, up to the first that cannot be read; and
/// what was wrong with that one.
pub open spec fn all_changed(side: Side, changes: Seq<Seq<JsonModel>>) -> (Side, Option<UpdateError>)
    decreases changes.len(),
{
    if changes.len() == 0 {
        (side, None)
    } else {
        match changed(side, changes[0]) {
            Ok(next) => all_changed(next, changes.drop_first()),
            Err(error) => (side, Some(error)),
        }
    }
}

/// Why a message is refused as a whole, if it is.
pub open spec fn refusal(book: OrderBook, update: OrderBookUpdate) -> Option<UpdateError> {
    if update.instrument_name@ != book.instrument_name@ {
        Some(UpdateError::InstrumentMismatch)
    } else if update.prev_change_id is Some && update.prev_change_id->0 != book.change_id {
        Some(UpdateError::MissedUpdate)
    } else {
        None
    }
}

/// Whether a message turned one book into the other with this outcome. A refused message changes
/// nothing. Another one sets the change id and changes the bids, and then, unless the bids
/// already stopped it, the asks.
pub open spec fn book_updated(
    before: OrderBook,
    after: OrderBook,
    update: OrderBookUpdate,
    outcome: Option<UpdateError>,
) -> bool {
    match refusal(before, update) {
        Some(error) => outcome == Some(error) && after == before,
        None => {
            let (bids, bid_error) = all_changed(before.bids@, changes_of(update.bids@));
            let (asks, ask_error) = all_changed(before.asks@, changes_of(update.asks@));
            &&& after.instrument_name == before.instrument_name
            &&& after.change_id == update.change_id
            &&& after.bids@ == bids
            &&& after.asks@ == (if bid_error is Some {
                before.asks@
            } else {
                asks
            })
            &&& outcome == (if bid_error is Some {
                bid_error
            } else {
                ask_error
            })
        },
    }
}

/// Every amount on this side is positive.
pub open spec fn positive(side: Side) -> bool {
    forall|i: int| 0 <= i < side.len() ==> Binary64::zero_spec().lt_spec((#[trigger] side[i]).1)
}

/// The amounts at the `depth` highest prices, the highest first.
pub open spec fn highest_amounts(side: Side, depth: nat) -> Seq<Binary64> {
    let n = if depth < side.len() { depth } else { side.len() };
    Seq::new(n, |i: int| side[side.len() - 1 - i].1)
}

/// The amounts at the `depth` lowest prices, the lowest first.
pub open spec fn lowest_amounts(side: Side, depth: nat) -> Seq<Binary64> {
    let n = if depth < side.len() { depth } else { side.len() };
    Seq::new(n, |i: int| side[i].1)
}

/// A side that was filled from pairs, of which a later one displaces an earlier one of its price.
pub open spec fn from_pairs_spec(pairs: Side) -> Side
    decreases pairs.len(),
{
    if pairs.len() == 0 {
        Seq::empty()
    } else {
        let pair = pairs.last();
        let earlier = from_pairs_spec(pairs.drop_last());
        ladder::placed(ladder::removed(earlier, pair.0.rank()), pair.0, pair.1)
    }
}

/// A side as a list of pairs, the lowest price first.
pub fn to_pairs(side: &Ladder<Binary64, Binary64>) -> (r: Vec<(Binary64, Binary64)>)
    ensures
        r@ == side@,
{
    let n: usize = side.len();
    let mut r: Vec<(Binary64, Binary64)> = Vec::new();
    for i in 0..n
        invariant
            n == side@.len(),
            r@ =~= side@.take(i as int),
    {
        r.push(*side.level(i));
    }
    assert(side@.take(n as int) == side@);
    r
}

/// The side that a list of pairs stands for.
pub fn from_pairs(pairs: &Vec<(Binary64, Binary64)>) -> (r: Ladder<Binary64, Binary64>)
    ensures
        r.wf(),
        r@ == from_pairs_spec(pairs@),
{
    let n: usize = pairs.len();
    let mut r: Ladder<Binary64, Binary64> = Ladder::new();
    for i in 0..n
        invariant
            n == pairs@.len(),
            r.wf(),
            r@ == from_pairs_spec(pairs@.take(i as int)),
    {
        let pair = pairs[i];
        r.remove(&pair.0);
        r.insert(pair.0, pair.1);
        assert(pairs@.take(i + 1).drop_last() == pairs@.take(i as int));
    }
    assert(pairs@.take(n as int) == pairs@);
    r
}

/// Takes in the changes of one side, up to the first that cannot be read.
fn process_changes(side: &mut Ladder<Binary64, Binary64>, changes: &Vec<Vec<Json>>) -> (r: Result<
    (),
    UpdateError,
>)
    requires
        old(side).wf(),
    ensures
        final(side).wf(),
        final(side)@ == all_changed(old(side)@, changes_of(changes@)).0,
        match r {
            Ok(_) => all_changed(old(side)@, changes_of(changes@)).1 is None,
            Err(error) => all_changed(old(side)@, changes_of(changes@)).1 == Some(error),
        },
{
    let ghost all = changes_of(changes@);
    let ghost start = side@;
    let n: usize = changes.len();
    assert(all.skip(0) == all);
    for i in 0..n
        invariant
            n == changes@.len(),
            all == changes_of(changes@),
            side.wf(),
            start == old(side)@,
            all_changed(start, all) == all_changed(side@, all.skip(i as int)),
    {
        let change = &changes[i];
        let ghost rest = all.skip(i as int);
        proof {
            assert(rest[0] == change_of(change@));
            assert(rest.drop_first() == all.skip(i + 1));
        }
        if change.len() != 3 {
            return Err(UpdateError::InvalidChangeFormat);
        }
        assert(rest[0][0] == change@[0]@ && rest[0][1] == change@[1]@ && rest[0][2] == change@[2]@);
        let action = match &change[0] {
            Json::Text(text) => text,
            _ => {
                return Err(UpdateError::InvalidAction);
            },
        };
        let price: Binary64 = match change[1].float() {
            Some(price) => price,
            None => {
                return Err(UpdateError::InvalidPrice);
            },
        };
        let amount: Binary64 = match change[2].float() {
            Some(amount) => amount,
            None => {
                return Err(UpdateError::InvalidAmount);
            },
        };
        if same_text(action.as_str(), "new") || same_text(action.as_str(), "change") {
            if amount.gt(Binary64::zero()) {
                side.insert(price, amount);
            } else {
                side.remove(&price);
            }
        } else if same_text(action.as_str(), "delete") {
            side.remove(&price);
        } else {
            return Err(UpdateError::UnknownAction);
        }
    }
    assert(all.skip(n as int).len() == 0);
    Ok(())
}

impl OrderBook {
    pub open spec fn wf(&self) -> bool {
        self.bids.wf() && self.asks.wf()
    }

    /// Whether both hold the same.
    pub open spec fn same_as(&self, other: &Self) -> bool {
        &&& self.bids@ == other.bids@
        &&& self.asks@ == other.asks@
        &&& self.instrument_name == other.instrument_name
        &&& self.change_id == other.change_id
    }

    /// What the book holds.
    pub open spec fn state(&self) -> BookState {
        BookState {
            bids: self.bids@,
            asks: self.asks@,
            instrument_name: self.instrument_name@,
            change_id: self.change_id,
        }
    }

    pub fn new(instrument_name: String) -> (r: Self)
        ensures
            r.wf(),
            r.bids@ == Seq::<(Binary64, Binary64)>::empty(),
            r.asks@ == Seq::<(Binary64, Binary64)>::empty(),
            r.instrument_name == instrument_name,
            r.change_id == 0,
    {
        OrderBook { bids: Ladder::new(), asks: Ladder::new(), instrument_name, change_id: 0 }
    }

    /// Takes in a change message. One for another instrument, or one that does not follow the
    /// last, changes nothing. Else the bids are changed, then the asks, up to the first change
    /// that cannot be read.
    pub fn update(&mut self, update: &OrderBookUpdate) -> (r: Result<(), UpdateError>)
        requires
            old(self).wf(),
        ensures
            final(self).wf(),
            book_updated(
                *old(self),
                *final(self),
                *update,
                (match r {
                    Ok(_) => None,
                    Err(error) => Some(error),
                }),
            ),
    {
        if !same_text(update.instrument_name.as_str(), self.instrument_name.as_str()) {
            return Err(UpdateError::InstrumentMismatch);
        }
        if let Some(prev_change_id) = update.prev_change_id {
            if prev_change_id != self.change_id {
                return Err(UpdateError::MissedUpdate);
            }
        }
        self.change_id = update.change_id;
        match process_changes(&mut self.bids, &update.bids) {
            Ok(_) => {},
            Err(error) => {
                return Err(error);
            },
        }
        process_changes(&mut self.asks, &update.asks)
    }

    /// The highest bid and the lowest ask, where there are both. The mid price is their mean.
    pub fn get_mid_price(&self) -> (r: Option<(Binary64, Binary64)>)
        ensures
            r == (if self.bids@.len() > 0 && self.asks@.len() > 0 {
                Some((self.bids@.last().0, self.asks@[0].0))
            } else {
                None
            }),
            self.wf() && r is Some ==> (forall|i: int|
                0 <= i < self.bids@.len() ==> (#[trigger] self.bids@[i]).0.rank() <= (r->0).0.rank())
                && (forall|i: int|
                0 <= i < self.asks@.len() ==> (#[trigger] self.asks@[i]).0.rank() >= (r->0).1.rank()),
    {
        match (self.best_bid(), self.best_ask()) {
            (Some(bid), Some(ask)) => Some((bid, ask)),
            _ => None,
        }
    }

    /// The highest bid price.
    pub fn best_bid(&self) -> (r: Option<Binary64>)
        ensures
            r == (if self.bids@.len() > 0 {
                Some(self.bids@.last().0)
            } else {
                None
            }),
            self.wf() ==> forall|i: int|
                0 <= i < self.bids@.len() ==> r is Some && (#[trigger] self.bids@[i]).0.rank()
                    <= r->0.rank(),
    {
        proof {
            if self.wf() {
                assert forall|i: int| 0 <= i < self.bids@.len() implies (
                #[trigger] self.bids@[i]).0.rank() <= self.bids@.last().0.rank() by {
                    ladder::law_ends(self.bids@, i);
                }
            }
        }
        let n: usize = self.bids.len();
        if n > 0 {
            Some(self.bids.level(n - 1).0)
        } else {
            None
        }
    }

    /// The lowest ask price.
    pub fn best_ask(&self) -> (r: Option<Binary64>)
        ensures
            r == (if self.asks@.len() > 0 {
                Some(self.asks@[0].0)
            } else {
                None
            }),
            self.wf() ==> forall|i: int|
                0 <= i < self.asks@.len() ==> r is Some && (#[trigger] self.asks@[i]).0.rank()
                    >= r->0.rank(),
    {
        proof {
            if self.wf() {
                assert forall|i: int| 0 <= i < self.asks@.len() implies (
                #[trigger] self.asks@[i]).0.rank() >= self.asks@[0].0.rank() by {
                    ladder::law_ends(self.asks@, i);
                }
            }
        }
        if self.asks.len() > 0 {
            Some(self.asks.level(0).0)
        } else {
            None
        }
    }

    /// The amounts at the best `depth` bids, the best first.
    pub fn top_bid_amounts(&self, depth: usize) -> (r: Vec<Binary64>)
        ensures
            r@ == highest_amounts(self.bids@, depth as nat),
    {
        let n: usize = self.bids.len();
        let count: usize = if depth < n {
            depth
        } else {
            n
        };
        let mut r: Vec<Binary64> = Vec::new();
        for i in 0..count
            invariant
                n == self.bids@.len(),
                count <= n,
                r@ == Seq::new(i as nat, |j: int| self.bids@[n - 1 - j].1),
        {
            r.push(self.bids.level(n - 1 - i).1);
            assert(r@ =~= Seq::new((i + 1) as nat, |j: int| self.bids@[n - 1 - j].1));
        }
        assert(r@ =~= highest_amounts(self.bids@, depth as nat));
        r
    }

    /// The amounts at the best `depth` asks, the best first.
    pub fn top_ask_amounts(&self, depth: usize) -> (r: Vec<Binary64>)
        ensures
            r@ == lowest_amounts(self.asks@, depth as nat),
    {
        let n: usize = self.asks.len();
        let count: usize = if depth < n {
            depth
        } else {
            n
        };
        let mut r: Vec<Binary64> = Vec::new();
        for i in 0..count
            invariant
                n == self.asks@.len(),
                count <= n,
                r@ == Seq::new(i as nat, |j: int| self.asks@[j].1),
        {
            r.push(self.asks.level(i).1);
            assert(r@ =~= Seq::new((i + 1) as nat, |j: int| self.asks@[j].1));
        }
        assert(r@ =~= lowest_amounts(self.asks@, depth as nat));
        r
    }
}

impl Clone for OrderBook {
    fn clone(&self) -> (r: Self)
        ensures
            r.same_as(self),
    {
        OrderBook {
            bids: self.bids.clone(),
            asks: self.asks.clone(),
            instrument_name: self.instrument_name.clone(),
            change_id: self.change_id,
        }
    }
}

/// What came of a subscription message.
#[derive(Debug)]
pub enum Delivery {
    /// It is not about the book.
    Ignored,
    /// The book has changed. This copy of it is to be passed on.
    Updated(OrderBook),
    /// The book could not take it in.
    Rejected(UpdateError),
}

/// The keeper of one instrument's book.
pub struct OrderBookManager {
    pub config: DeribitConfig,
    pub order_book: OrderBook,
    pub instrument_name: String,
}

impl OrderBookManager {
    pub open spec fn wf(&self) -> bool {
        self.order_book.wf()
    }

    pub fn new(config: DeribitConfig, instrument_name: String) -> (r: Self)
        ensures
            r.wf(),
            r.config == config,
            r.instrument_name == instrument_name,
            r.order_book.instrument_name == instrument_name,
            r.order_book.change_id == 0,
            r.order_book.bids@ == Seq::<(Binary64, Binary64)>::empty(),
            r.order_book.asks@ == Seq::<(Binary64, Binary64)>::empty(),
    {
        OrderBookManager {
            config,
            order_book: OrderBook::new(instrument_name.clone()),
            instrument_name,
        }
    }

    /// The request for the changes of the instrument's book.
    pub fn subscription_request(&self) -> (r: Request)
        ensures
            r.subscribes(
                3,
                "public/subscribe"@,
                seq!["book."@ + self.instrument_name@ + ".raw"@],
            ),
    {
        let mut channels: Vec<String> = Vec::new();
        channels.push(joined("book.", self.instrument_name.as_str(), ".raw"));
        assert(seqs::texts(channels@) =~= seq!["book."@ + self.instrument_name@ + ".raw"@]);
        rpc::request(3, "public/subscribe", Params::Channels { channels })
    }

    /// Takes in what a subscription delivered.
    pub fn on_delivery(&mut self, channel: &str, data: &OrderBookUpdate) -> (r: Delivery)
        requires
            old(self).wf(),
        ensures
            final(self).wf(),
            took_in(*old(self), *final(self), channel@, *data, r),
    {
        if starts_with(channel, "book.") {
            match self.order_book.update(data) {
                Ok(_) => Delivery::Updated(self.order_book.clone()),
                Err(error) => Delivery::Rejected(error),
            }
        } else {
            Delivery::Ignored
        }
    }

    /// Takes in something that happened on the connection and says what is to be done.
    pub fn on_signal(&mut self, signal: Signal<OrderBookUpdate>) -> (r: Reaction<Delivery>)
        requires
            old(self).wf(),
        ensures
            final(self).wf(),
            acted(*old(self), *final(self), signal, r),
    {
        match react(signal) {
            Reaction::Nothing => Reaction::Nothing,
            Reaction::Send(request) => Reaction::Send(request),
            Reaction::Pong(payload) => Reaction::Pong(payload),
            Reaction::RefreshLogin => Reaction::RefreshLogin,
            Reaction::Deliver((channel, data)) => Reaction::Deliver(
                self.on_delivery(channel.as_str(), &data),
            ),
            Reaction::Finish => Reaction::Finish,
            Reaction::Abort => Reaction::Abort,
        }
    }
}

/// Whether what a subscription delivered turned one manager into the other, with this outcome.
/// What is not about a book is ignored; of a book that took it in a copy comes out.
pub open spec fn took_in(
    before: OrderBookManager,
    after: OrderBookManager,
    channel: Seq<char>,
    data: OrderBookUpdate,
    outcome: Delivery,
) -> bool {
    if "book."@.is_prefix_of(channel) {
        &&& after.config == before.config
        &&& after.instrument_name == before.instrument_name
        &&& match outcome {
            Delivery::Ignored => false,
            Delivery::Updated(copy) => book_updated(
                before.order_book,
                after.order_book,
                data,
                None,
            ) && copy.same_as(&after.order_book),
            Delivery::Rejected(error) => book_updated(
                before.order_book,
                after.order_book,
                data,
                Some(error),
            ),
        }
    } else {
        outcome is Ignored && after == before
    }
}

/// Whether something on the connection turned one manager into the other, with this reaction.
pub open spec fn acted(
    before: OrderBookManager,
    after: OrderBookManager,
    signal: Signal<OrderBookUpdate>,
    reaction: Reaction<Delivery>,
) -> bool {
    &&& session::reacts(reaction, signal)
    &&& match session::delivery(signal) {
        Some((channel, data)) => took_in(before, after, channel@, data, reaction->Deliver_0),
        None => after == before,
    }
}

/// What a book holds.
#[verifier::ext_equal]
pub struct BookState {
    pub bids: Side,
    pub asks: Side,
    pub instrument_name: Seq<char>,
    pub change_id: u64,
}

/// What a book holds after a message, and what was wrong with the message, if anything was.
pub open spec fn after_update(book: BookState, update: OrderBookUpdate) -> (
    BookState,
    Option<UpdateError>,
) {
    let (bids, bid_error) = all_changed(book.bids, changes_of(update.bids@));
    let (asks, ask_error) = all_changed(book.asks, changes_of(update.asks@));
    if update.instrument_name@ != book.instrument_name {
        (book, Some(UpdateError::InstrumentMismatch))
    } else if update.prev_change_id is Some && update.prev_change_id->0 != book.change_id {
        (book, Some(UpdateError::MissedUpdate))
    } else if bid_error is Some {
        (BookState { bids, change_id: update.change_id, ..book }, bid_error)
    } else {
        (BookState { bids, asks, change_id: update.change_id, ..book }, ask_error)
    }
}

/// The message for the book that a signal brings, if it brings one.
pub open spec fn book_frame(signal: Signal<OrderBookUpdate>) -> Option<OrderBookUpdate> {
    match session::delivery(signal) {
        Some((channel, data)) => if "book."@.is_prefix_of(channel@) {
            Some(data)
        } else {
            None
        },
        None => None,
    }
}

/// What a book holds after these signals.
pub open spec fn book_after(book: BookState, signals: Seq<Signal<OrderBookUpdate>>) -> BookState
    decreases signals.len(),
{
    if signals.len() == 0 {
        book
    } else {
        let earlier = book_after(book, signals.drop_last());
        match book_frame(signals.last()) {
            Some(update) => after_update(earlier, update).0,
            None => earlier,
        }
    }
}

/// What a book holds right after each message that it takes in without an error, one after the
/// other.
pub open spec fn accepted_books(book: BookState, signals: Seq<Signal<OrderBookUpdate>>) -> Seq<
    BookState,
>
    decreases signals.len(),
{
    if signals.len() == 0 {
        Seq::empty()
    } else {
        let earlier = accepted_books(book, signals.drop_last());
        let before = book_after(book, signals.drop_last());
        match book_frame(signals.last()) {
            Some(update) => if after_update(before, update).1 is None {
                earlier.push(after_update(before, update).0)
            } else {
                earlier
            },
            None => earlier,
        }
    }
}

/// What the books hold that these reactions pass on, one after the other.
pub open spec fn passed_on(reactions: Seq<Reaction<Delivery>>) -> Seq<BookState>
    decreases reactions.len(),
{
    if reactions.len() == 0 {
        Seq::empty()
    } else {
        let earlier = passed_on(reactions.drop_last());
        match reactions.last() {
            Reaction::Deliver(Delivery::Updated(book)) => earlier.push(book.state()),
            _ => earlier,
        }
    }
}

/// Whether these signals took a manager through these states, with these reactions.
pub open spec fn is_run(
    states: Seq<OrderBookManager>,
    signals: Seq<Signal<OrderBookUpdate>>,
    reactions: Seq<Reaction<Delivery>>,
) -> bool {
    &&& states.len() == signals.len() + 1
    &&& reactions.len() == signals.len()
    &&& forall|i: int|
        #![trigger signals[i]]
        0 <= i < signals.len() ==> acted(states[i], states[i + 1], signals[i], reactions[i])
}

/// Over a whole run of signals the books that are passed on match, one to one and in order, the
/// messages for the book that it took in without an error: each is the book right after its
/// message, whatever comes later.
pub proof fn law_books_passed_on(
    states: Seq<OrderBookManager>,
    signals: Seq<Signal<OrderBookUpdate>>,
    reactions: Seq<Reaction<Delivery>>,
)
    requires
        is_run(states, signals, reactions),
    ensures
        states.last().order_book.state() == book_after(states[0].order_book.state(), signals),
        passed_on(reactions) == accepted_books(states[0].order_book.state(), signals),
    decreases signals.len(),
{
    if signals.len() > 0 {
        let n = signals.len() - 1;
        let front = states.drop_last();
        assert forall|i: int|
            #![trigger signals.drop_last()[i]]
            0 <= i < n implies acted(
            front[i],
            front[i + 1],
            signals.drop_last()[i],
            reactions.drop_last()[i],
        ) by {
            assert(signals[i] == signals.drop_last()[i]);
        }
        law_books_passed_on(front, signals.drop_last(), reactions.drop_last());
        assert(front.last() == states[n]);
        assert(acted(states[n], states[n + 1], signals[n], reactions[n]));
        let before = states[n].order_book;
        let after = states[n + 1].order_book;
        if let Some(update) = book_frame(signals.last()) {
            let outcome = match reactions[n]->Deliver_0 {
                Delivery::Rejected(error) => Some(error),
                _ => None,
            };
            assert(book_updated(before, after, update, outcome));
            assert(after.state() =~= after_update(before.state(), update).0);
            assert(outcome == after_update(before.state(), update).1);
            if let Delivery::Updated(copy) = reactions[n]->Deliver_0 {
                assert(copy.state() == after.state());
            }
        }
    }
}

/// Changes keep the levels in order.
pub proof fn law_changes_keep_order(side: Side, changes: Seq<Seq<JsonModel>>)
    requires
        ladder::ascending(side),
    ensures
        ladder::ascending(all_changed(side, changes).0),
    decreases changes.len(),
{
    if changes.len() > 0 {
        match changed(side, changes[0]) {
            Ok(next) => {
                lemma_changed(side, changes[0]);
                law_changes_keep_order(next, changes.drop_first());
            },
            Err(_) => {},
        }
    }
}

proof fn lemma_changed(side: Side, change: Seq<JsonModel>)
    requires
        ladder::ascending(side),
        changed(side, change) is Ok,
    ensures
        ladder::ascending(changed(side, change)->Ok_0),
        positive(side) ==> positive(changed(side, change)->Ok_0),
{
    let price = change[1].float()->0;
    let amount = change[2].float()->0;
    let after = changed(side, change)->Ok_0;
    ladder::lemma_slot_exists(side, price.rank());
    ladder::lemma_placed_ascending(side, price, amount);
    ladder::lemma_removed_ascending(side, price.rank());
    let at = ladder::slot(side, price.rank());
    if positive(side) {
        assert forall|i: int| 0 <= i < after.len() implies Binary64::zero_spec().lt_spec(
            (#[trigger] after[i]).1,
        ) by {
            if i < at {
                assert(after[i].1 == side[i].1);
            } else if i < side.len() {
                assert(Binary64::zero_spec().lt_spec(side[i].1));
                if i > 0 {
                    assert(Binary64::zero_spec().lt_spec(side[i - 1].1));
                }
                if i + 1 < side.len() {
                    assert(Binary64::zero_spec().lt_spec(side[i + 1].1));
                }
            } else if i > 0 {
                assert(Binary64::zero_spec().lt_spec(side[i - 1].1));
            }
        }
    }
}

/// A book on which every amount is positive stays one: an amount that is not positive takes its
/// level off the book.
pub proof fn law_changes_keep_positive(side: Side, changes: Seq<Seq<JsonModel>>)
    requires
        ladder::ascending(side),
        positive(side),
    ensures
        positive(all_changed(side, changes).0),
    decreases changes.len(),
{
    if changes.len() > 0 {
        match changed(side, changes[0]) {
            Ok(next) => {
                lemma_changed(side, changes[0]);
                law_changes_keep_positive(next, changes.drop_first());
            },
            Err(_) => {},
        }
    }
}

/// Setting an amount changes its own price level and no other one.
pub proof fn law_amount_set(side: Side, price: Binary64, amount: Binary64, rank: int)
    requires
        ladder::ascending(side),
    ensures
        ladder::value_at(amount_set(side, price, amount), rank) == (if rank != price.rank() {
            ladder::value_at(side, rank)
        } else if Binary64::zero_spec().lt_spec(amount) {
            Some(amount)
        } else {
            None
        }),
{
    ladder::law_placed_value_at(side, price, amount, rank);
    ladder::law_removed_value_at(side, price.rank(), rank);
}

/// Taking in a change twice is taking it in once.
pub proof fn law_change_twice(side: Side, change: Seq<JsonModel>)
    requires
        ladder::ascending(side),
        changed(side, change) is Ok,
    ensures
        changed(changed(side, change)->Ok_0, change) == changed(side, change),
{
    let price = change[1].float()->0;
    let amount = change[2].float()->0;
    ladder::law_placed_twice(side, price, amount);
    ladder::law_removed_twice(side, price.rank());
}

/// Deleting a level that a change has just brought gives the side back.
pub proof fn law_new_then_delete(side: Side, price: Binary64, amount: Binary64)
    requires
        ladder::ascending(side),
        !ladder::has_rank(side, price.rank()),
    ensures
        ladder::removed(amount_set(side, price, amount), price.rank()) == side,
{
    ladder::law_placed_then_removed(side, price, amount);
    ladder::law_removed_twice(side, price.rank());
}

/// Whether a change can be read: it is an action that is known, a price and an amount.
pub open spec fn readable(change: Seq<JsonModel>) -> bool {
    &&& change.len() == 3
    &&& change[0] == JsonModel::Text("new"@) || change[0] == JsonModel::Text("change"@) || change[0]
        == JsonModel::Text("delete"@)
    &&& change[1] is Number && change[1]->Number_0.float is Some
    &&& change[2] is Number && change[2]->Number_0.float is Some
}

/// The price that a change names.
pub open spec fn price_in(change: Seq<JsonModel>) -> Binary64 {
    change[1]->Number_0.float->0
}

/// What a change leaves at its price: its amount, or nothing where it deletes or the amount is not
/// positive.
pub open spec fn left_by(change: Seq<JsonModel>) -> Option<Binary64> {
    let amount = change[2]->Number_0.float->0;
    if change[0] != JsonModel::Text("delete"@) && 0 < amount.bits <= 0x7ff0_0000_0000_0000 {
        Some(amount)
    } else {
        None
    }
}

proof fn lemma_readable_change(side: Side, change: Seq<JsonModel>, rank: int)
    requires
        ladder::ascending(side),
        readable(change),
    ensures
        changed(side, change) is Ok,
        ladder::ascending(changed(side, change)->Ok_0),
        ladder::value_at(changed(side, change)->Ok_0, rank) == (if price_in(change).rank()
            == rank {
            left_by(change)
        } else {
            ladder::value_at(side, rank)
        }),
{
    reveal_strlit("new");
    reveal_strlit("change");
    reveal_strlit("delete");
    assert("new"@.len() == 3 && "delete"@[0] == 'd' && "change"@[0] == 'c');
    let price = price_in(change);
    let amount = change[2]->Number_0.float->0;
    lemma_changed(side, change);
    law_amount_set(side, price, amount, rank);
    ladder::law_removed_value_at(side, price.rank(), rank);
}

/// Where every change of a side can be read, all of them count: at each price the last change that
/// names it decides, and where none does the old amount stays.
pub proof fn law_last_change_decides(side: Side, changes: Seq<Seq<JsonModel>>, rank: int)
    requires
        ladder::ascending(side),
        forall|k: int| 0 <= k < changes.len() ==> readable(#[trigger] changes[k]),
    ensures
        all_changed(side, changes).1 is None,
        ladder::ascending(all_changed(side, changes).0),
        forall|k: int|
            0 <= k < changes.len() && price_in(#[trigger] changes[k]).rank() == rank && (forall|j: int|
                k < j < changes.len() ==> price_in(#[trigger] changes[j]).rank() != rank)
                ==> ladder::value_at(all_changed(side, changes).0, rank) == left_by(changes[k]),
        (forall|k: int|
            0 <= k < changes.len() ==> price_in(#[trigger] changes[k]).rank() != rank)
            ==> ladder::value_at(all_changed(side, changes).0, rank) == ladder::value_at(side, rank),
    decreases changes.len(),
{
    if changes.len() > 0 {
        let rest = changes.drop_first();
        assert(readable(changes[0]));
        lemma_readable_change(side, changes[0], rank);
        let next = changed(side, changes[0])->Ok_0;
        assert forall|k: int| 0 <= k < rest.len() implies readable(#[trigger] rest[k]) by {
            assert(rest[k] == changes[k + 1]);
        }
        law_last_change_decides(next, rest, rank);
        let after = all_changed(side, changes).0;
        assert(after == all_changed(next, rest).0);
        assert forall|k: int|
            0 <= k < changes.len() && price_in(#[trigger] changes[k]).rank() == rank && (forall|j: int|
                k < j < changes.len() ==> price_in(
                    #[trigger] changes[j],
                ).rank() != rank) implies ladder::value_at(after, rank) == left_by(changes[k]) by {
            if k > 0 {
                assert(rest[k - 1] == changes[k]);
                assert forall|j: int| k - 1 < j < rest.len() implies price_in(
                    #[trigger] rest[j],
                ).rank() != rank by {
                    assert(rest[j] == changes[j + 1]);
                }
            } else {
                assert forall|j: int| 0 <= j < rest.len() implies price_in(
                    #[trigger] rest[j],
                ).rank() != rank by {
                    assert(rest[j] == changes[j + 1]);
                }
            }
        }
        if forall|k: int|
            0 <= k < changes.len() ==> price_in(#[trigger] changes[k]).rank() != rank {
            assert forall|k: int| 0 <= k < rest.len() implies price_in(#[trigger] rest[k]).rank()
                != rank by {
                assert(rest[k] == changes[k + 1]);
            }
            assert(price_in(changes[0]).rank() != rank);
        }
    }
}

/// The first change that cannot be read stops its side: those before it count, it and those after
/// it do not, and the error says what was wrong with it.
pub proof fn law_unreadable_change_stops(side: Side, changes: Seq<Seq<JsonModel>>, k: int)
    requires
        0 <= k < changes.len(),
        forall|j: int| 0 <= j < k ==> readable(#[trigger] changes[j]),
        !readable(changes[k]),
        ladder::ascending(side),
    ensures
        all_changed(side, changes).0 == all_changed(side, changes.take(k)).0,
        all_changed(side, changes).1 == Some(
            if changes[k].len() != 3 {
                UpdateError::InvalidChangeFormat
            } else if !(changes[k][0] is Text) {
                UpdateError::InvalidAction
            } else if !(changes[k][1] is Number && changes[k][1]->Number_0.float is Some) {
                UpdateError::InvalidPrice
            } else if !(changes[k][2] is Number && changes[k][2]->Number_0.float is Some) {
                UpdateError::InvalidAmount
            } else {
                UpdateError::UnknownAction
            },
        ),
    decreases changes.len(),
{
    if k > 0 {
        let rest = changes.drop_first();
        assert(readable(changes[0]));
        lemma_readable_change(side, changes[0], 0);
        let next = changed(side, changes[0])->Ok_0;
        assert forall|j: int| 0 <= j < k - 1 implies readable(#[trigger] rest[j]) by {
            assert(rest[j] == changes[j + 1]);
        }
        assert(rest[k - 1] == changes[k]);
        law_unreadable_change_stops(next, rest, k - 1);
        assert(changes.take(k).drop_first() =~= rest.take(k - 1));
        assert(changes.take(k)[0] == changes[0]);
    } else {
        assert(changes.take(0).len() == 0);
    }
}

/// A message that was taken in without an error changes each side by the changes of that side, and
/// by nothing else: at each price the last change of the side that names it decides, and where
/// none does the old amount stays.
pub proof fn law_update_changes_each_side(
    before: OrderBook,
    after: OrderBook,
    update: OrderBookUpdate,
    rank: int,
)
    requires
        before.wf(),
        book_updated(before, after, update, None),
        forall|k: int| 0 <= k < update.bids@.len() ==> readable(change_of((#[trigger] update.bids@[k])@)),
        forall|k: int| 0 <= k < update.asks@.len() ==> readable(change_of((#[trigger] update.asks@[k])@)),
    ensures
        after.change_id == update.change_id,
        after.instrument_name@ == before.instrument_name@,
        side_follows(before.bids@, after.bids@, update.bids@, rank),
        side_follows(before.asks@, after.asks@, update.asks@, rank),
{
    let bids = changes_of(update.bids@);
    let asks = changes_of(update.asks@);
    assert forall|k: int| 0 <= k < bids.len() implies readable(#[trigger] bids[k]) by {
        assert(bids[k] == change_of(update.bids@[k]@));
    }
    assert forall|k: int| 0 <= k < asks.len() implies readable(#[trigger] asks[k]) by {
        assert(asks[k] == change_of(update.asks@[k]@));
    }
    law_last_change_decides(before.bids@, bids, rank);
    law_last_change_decides(before.asks@, asks, rank);
    lemma_side_follows(before.bids@, after.bids@, update.bids@, rank);
    lemma_side_follows(before.asks@, after.asks@, update.asks@, rank);
}

/// Whether what a side holds at a price is what the last of these changes at that price leaves
/// there, or what it held where none of them names the price.
pub open spec fn side_follows(
    before: Side,
    after: Side,
    changes: Seq<Vec<Json>>,
    rank: int,
) -> bool {
    &&& forall|k: int|
        0 <= k < changes.len() && price_in(change_of((#[trigger] changes[k])@)).rank() == rank && (
        forall|j: int|
            k < j < changes.len() ==> price_in(change_of((#[trigger] changes[j])@)).rank() != rank)
            ==> ladder::value_at(after, rank) == left_by(change_of(changes[k]@))
    &&& (forall|k: int|
        0 <= k < changes.len() ==> price_in(change_of((#[trigger] changes[k])@)).rank() != rank)
        ==> ladder::value_at(after, rank) == ladder::value_at(before, rank)
}

proof fn lemma_side_follows(before: Side, after: Side, changes: Seq<Vec<Json>>, rank: int)
    requires
        ladder::ascending(before),
        forall|k: int|
            0 <= k < changes_of(changes).len() ==> readable(#[trigger] changes_of(changes)[k]),
        after == all_changed(before, changes_of(changes)).0,
    ensures
        side_follows(before, after, changes, rank),
{
    let all = changes_of(changes);
    law_last_change_decides(before, all, rank);
    assert forall|k: int|
        0 <= k < changes.len() && price_in(change_of((#[trigger] changes[k])@)).rank() == rank && (
        forall|j: int|
            k < j < changes.len() ==> price_in(
                change_of((#[trigger] changes[j])@),
            ).rank() != rank) implies ladder::value_at(after, rank) == left_by(
        change_of(changes[k]@),
    ) by {
        assert(all[k] == change_of(changes[k]@));
        assert forall|j: int| k < j < all.len() implies price_in(#[trigger] all[j]).rank()
            != rank by {
            assert(all[j] == change_of(changes[j]@));
        }
    }
    if forall|k: int|
        0 <= k < changes.len() ==> price_in(change_of((#[trigger] changes[k])@)).rank() != rank {
        assert forall|k: int| 0 <= k < all.len() implies price_in(#[trigger] all[k]).rank()
            != rank by {
            assert(all[k] == change_of(changes[k]@));
        }
    }
}

/// The sides do not depend on each other: of two messages without an error that change one side
/// alike, both leave it alike, whatever they say of the other side.
pub proof fn law_sides_apart(
    before: OrderBook,
    other: OrderBook,
    after: OrderBook,
    other_after: OrderBook,
    update: OrderBookUpdate,
    other_update: OrderBookUpdate,
)
    requires
        book_updated(before, after, update, None),
        book_updated(other, other_after, other_update, None),
    ensures
        before.asks@ == other.asks@ && update.asks@ == other_update.asks@ ==> after.asks@
            == other_after.asks@,
        before.bids@ == other.bids@ && update.bids@ == other_update.bids@ ==> after.bids@
            == other_after.bids@,
{
}

/// What comes of a message that is not refused: where every change can be read it is taken in
/// without an error; a bid that cannot be read leaves the asks as they were. The change id is that
/// of the message in any case.
pub proof fn law_update_outcome(
    before: OrderBook,
    after: OrderBook,
    update: OrderBookUpdate,
    outcome: Option<UpdateError>,
)
    requires
        before.wf(),
        book_updated(before, after, update, outcome),
        update.instrument_name@ == before.instrument_name@,
        update.prev_change_id is None || update.prev_change_id->0 == before.change_id,
    ensures
        after.change_id == update.change_id,
        after.instrument_name == before.instrument_name,
        outcome is None <==> (forall|k: int|
            0 <= k < update.bids@.len() ==> readable(change_of((#[trigger] update.bids@[k])@))) && (
        forall|k: int|
            0 <= k < update.asks@.len() ==> readable(change_of((#[trigger] update.asks@[k])@))),
        (exists|k: int|
            0 <= k < update.bids@.len() && !readable(change_of((#[trigger] update.bids@[k])@)))
            ==> after.asks@ == before.asks@,
{
    lemma_readability(before.bids@, update.bids@);
    lemma_readability(before.asks@, update.asks@);
}

proof fn lemma_readability(side: Side, changes: Seq<Vec<Json>>)
    requires
        ladder::ascending(side),
    ensures
        all_changed(side, changes_of(changes)).1 is None <==> (forall|k: int|
            0 <= k < changes.len() ==> readable(change_of((#[trigger] changes[k])@))),
{
    let all = changes_of(changes);
    if forall|k: int| 0 <= k < changes.len() ==> readable(change_of((#[trigger] changes[k])@)) {
        assert forall|k: int| 0 <= k < all.len() implies readable(#[trigger] all[k]) by {
            assert(all[k] == change_of(changes[k]@));
        }
        law_last_change_decides(side, all, 0);
    } else {
        let i = choose|i: int|
            0 <= i < changes.len() && !readable(change_of((#[trigger] changes[i])@));
        assert(all[i] == change_of(changes[i]@));
        let k = lemma_first_unreadable(all);
        law_unreadable_change_stops(side, all, k);
    }
}

proof fn lemma_first_unreadable(changes: Seq<Seq<JsonModel>>) -> (k: int)
    requires
        exists|i: int| 0 <= i < changes.len() && !readable(#[trigger] changes[i]),
    ensures
        0 <= k < changes.len(),
        !readable(changes[k]),
        forall|j: int| 0 <= j < k ==> readable(#[trigger] changes[j]),
    decreases changes.len(),
{
    if !readable(changes[0]) {
        0
    } else {
        let rest = changes.drop_first();
        let i = choose|i: int| 0 <= i < changes.len() && !readable(#[trigger] changes[i]);
        assert(rest[i - 1] == changes[i]);
        let k = lemma_first_unreadable(rest);
        assert forall|j: int| 0 <= j < k + 1 implies readable(#[trigger] changes[j]) by {
            if j > 0 {
                assert(changes[j] == rest[j - 1]);
            }
        }
        k + 1
    }
}

/// A message for another instrument, or one that names another message to follow than the last, is
/// refused: nothing changes, and the error says why.
pub proof fn law_refused_message(
    before: OrderBook,
    after: OrderBook,
    update: OrderBookUpdate,
    outcome: Option<UpdateError>,
)
    requires
        book_updated(before, after, update, outcome),
        update.instrument_name@ != before.instrument_name@ || (update.prev_change_id is Some
            && update.prev_change_id->0 != before.change_id),
    ensures
        after == before,
        outcome == Some(
            if update.instrument_name@ != before.instrument_name@ {
                UpdateError::InstrumentMismatch
            } else {
                UpdateError::MissedUpdate
            },
        ),
{
}

/// What a manager does about what a subscription delivers: on a channel of books the book takes
/// the message in, and a copy of it comes out exactly where that went without an error; on another
/// channel nothing happens.
pub proof fn law_deliveries(
    before: OrderBookManager,
    after: OrderBookManager,
    channel: Seq<char>,
    data: OrderBookUpdate,
    outcome: Delivery,
)
    requires
        took_in(before, after, channel, data, outcome),
    ensures
        !"book."@.is_prefix_of(channel) ==> outcome is Ignored && after == before,
        "book."@.is_prefix_of(channel) ==> !(outcome is Ignored),
        "book."@.is_prefix_of(channel) ==> book_updated(
            before.order_book,
            after.order_book,
            data,
            if outcome is Rejected {
                Some(outcome->Rejected_0)
            } else {
                None
            },
        ),
        outcome is Updated ==> outcome->Updated_0.bids@ == after.order_book.bids@
            && outcome->Updated_0.asks@ == after.order_book.asks@
            && outcome->Updated_0.instrument_name@ == after.order_book.instrument_name@
            && outcome->Updated_0.change_id == after.order_book.change_id,
{
}

/// The amounts at the best prices: as many as asked for, or as there are; of bids the highest price
/// first, of asks the lowest.
pub proof fn law_best_amounts(side: Side, depth: nat, i: int)
    ensures
        highest_amounts(side, depth).len() == (if depth < side.len() { depth } else { side.len() }),
        lowest_amounts(side, depth).len() == (if depth < side.len() { depth } else { side.len() }),
        0 <= i < depth && i < side.len() ==> highest_amounts(side, depth)[i] == side[side.len() - 1
            - i].1,
        0 <= i < depth && i < side.len() ==> lowest_amounts(side, depth)[i] == side[i].1,
{
}

proof fn lemma_from_pairs(pairs: Side, rank: int)
    ensures
        ladder::ascending(from_pairs_spec(pairs)),
        pairs.len() == 0 ==> ladder::value_at(from_pairs_spec(pairs), rank) is None,
        pairs.len() > 0 ==> ladder::value_at(from_pairs_spec(pairs), rank) == (
        if pairs.last().0.rank() == rank {
            Some(pairs.last().1)
        } else {
            ladder::value_at(from_pairs_spec(pairs.drop_last()), rank)
        }),
    decreases pairs.len(),
{
    if pairs.len() > 0 {
        let pair = pairs.last();
        let earlier = from_pairs_spec(pairs.drop_last());
        lemma_from_pairs(pairs.drop_last(), rank);
        ladder::lemma_removed_ascending(earlier, pair.0.rank());
        let without = ladder::removed(earlier, pair.0.rank());
        ladder::lemma_placed_ascending(without, pair.0, pair.1);
        ladder::law_removed_value_at(earlier, pair.0.rank(), rank);
        ladder::law_placed_value_at(without, pair.0, pair.1, rank);
    }
}

/// In a side that was filled from pairs the last pair of a price counts.
pub proof fn law_from_pairs(pairs: Side, k: int)
    requires
        0 <= k < pairs.len(),
        forall|j: int|
            k < j < pairs.len() ==> (#[trigger] pairs[j]).0.rank() != pairs[k].0.rank(),
    ensures
        ladder::ascending(from_pairs_spec(pairs)),
        ladder::value_at(from_pairs_spec(pairs), pairs[k].0.rank()) == Some(pairs[k].1),
    decreases pairs.len(),
{
    let n = pairs.len() - 1;
    lemma_from_pairs(pairs, pairs[k].0.rank());
    assert(pairs.last() == pairs[n]);
    if k < n {
        let front = pairs.drop_last();
        assert(front[k] == pairs[k]);
        assert forall|j: int| k < j < front.len() implies (#[trigger] front[j]).0.rank()
            != front[k].0.rank() by {
            assert(front[j] == pairs[j]);
        }
        law_from_pairs(front, k);
    }
}

/// A side that was filled from pairs holds no price that none of them names.
pub proof fn law_from_pairs_holds_no_more(pairs: Side, rank: int)
    requires
        forall|j: int| 0 <= j < pairs.len() ==> (#[trigger] pairs[j]).0.rank() != rank,
    ensures
        ladder::value_at(from_pairs_spec(pairs), rank) is None,
    decreases pairs.len(),
{
    lemma_from_pairs(pairs, rank);
    if pairs.len() > 0 {
        let front = pairs.drop_last();
        assert(pairs.last() == pairs[pairs.len() - 1]);
        assert forall|j: int| 0 <= j < front.len() implies (#[trigger] front[j]).0.rank()
            != rank by {
            assert(front[j] == pairs[j]);
        }
        law_from_pairs_holds_no_more(front, rank);
    }
}

/// A side that is written out as pairs and read back is the same side.
pub proof fn law_pairs_round_trip(side: Side)
    requires
        ladder::ascending(side),
    ensures
        from_pairs_spec(side) == side,
    decreases side.len(),
{
    if side.len() > 0 {
        let earlier = side.drop_last();
        let pair = side.last();
        assert(ladder::ascending(earlier)) by {
            assert forall|i: int| 0 <= i < earlier.len() implies (
            #[trigger] earlier[i]).0.valid() by {
                assert(earlier[i] == side[i]);
            }
            assert forall|i: int, j: int| 0 <= i < j < earlier.len() implies (
            #[trigger] earlier[i]).0.rank() < (#[trigger] earlier[j]).0.rank() by {
                assert(earlier[i] == side[i] && earlier[j] == side[j]);
            }
        }
        law_pairs_round_trip(earlier);
        let n = earlier.len() as int;
        assert(ladder::splits(earlier, pair.0.rank(), n)) by {
            assert forall|j: int| 0 <= j < n implies (#[trigger] earlier[j]).0.rank()
                < pair.0.rank() by {
                assert(earlier[j] == side[j]);
                assert(side[j].0.rank() < side[n].0.rank());
            }
        }
        ladder::lemma_slot(earlier, pair.0.rank(), n);
        assert(earlier.insert(n, pair) =~= side);
    } else {
        assert(side =~= Seq::empty());
    }
}

/// The book's next message is refused unless it is for the same instrument and follows the last
/// one, or names none that it follows.
pub proof fn law_messages_follow_each_other(book: OrderBook, next: OrderBookUpdate)
    ensures
        refusal(book, next) is None <==> next.instrument_name@ == book.instrument_name@ && (
        next.prev_change_id is None || next.prev_change_id == Some(book.change_id)),
{
}

/// Books that hold the same agree in both sides, the instrument and the change id.
pub proof fn law_same_book(a: OrderBook, b: OrderBook)
    requires
        a.same_as(&b),
    ensures
        a.bids@ == b.bids@,
        a.asks@ == b.asks@,
        a.instrument_name@ == b.instrument_name@,
        a.change_id == b.change_id,
        a.state() == b.state(),
{
}

/// An action, a price and an amount are read as the message has them.
pub proof fn law_change_read(change: Seq<Json>, changes: Seq<Vec<Json>>, i: int)
    ensures
        change_of(change).len() == change.len(),
        0 <= i < change.len() ==> change_of(change)[i] == change[i]@,
        changes_of(changes).len() == changes.len(),
        0 <= i < changes.len() ==> changes_of(changes)[i] == change_of(changes[i]@),
{
}

} // verus!

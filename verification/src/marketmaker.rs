//! The market maker: what it does about each event, and what its formulas start from.

use vstd::prelude::*;

use crate::binary64::Binary64;
use crate::instrument_names::Instrument;
use crate::json;
use crate::json::{parse_json, Json, JsonModel};
use crate::oms;
use crate::oms::{OMSUpdate, Order, OrderManagementSystem, OrderState};
use crate::oms_model;
use crate::oms_model::{OmsModel, UpdateModel};
use crate::order_book;
use crate::order_book::OrderBook;
use crate::orderhandler;
use crate::orderhandler::{OrderError, OrderMessage, OrderPlan, OrderType, Trade};
use crate::seqs;
use crate::string_map;
use crate::string_map::StringMap;
use crate::text::same_text;

verus! {

/// The tick size in USD: 2.5.
pub const TICK_SIZE: u64 = 0x4004000000000000;

/// The smallest order in USD, one contract: 10.
pub const CONTRACT_SIZE: u64 = 0x4024000000000000;

/// How far the reservation price moves before the quotes are replaced, in USD: sixteen ticks.
pub const REQUOTE_DISTANCE: u64 = 0x4044000000000000;

/// The size that a change of the position has to exceed to take the quotes off the book: 0.1.
pub const BASE_ORDER_SIZE: u64 = 0x3FB999999999999A;

/// The size that a change of the position has to exceed to count as one: 0.0001.
pub const POSITION_TOLERANCE: u64 = 0x3F1A36E2EB1C432D;

/// The largest finite number, which stands for the best ask of a book without asks.
pub const NO_ASK: u64 = 0x7FEFFFFFFFFFFFFF;

/// How many levels of each side the imbalance is taken over.
pub const IMBALANCE_DEPTH: usize = 5;

/// What the operator sets.
#[derive(Clone, Copy, Debug)]
pub struct Parameters {
    pub risk_aversion: Binary64,
    pub book_depth: usize,
}

#[derive(Clone, Copy, Debug, PartialEq, Eq, Structural)]
pub enum MarketMakerState {
    WaitingForFeeds,
    Quoting,
    WaitingForEvent,
    CancelQuotes,
    Filled,
}

/// Why a number could not be read from a text.
#[derive(Clone, Copy, Debug, PartialEq, Eq, Structural)]
pub enum ReadError {
    /// The text is no JSON.
    Unreadable,
    /// The field is not there, or is no number.
    Missing,
}

/// Why the market maker stops.
#[derive(Clone, Copy, Debug, PartialEq, Eq, Structural)]
pub enum MarketMakerError {
    InstrumentNotFound,
    CancelNotSent,
    CancelAfterFillNotSent,
    NoFreshOrderBook,
}

impl MarketMakerError {
    pub open spec fn text(self) -> Seq<char> {
        match self {
            MarketMakerError::InstrumentNotFound => "Instrument not found"@,
            MarketMakerError::CancelNotSent => "Failed to send cancel all orders message"@,
            MarketMakerError::CancelAfterFillNotSent => "Failed to send cancel message after fill"@,
            MarketMakerError::NoFreshOrderBook => "Failed to get fresh order book"@,
        }
    }

    pub fn message(self) -> (r: &'static str)
        ensures
            r@ == self.text(),
            self is InstrumentNotFound ==> r@ == "Instrument not found"@,
            self is CancelNotSent ==> r@ == "Failed to send cancel all orders message"@,
            self is CancelAfterFillNotSent ==> r@ == "Failed to send cancel message after fill"@,
            self is NoFreshOrderBook ==> r@ == "Failed to get fresh order book"@,
    {
        match self {
            MarketMakerError::InstrumentNotFound => "Instrument not found",
            MarketMakerError::CancelNotSent => "Failed to send cancel all orders message",
            MarketMakerError::CancelAfterFillNotSent => "Failed to send cancel message after fill",
            MarketMakerError::NoFreshOrderBook => "Failed to get fresh order book",
        }
    }
}

/// What comes in while the feeds are awaited.
#[derive(Debug)]
pub enum Feed {
    /// A book, by its instrument.
    OrderBook(String),
    Portfolio(String),
    Volatility(String),
    /// All channels are closed.
    Closed,
}

#[derive(Clone, Copy, Debug, PartialEq, Eq, Structural)]
pub enum FeedStep {
    KeepWaiting,
    /// Every feed has come in: set up the position, then quote.
    AllFeedsIn,
    Closed,
}

/// What comes in while the quotes rest on the book.
#[derive(Debug)]
pub enum MarketEvent {
    /// A book under which the reservation price is this far from where it was.
    OrderBook(Binary64),
    Portfolio(String),
    Volatility(String),
    Oms(OMSUpdate),
    /// All channels are closed.
    Closed,
}

#[derive(Clone, Copy, Debug, PartialEq, Eq, Structural)]
pub enum EventStep {
    KeepWaiting,
    /// Go on in the new state.
    Leave,
    /// Add this to the position, and go on in the new state.
    LeaveAfterTrade(Binary64),
    Closed,
}

/// What the quotes are calculated from.
#[derive(Debug)]
pub struct QuoteBasis {
    pub expiration_timestamp: i64,
    /// The prices whose mean is the mid price. Without them it is zero.
    pub mid: Option<(Binary64, Binary64)>,
    /// The amounts that the imbalance is taken over.
    pub bid_volumes: Vec<Binary64>,
    pub ask_volumes: Vec<Binary64>,
    /// The amounts whose sum is the liquidity.
    pub bid_liquidity: Vec<Binary64>,
    pub ask_liquidity: Vec<Binary64>,
    pub best_bid: Binary64,
    pub best_ask: Binary64,
}

/// What the reservation price is calculated from, beside the inventory and the volatility.
#[derive(Clone, Copy, Debug, PartialEq, Eq)]
pub struct ReservationBasis {
    pub expiration_timestamp: i64,
    pub mid: Option<(Binary64, Binary64)>,
}

/// Which of two quotes reach the other side of the book.
#[derive(Clone, Copy, Debug, PartialEq, Eq, Structural)]
pub struct Crossing {
    /// The bid is to go one tick below the best ask.
    pub bid: bool,
    /// The ask is to go one tick above the best bid.
    pub ask: bool,
}

pub struct MarketMaker {
    pub instruments: StringMap<Instrument>,
    pub parameters: Parameters,
    pub delta_total: Binary64,
    pub current_volatility: Binary64,
    pub state: MarketMakerState,
    pub has_order_book: bool,
    pub has_portfolio: bool,
    pub has_volatility: bool,
    pub last_reservation_price: Binary64,
    pub current_instrument: String,
    pub current_position: Binary64,
    /// What a significant change of the position exceeds.
    pub base_order_size: Binary64,
}

/// The number in a field of a JSON value.
pub open spec fn number_at(json: Option<JsonModel>, key: Seq<char>) -> Result<Binary64, ReadError> {
    match json {
        Some(value) => match value.member(key) {
            Some(field) => match field.float() {
                Some(number) => Ok(number),
                None => Err(ReadError::Missing),
            },
            None => Err(ReadError::Missing),
        },
        None => Err(ReadError::Unreadable),
    }
}

/// A number after a reading of it.
pub open spec fn refreshed(number: Binary64, reading: Result<Binary64, ReadError>) -> Binary64 {
    match reading {
        Ok(new) => new,
        Err(_) => number,
    }
}

/// What a JSON value holds.
pub open spec fn held(json: Option<Json>) -> Option<JsonModel> {
    match json {
        Some(value) => Some(value@),
        None => None,
    }
}

/// The number in a field of a JSON value.
pub fn number_in(json: &Option<Json>, key: &str) -> (r: Result<Binary64, ReadError>)
    ensures
        r == number_at(held(*json), key@),
{
    match json {
        Some(value) => match value.member(key) {
            Some(field) => match field.float() {
                Some(number) => Ok(number),
                None => Err(ReadError::Missing),
            },
            None => Err(ReadError::Missing),
        },
        None => Err(ReadError::Unreadable),
    }
}

/// What a trade adds to the position.
pub open spec fn trade_change(trade: Trade) -> Binary64 {
    if trade.direction@ == "buy"@ {
        trade.amount
    } else {
        trade.amount.negated_spec()
    }
}

fn change_by_trade(trade: &Trade) -> (r: Binary64)
    ensures
        r == trade_change(*trade),
{
    if same_text(trade.direction.as_str(), "buy") {
        trade.amount
    } else {
        trade.amount.negated()
    }
}

/// The message that cancels all orders.
pub open spec fn cancel_message_of(instrument: String) -> OrderMessage {
    OrderMessage {
        instrument_name: instrument,
        order_type: OrderType::CancelAll,
        amount: None,
        price: None,
        is_buy: None,
    }
}

/// The message that places a quote.
pub open spec fn quote_message_of(
    instrument: String,
    is_buy: bool,
    price: Binary64,
    size: Binary64,
) -> OrderMessage {
    OrderMessage {
        instrument_name: instrument,
        order_type: OrderType::Limit,
        amount: Some(size.max_spec(Binary64 { bits: CONTRACT_SIZE })),
        price: Some(price),
        is_buy: Some(is_buy),
    }
}

/// The highest bid, or zero.
pub open spec fn bid_or_zero(book: OrderBook) -> Binary64 {
    if book.bids@.len() > 0 {
        book.bids@.last().0
    } else {
        Binary64::zero_spec()
    }
}

/// The lowest ask, or what stands for it.
pub open spec fn ask_or(book: OrderBook, default: Binary64) -> Binary64 {
    if book.asks@.len() > 0 {
        book.asks@[0].0
    } else {
        default
    }
}

/// The best prices, where both are above zero.
pub open spec fn mid_prices(book: OrderBook) -> Option<(Binary64, Binary64)> {
    let bid = bid_or_zero(book);
    let ask = ask_or(book, Binary64::zero_spec());
    if Binary64::zero_spec().lt_spec(bid) && Binary64::zero_spec().lt_spec(ask) {
        Some((bid, ask))
    } else {
        None
    }
}

impl MarketMaker {
    /// Whether the exchange lists this instrument.
    pub open spec fn lists(&self, instrument: Seq<char>) -> bool {
        self.instruments@.dom().contains(instrument)
    }

    /// While quotes rest on the book or are filled, their instrument is a listed one.
    pub open spec fn wf(&self) -> bool {
        &&& self.instruments.wf()
        &&& (self.state is WaitingForEvent || self.state is Filled) ==> self.lists(
            self.current_instrument@,
        )
    }

    /// The market maker after a feed came in.
    pub open spec fn after_feed(self, feed: Feed) -> MarketMaker {
        match feed {
            Feed::OrderBook(instrument) => MarketMaker {
                current_instrument: instrument,
                has_order_book: true,
                ..self
            },
            Feed::Portfolio(data) => MarketMaker {
                delta_total: refreshed(
                    self.delta_total,
                    number_at(json::json_in(data@), "delta_total"@),
                ),
                has_portfolio: true,
                ..self
            },
            Feed::Volatility(data) => MarketMaker {
                current_volatility: refreshed(
                    self.current_volatility,
                    number_at(json::json_in(data@), "volatility"@),
                ),
                has_volatility: true,
                ..self
            },
            Feed::Closed => self,
        }
    }

    /// Whether every feed has come in.
    pub open spec fn fed(self) -> bool {
        self.has_order_book && self.has_portfolio && self.has_volatility
    }

    /// Whether this is what the quotes for the book are calculated from.
    pub open spec fn is_basis(self, basis: QuoteBasis, book: OrderBook) -> bool {
        &&& basis.expiration_timestamp
            == self.instruments@[book.instrument_name@].expiration_timestamp
        &&& basis.mid == mid_prices(book)
        &&& basis.bid_volumes@ == order_book::highest_amounts(book.bids@, IMBALANCE_DEPTH as nat)
        &&& basis.ask_volumes@ == order_book::lowest_amounts(book.asks@, IMBALANCE_DEPTH as nat)
        &&& basis.bid_liquidity@ == order_book::highest_amounts(
            book.bids@,
            self.parameters.book_depth as nat,
        )
        &&& basis.ask_liquidity@ == order_book::lowest_amounts(
            book.asks@,
            self.parameters.book_depth as nat,
        )
        &&& basis.best_bid == bid_or_zero(book)
        &&& basis.best_ask == ask_or(book, Binary64 { bits: NO_ASK })
    }

    /// Whether this is what comes of a calculation of the quotes for the book.
    pub open spec fn quotes_from(
        self,
        outcome: Result<QuoteBasis, MarketMakerError>,
        book: OrderBook,
    ) -> bool {
        if self.lists(book.instrument_name@) {
            outcome matches Ok(basis) && self.is_basis(basis, book)
        } else {
            outcome == Err::<QuoteBasis, MarketMakerError>(MarketMakerError::InstrumentNotFound)
        }
    }

    /// The market maker after an event, but for the position.
    pub open spec fn after_event(self, event: MarketEvent) -> MarketMaker {
        match event {
            MarketEvent::OrderBook(drift) => if drift.ge_spec(
                Binary64 { bits: REQUOTE_DISTANCE },
            ) {
                MarketMaker { state: MarketMakerState::CancelQuotes, ..self }
            } else {
                self
            },
            MarketEvent::Portfolio(data) => MarketMaker {
                delta_total: refreshed(
                    self.delta_total,
                    number_at(json::json_in(data@), "delta_total"@),
                ),
                ..self
            },
            MarketEvent::Volatility(data) => MarketMaker {
                current_volatility: refreshed(
                    self.current_volatility,
                    number_at(json::json_in(data@), "volatility"@),
                ),
                ..self
            },
            MarketEvent::Oms(update) => if tells_of_fill(update@) {
                MarketMaker { state: MarketMakerState::Filled, ..self }
            } else {
                self
            },
            MarketEvent::Closed => self,
        }
    }

    pub fn new(instruments: StringMap<Instrument>, parameters: Parameters) -> (r: Self)
        requires
            instruments.wf(),
        ensures
            r.wf(),
            r.instruments == instruments,
            r.parameters == parameters,
            r.delta_total == Binary64::zero_spec(),
            r.current_volatility == Binary64::zero_spec(),
            r.state is WaitingForFeeds,
            !r.has_order_book,
            !r.has_portfolio,
            !r.has_volatility,
            r.last_reservation_price == Binary64::zero_spec(),
            r.current_instrument@ == ""@,
            r.current_position == Binary64::zero_spec(),
            r.base_order_size == (Binary64 { bits: BASE_ORDER_SIZE }),
            r.base_order_size.bits == 0x3fb9_9999_9999_999a,
    {
        MarketMaker {
            instruments,
            parameters,
            delta_total: Binary64::zero(),
            current_volatility: Binary64::zero(),
            state: MarketMakerState::WaitingForFeeds,
            has_order_book: false,
            has_portfolio: false,
            has_volatility: false,
            last_reservation_price: Binary64::zero(),
            current_instrument: "".to_string(),
            current_position: Binary64::zero(),
            base_order_size: Binary64 { bits: BASE_ORDER_SIZE },
        }
    }

    /// Takes in a feed.
    pub fn handle_waiting_for_feeds(&mut self, feed: Feed) -> (r: FeedStep)
        requires
            old(self).wf(),
            old(self).state is WaitingForFeeds,
        ensures
            final(self).wf(),
            *final(self) == old(self).after_feed(feed),
            r == (if feed is Closed {
                FeedStep::Closed
            } else if final(self).fed() {
                FeedStep::AllFeedsIn
            } else {
                FeedStep::KeepWaiting
            }),
    {
        match feed {
            Feed::OrderBook(instrument) => {
                self.current_instrument = instrument;
                self.has_order_book = true;
            },
            Feed::Portfolio(data) => {
                let _ = self.update_delta_total(data.as_str());
                self.has_portfolio = true;
            },
            Feed::Volatility(data) => {
                let _ = self.update_volatility(data.as_str());
                self.has_volatility = true;
            },
            Feed::Closed => {
                return FeedStep::Closed;
            },
        }
        if self.has_order_book && self.has_portfolio && self.has_volatility {
            FeedStep::AllFeedsIn
        } else {
            FeedStep::KeepWaiting
        }
    }

    /// Takes over the position that the exchange reports at the start.
    pub fn initialize_position(&mut self, position: Binary64)
        requires
            old(self).wf(),
        ensures
            final(self).wf(),
            *final(self) == (MarketMaker { current_position: position, ..*old(self) }),
    {
        self.current_position = position;
    }

    /// Goes on to quote once every feed has come in and the position is known.
    pub fn start_quoting(&mut self)
        requires
            old(self).wf(),
            old(self).state is WaitingForFeeds,
            old(self).fed(),
        ensures
            final(self).wf(),
            *final(self) == (MarketMaker { state: MarketMakerState::Quoting, ..*old(self) }),
    {
        self.state = MarketMakerState::Quoting;
    }

    /// Takes in a book to quote on, and says what the quotes are calculated from.
    pub fn handle_quoting(&mut self, order_book: &OrderBook) -> (r: Result<
        QuoteBasis,
        MarketMakerError,
    >)
        requires
            old(self).wf(),
            old(self).state is Quoting,
        ensures
            final(self).wf(),
            *final(self) == (MarketMaker {
                current_instrument: order_book.instrument_name,
                ..*old(self)
            }),
            old(self).quotes_from(r, *order_book),
    {
        self.current_instrument = order_book.instrument_name.clone();
        self.calculate_quotes(order_book)
    }

    /// The quotes rest on the book, and this is the reservation price that they were made at.
    pub fn quotes_placed(&mut self, reservation_price: Binary64)
        requires
            old(self).wf(),
            old(self).state is Quoting || old(self).state is Filled,
            old(self).lists(old(self).current_instrument@),
        ensures
            final(self).wf(),
            *final(self) == (MarketMaker {
                last_reservation_price: reservation_price,
                state: MarketMakerState::WaitingForEvent,
                ..*old(self)
            }),
    {
        self.last_reservation_price = reservation_price;
        self.state = MarketMakerState::WaitingForEvent;
    }

    /// Takes in an event while the quotes rest on the book.
    pub fn handle_waiting_for_event(&mut self, event: MarketEvent) -> (r: EventStep)
        requires
            old(self).wf(),
            old(self).state is WaitingForEvent,
        ensures
            final(self).wf(),
            *final(self) == old(self).after_event(event),
            r == (match event {
                MarketEvent::Closed => EventStep::Closed,
                MarketEvent::Oms(OMSUpdate::NewTrade(trade)) => EventStep::LeaveAfterTrade(
                    trade_change(trade),
                ),
                _ => if final(self).state is WaitingForEvent {
                    EventStep::KeepWaiting
                } else {
                    EventStep::Leave
                },
            }),
            event matches MarketEvent::Oms(OMSUpdate::OrderStateChanged(_, state)) ==> match state {
                OrderState::Filled => r is Leave && *final(self) == (MarketMaker {
                    state: MarketMakerState::Filled,
                    ..*old(self)
                }),
                OrderState::Open | OrderState::Canceled | OrderState::Rejected
                | OrderState::Expired => r is KeepWaiting && *final(self) == *old(self),
            },
            event matches MarketEvent::Oms(OMSUpdate::OrderFilled(_)) ==> r is Leave
                && final(self).state is Filled,
            event matches MarketEvent::Oms(OMSUpdate::OrderPartiallyFilled(_)) ==> r is Leave
                && final(self).state is Filled,
            event matches MarketEvent::Oms(OMSUpdate::NewTrade(_)) ==> final(self).state is Filled,
            event matches MarketEvent::Oms(OMSUpdate::NewTrade(trade)) ==> r == EventStep::LeaveAfterTrade(
                if trade.direction@ == "buy"@ {
                    trade.amount
                } else {
                    trade.amount.negated_spec()
                },
            ),
    {
        match event {
            MarketEvent::OrderBook(drift) => {
                if drift.ge(Binary64 { bits: REQUOTE_DISTANCE }) {
                    self.state = MarketMakerState::CancelQuotes;
                    return EventStep::Leave;
                }
                EventStep::KeepWaiting
            },
            MarketEvent::Portfolio(data) => {
                let _ = self.update_delta_total(data.as_str());
                EventStep::KeepWaiting
            },
            MarketEvent::Volatility(data) => {
                let _ = self.update_volatility(data.as_str());
                EventStep::KeepWaiting
            },
            MarketEvent::Oms(update) => match update {
                OMSUpdate::OrderFilled(_) => {
                    self.state = MarketMakerState::Filled;
                    EventStep::Leave
                },
                OMSUpdate::OrderPartiallyFilled(_) => {
                    self.state = MarketMakerState::Filled;
                    EventStep::Leave
                },
                OMSUpdate::NewTrade(trade) => {
                    self.state = MarketMakerState::Filled;
                    EventStep::LeaveAfterTrade(change_by_trade(&trade))
                },
                OMSUpdate::OrderStateChanged(_, new_state) => {
                    if new_state == OrderState::Filled {
                        self.state = MarketMakerState::Filled;
                        EventStep::Leave
                    } else {
                        EventStep::KeepWaiting
                    }
                },
            },
            MarketEvent::Closed => EventStep::Closed,
        }
    }

    /// The message that cancels all orders.
    pub fn cancel_message(&self) -> (r: OrderMessage)
        ensures
            r == cancel_message_of(self.current_instrument),
            r.order_type is CancelAll,
            r.instrument_name@ == self.current_instrument@,
    {
        OrderMessage {
            instrument_name: self.current_instrument.clone(),
            order_type: OrderType::CancelAll,
            amount: None,
            price: None,
            is_buy: None,
        }
    }

    /// Goes back to quoting once the message that cancels all orders was sent.
    pub fn handle_cancel_quotes(&mut self, sent: bool) -> (r: Result<(), MarketMakerError>)
        requires
            old(self).wf(),
            old(self).state is CancelQuotes,
        ensures
            final(self).wf(),
            sent ==> r is Ok && *final(self) == (MarketMaker {
                state: MarketMakerState::Quoting,
                ..*old(self)
            }),
            !sent ==> r == Err::<(), MarketMakerError>(MarketMakerError::CancelNotSent),
            !sent ==> *final(self) == *old(self),
    {
        if sent {
            self.state = MarketMakerState::Quoting;
            Ok(())
        } else {
            Err(MarketMakerError::CancelNotSent)
        }
    }

    /// Takes in what is known after a fill, and says what the new quotes are calculated from:
    /// whether the message that cancels all orders was sent, the position that the exchange
    /// reports, the next book, and the account and volatility data that have piled up.
    pub fn handle_filled(
        &mut self,
        cancel_sent: bool,
        position: Option<Binary64>,
        order_book: Option<&OrderBook>,
        portfolios: &Vec<String>,
        volatilities: &Vec<String>,
    ) -> (r: Result<QuoteBasis, MarketMakerError>)
        requires
            old(self).wf(),
            old(self).state is Filled,
        ensures
            final(self).wf(),
            !cancel_sent ==> r == Err::<QuoteBasis, MarketMakerError>(
                MarketMakerError::CancelAfterFillNotSent,
            ) && *final(self) == *old(self),
            cancel_sent && order_book is None ==> r == Err::<QuoteBasis, MarketMakerError>(
                MarketMakerError::NoFreshOrderBook,
            ) && *final(self) == (MarketMaker {
                current_position: position.unwrap_or(old(self).current_position),
                ..*old(self)
            }),
            cancel_sent && order_book is Some ==> old(self).quotes_from(r, *order_book->0)
                && *final(self) == (MarketMaker {
                current_position: position.unwrap_or(old(self).current_position),
                delta_total: last_reading(
                    old(self).delta_total,
                    seqs::texts(portfolios@),
                    "delta_total"@,
                ),
                current_volatility: last_reading(
                    old(self).current_volatility,
                    seqs::texts(volatilities@),
                    "volatility"@,
                ),
                ..*old(self)
            }),
            final(self).state is Filled,
            r is Ok <==> cancel_sent && order_book is Some && old(self).lists(
                order_book->0.instrument_name@,
            ),
            cancel_sent && position is Some ==> final(self).current_position == position->0,
            !cancel_sent || position is None ==> final(self).current_position
                == old(self).current_position,
    {
        if !cancel_sent {
            return Err(MarketMakerError::CancelAfterFillNotSent);
        }
        if let Some(size) = position {
            self.current_position = size;
        }
        match order_book {
            Some(book) => {
                self.catch_up(portfolios, volatilities);
                self.calculate_quotes(book)
            },
            None => Err(MarketMakerError::NoFreshOrderBook),
        }
    }

    /// Takes in the account and volatility data that have piled up.
    fn catch_up(&mut self, portfolios: &Vec<String>, volatilities: &Vec<String>)
        ensures
            *final(self) == (MarketMaker {
                delta_total: last_reading(
                    old(self).delta_total,
                    seqs::texts(portfolios@),
                    "delta_total"@,
                ),
                current_volatility: last_reading(
                    old(self).current_volatility,
                    seqs::texts(volatilities@),
                    "volatility"@,
                ),
                ..*old(self)
            }),
    {
        let ghost all = seqs::texts(portfolios@);
        let n: usize = portfolios.len();
        for i in 0..n
            invariant
                n == portfolios@.len(),
                all == seqs::texts(portfolios@),
                *self == (MarketMaker {
                    delta_total: last_reading(
                        old(self).delta_total,
                        all.take(i as int),
                        "delta_total"@,
                    ),
                    ..*old(self)
                }),
        {
            assert(all.take(i + 1).drop_last() == all.take(i as int));
            let _ = self.update_delta_total(portfolios[i].as_str());
        }
        assert(all.take(n as int) == all);
        let ghost midway = *self;
        let ghost all = seqs::texts(volatilities@);
        let n: usize = volatilities.len();
        for i in 0..n
            invariant
                n == volatilities@.len(),
                all == seqs::texts(volatilities@),
                *self == (MarketMaker {
                    current_volatility: last_reading(
                        midway.current_volatility,
                        all.take(i as int),
                        "volatility"@,
                    ),
                    ..midway
                }),
        {
            assert(all.take(i + 1).drop_last() == all.take(i as int));
            let _ = self.update_volatility(volatilities[i].as_str());
        }
        assert(all.take(n as int) == all);
    }

    /// What the quotes for a book are calculated from.
    pub fn calculate_quotes(&self, order_book: &OrderBook) -> (r: Result<
        QuoteBasis,
        MarketMakerError,
    >)
        requires
            self.instruments.wf(),
        ensures
            self.quotes_from(r, *order_book),
    {
        let instrument = match self.instruments.get(order_book.instrument_name.as_str()) {
            Some(instrument) => instrument,
            None => {
                return Err(MarketMakerError::InstrumentNotFound);
            },
        };
        let (bid_volumes, ask_volumes) = self.get_volume_imbalance(order_book, IMBALANCE_DEPTH);
        let (bid_liquidity, ask_liquidity) = self.calculate_order_book_liquidity(order_book);
        let best_bid = match order_book.best_bid() {
            Some(price) => price,
            None => Binary64::zero(),
        };
        let best_ask = match order_book.best_ask() {
            Some(price) => price,
            None => Binary64 { bits: NO_ASK },
        };
        Ok(
            QuoteBasis {
                expiration_timestamp: instrument.expiration_timestamp,
                mid: self.calculate_mid_price(order_book),
                bid_volumes,
                ask_volumes,
                bid_liquidity,
                ask_liquidity,
                best_bid,
                best_ask,
            },
        )
    }

    /// Whether the instrument that is quoted is a listed one.
    pub fn quotes_listed_instrument(&self) -> (r: bool)
        requires
            self.instruments.wf(),
        ensures
            r == self.lists(self.current_instrument@),
    {
        self.instruments.contains_key(self.current_instrument.as_str())
    }

    /// What the reservation price under a book is calculated from.
    pub fn reservation_basis(&self, order_book: &OrderBook) -> (r: ReservationBasis)
        requires
            self.instruments.wf(),
            self.lists(self.current_instrument@),
        ensures
            r == (ReservationBasis {
                expiration_timestamp: self.instruments@[self.current_instrument@].expiration_timestamp,
                mid: mid_prices(*order_book),
            }),
    {
        let mid = self.calculate_mid_price(order_book);
        match self.instruments.get(self.current_instrument.as_str()) {
            Some(instrument) => ReservationBasis {
                expiration_timestamp: instrument.expiration_timestamp,
                mid,
            },
            None => {
                assert(false);
                ReservationBasis { expiration_timestamp: 0, mid }
            },
        }
    }

    /// The inventory that the reservation price is calculated from: the delta of the account while
    /// quoting, else the position.
    pub fn reservation_inventory(&self) -> (r: Binary64)
        ensures
            r == (if self.state is Quoting {
                self.delta_total
            } else {
                self.current_position
            }),
    {
        match self.state {
            MarketMakerState::Quoting => self.delta_total,
            _ => self.current_position,
        }
    }

    /// The prices whose mean is the mid price: the best bid and ask, where both are above zero.
    /// Without them the mid price is zero.
    pub fn calculate_mid_price(&self, order_book: &OrderBook) -> (r: Option<(Binary64, Binary64)>)
        ensures
            r == mid_prices(*order_book),
    {
        let best_bid = match order_book.best_bid() {
            Some(price) => price,
            None => Binary64::zero(),
        };
        let best_ask = match order_book.best_ask() {
            Some(price) => price,
            None => Binary64::zero(),
        };
        if best_bid.gt(Binary64::zero()) && best_ask.gt(Binary64::zero()) {
            Some((best_bid, best_ask))
        } else {
            None
        }
    }

    /// The amounts at the best levels of both sides, over the depth that the operator sets. The
    /// liquidity is their sum.
    pub fn calculate_order_book_liquidity(&self, order_book: &OrderBook) -> (r: (
        Vec<Binary64>,
        Vec<Binary64>,
    ))
        ensures
            r.0@ == order_book::highest_amounts(
                order_book.bids@,
                self.parameters.book_depth as nat,
            ),
            r.1@ == order_book::lowest_amounts(order_book.asks@, self.parameters.book_depth as nat),
    {
        self.get_volume_imbalance(order_book, self.parameters.book_depth)
    }

    /// The amounts at the best `depth` levels of both sides.
    pub fn get_volume_imbalance(&self, order_book: &OrderBook, depth: usize) -> (r: (
        Vec<Binary64>,
        Vec<Binary64>,
    ))
        ensures
            r.0@ == order_book::highest_amounts(order_book.bids@, depth as nat),
            r.1@ == order_book::lowest_amounts(order_book.asks@, depth as nat),
    {
        (order_book.top_bid_amounts(depth), order_book.top_ask_amounts(depth))
    }

    /// Which of two quotes reach the other side of the book.
    pub fn crossing(&self, basis: &QuoteBasis, bid_price: Binary64, ask_price: Binary64) -> (r:
        Crossing)
        ensures
            r.bid == bid_price.ge_spec(basis.best_ask),
            r.ask == basis.best_bid.ge_spec(ask_price),
    {
        Crossing { bid: bid_price.ge(basis.best_ask), ask: basis.best_bid.ge(ask_price) }
    }

    /// The messages that place two quotes, whose prices are on the tick and whose sizes are whole
    /// contracts: the bid, then the ask. No size is below one contract.
    pub fn place_quotes(
        &self,
        order_book: &OrderBook,
        bid: Binary64,
        ask: Binary64,
        bid_size: Binary64,
        ask_size: Binary64,
    ) -> (r: (OrderMessage, OrderMessage))
        ensures
            r.0 == quote_message_of(order_book.instrument_name, true, bid, bid_size),
            r.1 == quote_message_of(order_book.instrument_name, false, ask, ask_size),
            r.0.order_type is Limit && r.1.order_type is Limit,
            r.0.is_buy == Some(true) && r.1.is_buy == Some(false),
            r.0.price == Some(bid) && r.1.price == Some(ask),
            r.0.instrument_name@ == order_book.instrument_name@,
            r.1.instrument_name@ == order_book.instrument_name@,
    {
        (
            OrderMessage {
                instrument_name: order_book.instrument_name.clone(),
                order_type: OrderType::Limit,
                is_buy: Some(true),
                amount: Some(bid_size.max(Binary64 { bits: CONTRACT_SIZE })),
                price: Some(bid),
            },
            OrderMessage {
                instrument_name: order_book.instrument_name.clone(),
                order_type: OrderType::Limit,
                is_buy: Some(false),
                amount: Some(ask_size.max(Binary64 { bits: CONTRACT_SIZE })),
                price: Some(ask),
            },
        )
    }

    /// Whether an active order is a filled one. None ever is: active are the open ones.
    pub fn check_orders_filled(&self, system: &OrderManagementSystem) -> (r: bool)
        requires
            system.wf(),
        ensures
            !r,
    {
        let orders = system.get_active_orders();
        let ghost active = oms::lent(orders@);
        proof {
            reveal_strlit("open");
            reveal_strlit("filled");
            assert("open"@.len() != "filled"@.len());
            assert forall|i: int| 0 <= i < active.len() implies (
            #[trigger] active[i]).state@ == "open"@ by {
                let all = string_map::values_of(system.info_listing());
                seqs::lemma_filter_members(all, oms::is_active(), active[i]);
                assert(active.contains(active[i]));
            }
        }
        let n: usize = orders.len();
        for i in 0..n
            invariant
                n == orders@.len(),
                active == oms::lent(orders@),
                "open"@ != "filled"@,
                forall|i: int|
                    0 <= i < active.len() ==> (#[trigger] active[i]).state@ == "open"@,
        {
            let order = orders[i];
            assert(active[i as int] == *order);
            if same_text(order.state.as_str(), "filled") {
                return true;
            }
        }
        false
    }

    /// Takes over the delta that a text tells of, where it can be read.
    pub fn update_delta_total(&mut self, portfolio_data: &str) -> (r: Result<(), ReadError>)
        ensures
            *final(self) == (MarketMaker {
                delta_total: refreshed(
                    old(self).delta_total,
                    number_at(json::json_in(portfolio_data@), "delta_total"@),
                ),
                ..*old(self)
            }),
            r is Ok <==> number_at(json::json_in(portfolio_data@), "delta_total"@) is Ok,
            r matches Err(error) ==> number_at(json::json_in(portfolio_data@), "delta_total"@)
                == Err::<Binary64, ReadError>(error),
    {
        let json = parse_json(portfolio_data);
        self.take_delta_total(&json)
    }

    /// Takes over the delta in a JSON value, where it is there.
    pub fn take_delta_total(&mut self, json: &Option<Json>) -> (r: Result<(), ReadError>)
        ensures
            *final(self) == (MarketMaker {
                delta_total: refreshed(
                    old(self).delta_total,
                    number_at(held(*json), "delta_total"@),
                ),
                ..*old(self)
            }),
            r is Ok <==> number_at(held(*json), "delta_total"@) is Ok,
            r matches Err(error) ==> number_at(held(*json), "delta_total"@) == Err::<
                Binary64,
                ReadError,
            >(error),
    {
        match number_in(json, "delta_total") {
            Ok(delta_total) => {
                self.delta_total = delta_total;
                Ok(())
            },
            Err(error) => Err(error),
        }
    }

    /// Takes over the volatility that a text tells of, where it can be read.
    pub fn update_volatility(&mut self, volatility_data: &str) -> (r: Result<(), ReadError>)
        ensures
            *final(self) == (MarketMaker {
                current_volatility: refreshed(
                    old(self).current_volatility,
                    number_at(json::json_in(volatility_data@), "volatility"@),
                ),
                ..*old(self)
            }),
            r is Ok <==> number_at(json::json_in(volatility_data@), "volatility"@) is Ok,
            r matches Err(error) ==> number_at(json::json_in(volatility_data@), "volatility"@)
                == Err::<Binary64, ReadError>(error),
    {
        let json = parse_json(volatility_data);
        self.take_volatility(&json)
    }

    /// Takes over the volatility in a JSON value, where it is there.
    pub fn take_volatility(&mut self, json: &Option<Json>) -> (r: Result<(), ReadError>)
        ensures
            *final(self) == (MarketMaker {
                current_volatility: refreshed(
                    old(self).current_volatility,
                    number_at(held(*json), "volatility"@),
                ),
                ..*old(self)
            }),
            r is Ok <==> number_at(held(*json), "volatility"@) is Ok,
            r matches Err(error) ==> number_at(held(*json), "volatility"@) == Err::<
                Binary64,
                ReadError,
            >(error),
    {
        match number_in(json, "volatility") {
            Ok(volatility) => {
                self.current_volatility = volatility;
                Ok(())
            },
            Err(error) => Err(error),
        }
    }

    /// Takes over a position that differs from the known one by this distance, unless it is the
    /// same within the tolerance. A significant change takes the quotes off the book.
    pub fn handle_position_update(&mut self, new_position: Binary64, distance: Binary64)
        requires
            old(self).wf(),
        ensures
            final(self).wf(),
            *final(self) == (if (Binary64 { bits: POSITION_TOLERANCE }).lt_spec(distance) {
                MarketMaker {
                    current_position: new_position,
                    state: if old(self).base_order_size.lt_spec(distance) {
                        MarketMakerState::CancelQuotes
                    } else {
                        old(self).state
                    },
                    ..*old(self)
                }
            } else {
                *old(self)
            }),
            final(self).current_position == (if 0x3f1a_36e2_eb1c_432d < distance.bits
                <= 0x7ff0_0000_0000_0000 {
                new_position
            } else {
                old(self).current_position
            }),
    {
        if distance.gt(Binary64 { bits: POSITION_TOLERANCE }) {
            self.current_position = new_position;
            if distance.gt(self.base_order_size) {
                self.state = MarketMakerState::CancelQuotes;
            }
        }
    }

    /// What trades add to the position, one by one. The position changes by their sum.
    pub fn update_current_position(&self, trades: &Vec<Trade>) -> (r: Vec<Binary64>)
        ensures
            r@ == trades@.map_values(|trade: Trade| trade_change(trade)),
    {
        let n: usize = trades.len();
        let mut r: Vec<Binary64> = Vec::new();
        for i in 0..n
            invariant
                n == trades@.len(),
                r@ =~= trades@.take(i as int).map_values(|trade: Trade| trade_change(trade)),
        {
            r.push(change_by_trade(&trades[i]));
        }
        assert(trades@.take(n as int) == trades@);
        r
    }
}

/// Whether the order management system tells of a fill.
pub open spec fn tells_of_fill(update: UpdateModel) -> bool {
    match update {
        UpdateModel::OrderStateChanged(_, state) => state is Filled,
        _ => true,
    }
}

/// A number after readings of it from these texts, one after the other.
pub open spec fn last_reading(number: Binary64, texts: Seq<Seq<char>>, key: Seq<char>) -> Binary64
    decreases texts.len(),
{
    if texts.len() == 0 {
        number
    } else {
        refreshed(
            last_reading(number, texts.drop_last(), key),
            number_at(json::json_in(texts.last()), key),
        )
    }
}

/// The market maker after these feeds.
pub open spec fn after_feeds(maker: MarketMaker, feeds: Seq<Feed>) -> MarketMaker
    decreases feeds.len(),
{
    if feeds.len() == 0 {
        maker
    } else {
        after_feeds(maker, feeds.drop_last()).after_feed(feeds.last())
    }
}

/// Quoting starts once a book, account data and a volatility have come in, in whatever order and
/// however often, and not before.
pub proof fn law_all_feeds_needed(maker: MarketMaker, feeds: Seq<Feed>)
    requires
        !maker.has_order_book,
        !maker.has_portfolio,
        !maker.has_volatility,
    ensures
        after_feeds(maker, feeds).fed() <==> {
            &&& exists|i: int| 0 <= i < feeds.len() && (#[trigger] feeds[i]) is OrderBook
            &&& exists|i: int| 0 <= i < feeds.len() && (#[trigger] feeds[i]) is Portfolio
            &&& exists|i: int| 0 <= i < feeds.len() && (#[trigger] feeds[i]) is Volatility
        },
{
    lemma_flags(maker, feeds);
}

proof fn lemma_flags(maker: MarketMaker, feeds: Seq<Feed>)
    requires
        !maker.has_order_book,
        !maker.has_portfolio,
        !maker.has_volatility,
    ensures
        after_feeds(maker, feeds).has_order_book <==> exists|i: int|
            0 <= i < feeds.len() && (#[trigger] feeds[i]) is OrderBook,
        after_feeds(maker, feeds).has_portfolio <==> exists|i: int|
            0 <= i < feeds.len() && (#[trigger] feeds[i]) is Portfolio,
        after_feeds(maker, feeds).has_volatility <==> exists|i: int|
            0 <= i < feeds.len() && (#[trigger] feeds[i]) is Volatility,
    decreases feeds.len(),
{
    if feeds.len() > 0 {
        let front = feeds.drop_last();
        lemma_flags(maker, front);
        assert(feeds[feeds.len() - 1] == feeds.last());
        assert forall|i: int| 0 <= i < front.len() implies #[trigger] front[i] == feeds[i] by {}
        assert forall|i: int| 0 <= i < front.len() implies #[trigger] feeds[i] == front[i] by {}
    }
}

/// Every quote becomes a limit order for the handler, and every cancellation a request to cancel
/// all orders: the handler refuses nothing that the market maker sends.
pub proof fn law_messages_are_carried_out(
    outcome: Result<OrderPlan, OrderError>,
    instrument: String,
    is_buy: bool,
    price: Binary64,
    size: Binary64,
)
    ensures
        orderhandler::carries_out(outcome, quote_message_of(instrument, is_buy, price, size))
            ==> outcome == Ok::<OrderPlan, OrderError>(
            OrderPlan::AdjustPrice {
                instrument_name: instrument,
                is_buy,
                amount: size.max_spec(Binary64 { bits: CONTRACT_SIZE }),
                price,
            },
        ),
        orderhandler::carries_out(outcome, cancel_message_of(instrument)) ==> {
            outcome matches Ok(OrderPlan::Send(request)) && orderhandler::is_cancel_all(request)
        },
{
}

/// The size of a quote is a number, and at least one contract.
pub proof fn law_size_of_quote(size: Binary64)
    ensures
        !size.max_spec(Binary64 { bits: CONTRACT_SIZE }).is_nan_spec(),
        size.max_spec(Binary64 { bits: CONTRACT_SIZE }).ge_spec(Binary64 { bits: CONTRACT_SIZE }),
{
}

/// The report of a filled order takes the market maker to the state that replaces the quotes: one
/// of the messages that the order management system sends about it tells of a fill.
pub proof fn law_fill_is_acted_on(
    system: OmsModel,
    order: Order,
    maker: MarketMaker,
    update: OMSUpdate,
)
    requires
        order.order_id is Some,
        order.order_state is Some ==> order.order_state->0@ == "filled"@,
        order.order_state is None ==> order.state@ == "filled"@,
        update@ == oms_model::updates_of(system, order).last(),
    ensures
        oms_model::updates_of(system, order).len() > 0,
        maker.after_event(MarketEvent::Oms(update)).state is Filled,
{
}

/// Quotes are never replaced without a cancellation in between: from where quotes rest on the
/// book, an event leads nowhere but to the states that cancel first.
pub proof fn law_cancel_before_requote(maker: MarketMaker, event: MarketEvent)
    requires
        maker.state is WaitingForEvent,
    ensures
        ({
            let state = maker.after_event(event).state;
            state is WaitingForEvent || state is CancelQuotes || state is Filled
        }),
        maker.after_event(event).current_instrument == maker.current_instrument,
        maker.after_event(event).last_reservation_price == maker.last_reservation_price,
{
}

/// The reading of a number in a JSON text: the number where the text holds an object whose field
/// of that name is a number, and else an error that says whether the text or the field is at fault.
pub proof fn law_reading(json: Option<JsonModel>, key: Seq<char>)
    ensures
        json is None ==> number_at(json, key) == Err::<Binary64, ReadError>(ReadError::Unreadable),
        json is Some && json->0.member(key) is Some && json->0.member(key)->0 is Number
            && json->0.member(key)->0->Number_0.float is Some ==> number_at(json, key) == Ok::<
            Binary64,
            ReadError,
        >(json->0.member(key)->0->Number_0.float->0),
        json is Some && (json->0.member(key) is None || !(json->0.member(key)->0 is Number)
            || json->0.member(key)->0->Number_0.float is None) ==> number_at(json, key) == Err::<
            Binary64,
            ReadError,
        >(ReadError::Missing),
{
}

/// A reading that succeeds takes the number's place, and one that fails leaves it.
pub proof fn law_refreshed(number: Binary64, new: Binary64, error: ReadError)
    ensures
        refreshed(number, Ok(new)) == new,
        refreshed(number, Err(error)) == number,
{
}

/// Of several texts the last one that can be read counts.
pub proof fn law_last_reading(number: Binary64, texts: Seq<Seq<char>>, key: Seq<char>, k: int)
    requires
        0 <= k < texts.len(),
        number_at(json::json_in(texts[k]), key) is Ok,
        forall|j: int|
            k < j < texts.len() ==> number_at(json::json_in(#[trigger] texts[j]), key) is Err,
    ensures
        last_reading(number, texts, key) == number_at(json::json_in(texts[k]), key)->Ok_0,
    decreases texts.len(),
{
    let n = texts.len() - 1;
    assert(texts.last() == texts[n]);
    if k < n {
        let front = texts.drop_last();
        assert(front[k] == texts[k]);
        assert forall|j: int| k < j < front.len() implies number_at(
            json::json_in(#[trigger] front[j]),
            key,
        ) is Err by {
            assert(front[j] == texts[j]);
        }
        law_last_reading(number, front, key, k);
    }
}

/// Where no text can be read the number stays.
pub proof fn law_no_reading(number: Binary64, texts: Seq<Seq<char>>, key: Seq<char>)
    requires
        forall|j: int|
            0 <= j < texts.len() ==> number_at(json::json_in(#[trigger] texts[j]), key) is Err,
    ensures
        last_reading(number, texts, key) == number,
    decreases texts.len(),
{
    if texts.len() > 0 {
        let front = texts.drop_last();
        assert(texts.last() == texts[texts.len() - 1]);
        assert forall|j: int| 0 <= j < front.len() implies number_at(
            json::json_in(#[trigger] front[j]),
            key,
        ) is Err by {
            assert(front[j] == texts[j]);
        }
        law_no_reading(number, front, key);
    }
}

/// While the feeds are awaited each sets what it brings and its own flag, and nothing else: a book
/// the instrument, account data the `delta_total` that it holds, and volatility data the
/// `volatility` that it holds. The state stays.
pub proof fn law_feed(maker: MarketMaker, feed: Feed)
    ensures
        ({
            let after = maker.after_feed(feed);
            &&& after.state == maker.state
            &&& after.current_position == maker.current_position
            &&& after.instruments == maker.instruments
            &&& after.has_order_book == (maker.has_order_book || feed is OrderBook)
            &&& after.has_portfolio == (maker.has_portfolio || feed is Portfolio)
            &&& after.has_volatility == (maker.has_volatility || feed is Volatility)
            &&& feed is OrderBook ==> after.current_instrument == feed->OrderBook_0
            &&& !(feed is OrderBook) ==> after.current_instrument == maker.current_instrument
            &&& feed is Portfolio ==> after.delta_total == refreshed(
                maker.delta_total,
                number_at(json::json_in(feed->Portfolio_0@), "delta_total"@),
            )
            &&& !(feed is Portfolio) ==> after.delta_total == maker.delta_total
            &&& feed is Volatility ==> after.current_volatility == refreshed(
                maker.current_volatility,
                number_at(json::json_in(feed->Volatility_0@), "volatility"@),
            )
            &&& !(feed is Volatility) ==> after.current_volatility == maker.current_volatility
        }),
        maker.fed() <==> maker.has_order_book && maker.has_portfolio && maker.has_volatility,
{
}

/// A book takes the quotes off exactly where the reservation price has moved by forty or more, and
/// changes nothing else.
pub proof fn law_drift(maker: MarketMaker, drift: Binary64)
    ensures
        ({
            let after = maker.after_event(MarketEvent::OrderBook(drift));
            let far = 0x4044_0000_0000_0000 <= drift.bits <= 0x7ff0_0000_0000_0000;
            &&& far ==> after == (MarketMaker { state: MarketMakerState::CancelQuotes, ..maker })
            &&& !far ==> after == maker
        }),
{
}

/// Account and volatility data refresh what they tell of, and the quotes go on resting; the end of
/// the channels changes nothing.
pub proof fn law_data_while_quotes_rest(maker: MarketMaker, data: String)
    ensures
        maker.after_event(MarketEvent::Portfolio(data)) == (MarketMaker {
            delta_total: refreshed(
                maker.delta_total,
                number_at(json::json_in(data@), "delta_total"@),
            ),
            ..maker
        }),
        maker.after_event(MarketEvent::Volatility(data)) == (MarketMaker {
            current_volatility: refreshed(
                maker.current_volatility,
                number_at(json::json_in(data@), "volatility"@),
            ),
            ..maker
        }),
        maker.after_event(MarketEvent::Closed) == maker,
{
}

/// A fill, a partial fill and a trade are acted on, and so is an order that has become filled; an
/// order that has become open, or was cancelled, rejected or has expired, changes nothing.
pub proof fn law_order_news(maker: MarketMaker, id: String, trade: Trade, state: OrderState)
    ensures
        ({
            let filled = MarketMaker { state: MarketMakerState::Filled, ..maker };
            &&& maker.after_event(MarketEvent::Oms(OMSUpdate::OrderFilled(id))) == filled
            &&& maker.after_event(MarketEvent::Oms(OMSUpdate::OrderPartiallyFilled(id))) == filled
            &&& maker.after_event(MarketEvent::Oms(OMSUpdate::NewTrade(trade))) == filled
            &&& maker.after_event(MarketEvent::Oms(OMSUpdate::OrderStateChanged(id, state))) == (
            match state {
                OrderState::Filled => filled,
                OrderState::Open => maker,
                OrderState::Canceled => maker,
                OrderState::Rejected => maker,
                OrderState::Expired => maker,
            })
        }),
{
}

/// A trade adds its amount to the position if it buys, and takes it away otherwise.
pub proof fn law_trade_change(trade: Trade)
    ensures
        trade.direction@ == "buy"@ ==> trade_change(trade) == trade.amount,
        trade.direction@ != "buy"@ && trade.amount.bits < 0x8000_0000_0000_0000 ==> trade_change(
            trade,
        ).bits == trade.amount.bits + 0x8000_0000_0000_0000,
        trade.direction@ != "buy"@ && trade.amount.bits >= 0x8000_0000_0000_0000 ==> trade_change(
            trade,
        ).bits == trade.amount.bits - 0x8000_0000_0000_0000,
{
}

/// A quote is a limit order on the side, at the price and in the instrument that it is for; its
/// size is what was asked for, but ten where that is less or no number.
pub proof fn law_quote_message(instrument: String, is_buy: bool, price: Binary64, size: Binary64)
    ensures
        ({
            let message = quote_message_of(instrument, is_buy, price, size);
            let enough = 0x4024_0000_0000_0000 <= size.bits <= 0x7ff0_0000_0000_0000;
            &&& message.instrument_name@ == instrument@
            &&& message.order_type is Limit
            &&& message.is_buy == Some(is_buy)
            &&& message.price == Some(price)
            &&& message.amount is Some
            &&& enough ==> message.amount->0 == size
            &&& !enough ==> message.amount->0.bits == 0x4024_0000_0000_0000
        }),
{
}

/// A cancellation cancels all orders, and names the instrument and nothing else.
pub proof fn law_cancel_message(instrument: String)
    ensures
        cancel_message_of(instrument).instrument_name@ == instrument@,
        cancel_message_of(instrument).order_type is CancelAll,
        cancel_message_of(instrument).amount is None,
        cancel_message_of(instrument).price is None,
        cancel_message_of(instrument).is_buy is None,
{
}

/// The best prices of a book, with what stands in for a side that is empty; the mid price takes
/// both where both are positive, and neither otherwise.
pub proof fn law_best_prices(book: OrderBook, default: Binary64)
    ensures
        book.bids@.len() > 0 ==> bid_or_zero(book) == book.bids@[book.bids@.len() - 1].0,
        book.bids@.len() == 0 ==> bid_or_zero(book).bits == 0,
        book.asks@.len() > 0 ==> ask_or(book, default) == book.asks@[0].0,
        book.asks@.len() == 0 ==> ask_or(book, default) == default,
        ({
            let bid = book.bids@.last().0;
            let ask = book.asks@[0].0;
            let both = book.bids@.len() > 0 && book.asks@.len() > 0 && 0 < bid.bits
                <= 0x7ff0_0000_0000_0000 && 0 < ask.bits <= 0x7ff0_0000_0000_0000;
            &&& both ==> mid_prices(book) == Some((bid, ask))
            &&& !both ==> mid_prices(book) is None
        }),
{
}

/// What quotes are calculated from: of a listed instrument its expiry, the best prices, the amounts
/// at the best five levels of each side for the imbalance, and those over the depth that the
/// operator sets for the liquidity. An instrument that is not listed is refused.
pub proof fn law_quote_basis(
    maker: MarketMaker,
    book: OrderBook,
    outcome: Result<QuoteBasis, MarketMakerError>,
)
    requires
        maker.quotes_from(outcome, book),
    ensures
        outcome is Ok <==> maker.instruments@.dom().contains(book.instrument_name@),
        outcome is Err ==> outcome->Err_0 is InstrumentNotFound,
        outcome matches Ok(basis) ==> {
            let bids = book.bids@;
            let asks = book.asks@;
            let depth = maker.parameters.book_depth;
            &&& basis.expiration_timestamp
                == maker.instruments@[book.instrument_name@].expiration_timestamp
            &&& basis.mid == mid_prices(book)
            &&& basis.best_bid == bid_or_zero(book)
            &&& basis.best_ask == ask_or(book, Binary64 { bits: 0x7fef_ffff_ffff_ffff })
            &&& basis.bid_volumes@.len() == (if bids.len() < 5 { bids.len() } else { 5 })
            &&& basis.ask_volumes@.len() == (if asks.len() < 5 { asks.len() } else { 5 })
            &&& basis.bid_liquidity@.len() == (if bids.len() < depth {
                bids.len()
            } else {
                depth as nat
            })
            &&& basis.ask_liquidity@.len() == (if asks.len() < depth {
                asks.len()
            } else {
                depth as nat
            })
            &&& forall|i: int|
                0 <= i < basis.bid_volumes@.len() ==> #[trigger] basis.bid_volumes@[i]
                    == bids[bids.len() - 1 - i].1
            &&& forall|i: int|
                0 <= i < basis.ask_volumes@.len() ==> #[trigger] basis.ask_volumes@[i] == asks[i].1
            &&& forall|i: int|
                0 <= i < basis.bid_liquidity@.len() ==> #[trigger] basis.bid_liquidity@[i]
                    == bids[bids.len() - 1 - i].1
            &&& forall|i: int|
                0 <= i < basis.ask_liquidity@.len() ==> #[trigger] basis.ask_liquidity@[i]
                    == asks[i].1
        },
{
}

} // verus!

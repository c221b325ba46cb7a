//! Orders on their way to the exchange.

use vstd::prelude::*;

use crate::auth::DeribitConfig;
use crate::binary64::Binary64;
use crate::rpc;
use crate::rpc::{Params, Request};

verus! {

#[derive(Clone, Copy, Debug, PartialEq, Eq, Structural)]
pub enum OrderType {
    Market,
    Limit,
    CancelAll,
    CancelOrder,
    EditOrder,
}

/// What the market maker wants done.
#[derive(Debug)]
pub struct OrderMessage {
    pub instrument_name: String,
    pub order_type: OrderType,
    pub amount: Option<Binary64>,
    pub price: Option<Binary64>,
    pub is_buy: Option<bool>,
}

impl Clone for OrderMessage {
    fn clone(&self) -> (r: Self)
        ensures
            r == *self,
    {
        OrderMessage {
            instrument_name: self.instrument_name.clone(),
            order_type: self.order_type,
            amount: self.amount,
            price: self.price,
            is_buy: self.is_buy,
        }
    }
}

/// One execution.
#[derive(Debug)]
pub struct Trade {
    pub trade_id: String,
    pub instrument_name: String,
    pub amount: Binary64,
    pub price: Binary64,
    pub direction: String,
    pub timestamp: u64,
}

impl Clone for Trade {
    fn clone(&self) -> (r: Self)
        ensures
            r == *self,
    {
        Trade {
            trade_id: self.trade_id.clone(),
            instrument_name: self.instrument_name.clone(),
            amount: self.amount,
            price: self.price,
            direction: self.direction.clone(),
            timestamp: self.timestamp,
        }
    }
}

/// Why an order message cannot be carried out.
#[derive(Clone, Copy, Debug, PartialEq, Eq, Structural)]
pub enum OrderError {
    MarketOrderIncomplete,
    LimitOrderIncomplete,
    NotImplemented,
}

impl OrderError {
    pub open spec fn text(self) -> Seq<char> {
        match self {
            OrderError::MarketOrderIncomplete => "Market order requires is_buy and amount"@,
            OrderError::LimitOrderIncomplete => "Limit order requires is_buy, amount, and price"@,
            OrderError::NotImplemented => "Order type not implemented"@,
        }
    }

    pub fn message(self) -> (r: &'static str)
        ensures
            r@ == self.text(),
            self is MarketOrderIncomplete ==> r@ == "Market order requires is_buy and amount"@,
            self is LimitOrderIncomplete ==> r@ == "Limit order requires is_buy, amount, and price"@,
            self is NotImplemented ==> r@ == "Order type not implemented"@,
    {
        match self {
            OrderError::MarketOrderIncomplete => "Market order requires is_buy and amount",
            OrderError::LimitOrderIncomplete => "Limit order requires is_buy, amount, and price",
            OrderError::NotImplemented => "Order type not implemented",
        }
    }
}

/// How an order message is carried out.
#[derive(Debug)]
pub enum OrderPlan {
    Send(Request),
    /// Bring the price to the tick, then send the limit order.
    AdjustPrice { instrument_name: String, is_buy: bool, amount: Binary64, price: Binary64 },
}

/// Whether this is a market order.
pub open spec fn is_market_order(
    request: Request,
    instrument: Seq<char>,
    is_buy: bool,
    size: Binary64,
) -> bool {
    &&& request.calls(5275, order_method(is_buy))
    &&& request.params matches Params::Order {
        instrument_name,
        amount,
        order_type,
        price,
        post_only,
    } && {
        &&& instrument_name@ == instrument
        &&& amount == size
        &&& order_type@ == "market"@
        &&& price is None
        &&& post_only is None
    }
}

/// Whether this is a limit order that only rests on the book.
pub open spec fn is_limit_order(
    request: Request,
    instrument: Seq<char>,
    is_buy: bool,
    size: Binary64,
    limit: Binary64,
) -> bool {
    &&& request.calls(5276, order_method(is_buy))
    &&& request.params matches Params::Order {
        instrument_name,
        amount,
        order_type,
        price,
        post_only,
    } && {
        &&& instrument_name@ == instrument
        &&& amount == size
        &&& order_type@ == "limit"@
        &&& price == Some(limit)
        &&& post_only == Some(true)
    }
}

/// Whether this cancels all orders.
pub open spec fn is_cancel_all(request: Request) -> bool {
    request.calls(4, "private/cancel_all"@) && request.params is Empty
}

/// The method that buys or sells.
pub open spec fn order_method(is_buy: bool) -> Seq<char> {
    if is_buy {
        "private/buy"@
    } else {
        "private/sell"@
    }
}

/// Whether this is what comes of an order message.
pub open spec fn carries_out(outcome: Result<OrderPlan, OrderError>, message: OrderMessage) -> bool {
    match message.order_type {
        OrderType::Market => if message.is_buy is Some && message.amount is Some {
            outcome matches Ok(OrderPlan::Send(request)) && is_market_order(
                request,
                message.instrument_name@,
                message.is_buy->0,
                message.amount->0,
            )
        } else {
            outcome == Err::<OrderPlan, OrderError>(OrderError::MarketOrderIncomplete)
        },
        OrderType::Limit => if message.is_buy is Some && message.amount is Some
            && message.price is Some {
            outcome == Ok::<OrderPlan, OrderError>(
                OrderPlan::AdjustPrice {
                    instrument_name: message.instrument_name,
                    is_buy: message.is_buy->0,
                    amount: message.amount->0,
                    price: message.price->0,
                },
            )
        } else {
            outcome == Err::<OrderPlan, OrderError>(OrderError::LimitOrderIncomplete)
        },
        OrderType::CancelAll => outcome matches Ok(OrderPlan::Send(request)) && is_cancel_all(
            request,
        ),
        OrderType::CancelOrder => outcome == Err::<OrderPlan, OrderError>(
            OrderError::NotImplemented,
        ),
        OrderType::EditOrder => outcome == Err::<OrderPlan, OrderError>(
            OrderError::NotImplemented,
        ),
    }
}

/// What can happen on the connection that orders go out on.
#[derive(Debug)]
pub enum OrderSignal {
    ProbeDue,
    RefreshDue,
    /// The market maker wants something done.
    Order(OrderMessage),
    /// Any text: the order management system reads those.
    Text,
    Ping(Vec<u8>),
    Close,
    Failed,
    Other,
    Ended,
}

/// What is to be done about it.
#[derive(Debug)]
pub enum OrderReaction {
    Nothing,
    Send(Request),
    Pong(Vec<u8>),
    RefreshLogin,
    /// An order message, with how it is carried out or why it cannot be.
    CarryOut(Result<OrderPlan, OrderError>),
    Finish,
    Abort,
}

/// Whether this is what is to be done about the signal.
pub open spec fn order_reacts(reaction: OrderReaction, signal: OrderSignal) -> bool {
    match signal {
        OrderSignal::ProbeDue => reaction matches OrderReaction::Send(request)
            && request.is_probe(),
        OrderSignal::RefreshDue => reaction is RefreshLogin,
        OrderSignal::Order(message) => reaction matches OrderReaction::CarryOut(outcome)
            && carries_out(outcome, message),
        OrderSignal::Text => reaction is Nothing,
        OrderSignal::Ping(payload) => reaction == OrderReaction::Pong(payload),
        OrderSignal::Close => reaction is Finish,
        OrderSignal::Failed => reaction is Abort,
        OrderSignal::Other => reaction is Nothing,
        OrderSignal::Ended => reaction is Finish,
    }
}

/// The sender of orders.
pub struct OrderHandler {
    pub config: DeribitConfig,
}

fn method_for(is_buy: bool) -> (r: &'static str)
    ensures
        r@ == order_method(is_buy),
{
    if is_buy {
        "private/buy"
    } else {
        "private/sell"
    }
}

impl OrderHandler {
    pub fn new(config: DeribitConfig) -> (r: Self)
        ensures
            r.config == config,
    {
        OrderHandler { config }
    }

    /// How an order message is carried out.
    pub fn process_order_message(&self, order_message: OrderMessage) -> (r: Result<
        OrderPlan,
        OrderError,
    >)
        ensures
            carries_out(r, order_message),
    {
        match order_message.order_type {
            OrderType::Market => match (order_message.is_buy, order_message.amount) {
                (Some(is_buy), Some(amount)) => Ok(
                    OrderPlan::Send(
                        self.create_market_order(
                            order_message.instrument_name.as_str(),
                            is_buy,
                            amount,
                        ),
                    ),
                ),
                _ => Err(OrderError::MarketOrderIncomplete),
            },
            OrderType::Limit => match (
                order_message.is_buy,
                order_message.amount,
                order_message.price,
            ) {
                (Some(is_buy), Some(amount), Some(price)) => Ok(
                    OrderPlan::AdjustPrice {
                        instrument_name: order_message.instrument_name,
                        is_buy,
                        amount,
                        price,
                    },
                ),
                _ => Err(OrderError::LimitOrderIncomplete),
            },
            OrderType::CancelAll => Ok(OrderPlan::Send(self.cancel_all_orders())),
            _ => Err(OrderError::NotImplemented),
        }
    }

    pub fn create_market_order(&self, instrument_name: &str, is_buy: bool, amount: Binary64) -> (r:
        Request)
        ensures
            is_market_order(r, instrument_name@, is_buy, amount),
            is_buy ==> r.method@ == "private/buy"@,
            !is_buy ==> r.method@ == "private/sell"@,
    {
        rpc::request(
            5275,
            method_for(is_buy),
            Params::Order {
                instrument_name: instrument_name.to_string(),
                amount,
                order_type: "market".to_string(),
                price: None,
                post_only: None,
            },
        )
    }

    /// A limit order at a price that is on the tick.
    pub fn create_limit_order(
        &self,
        instrument_name: &str,
        is_buy: bool,
        amount: Binary64,
        adjusted_price: Binary64,
    ) -> (r: Request)
        ensures
            is_limit_order(r, instrument_name@, is_buy, amount, adjusted_price),
            is_buy ==> r.method@ == "private/buy"@,
            !is_buy ==> r.method@ == "private/sell"@,
            r.params matches Params::Order { instrument_name: name, amount: size, price, .. }
                && name@ == instrument_name@ && size == amount && price == Some(adjusted_price),
    {
        rpc::request(
            5276,
            method_for(is_buy),
            Params::Order {
                instrument_name: instrument_name.to_string(),
                amount,
                order_type: "limit".to_string(),
                price: Some(adjusted_price),
                post_only: Some(true),
            },
        )
    }

    pub fn cancel_all_orders(&self) -> (r: Request)
        ensures
            is_cancel_all(r),
            r.method@ == "private/cancel_all"@,
    {
        rpc::request(4, "private/cancel_all", Params::Empty)
    }

    /// What is to be done about something on the connection.
    pub fn on_signal(&self, signal: OrderSignal) -> (r: OrderReaction)
        ensures
            order_reacts(r, signal),
    {
        match signal {
            OrderSignal::ProbeDue => OrderReaction::Send(rpc::probe()),
            OrderSignal::RefreshDue => OrderReaction::RefreshLogin,
            OrderSignal::Order(message) => OrderReaction::CarryOut(
                self.process_order_message(message),
            ),
            OrderSignal::Text => OrderReaction::Nothing,
            OrderSignal::Ping(payload) => OrderReaction::Pong(payload),
            OrderSignal::Close => OrderReaction::Finish,
            OrderSignal::Failed => OrderReaction::Abort,
            OrderSignal::Other => OrderReaction::Nothing,
            OrderSignal::Ended => OrderReaction::Finish,
        }
    }
}

/// A limit order goes out to buy or to sell as it is meant, in its instrument, of its amount and at
/// its price, and only to rest on the book.
pub proof fn law_limit_order(
    request: Request,
    instrument: Seq<char>,
    is_buy: bool,
    size: Binary64,
    limit: Binary64,
)
    requires
        is_limit_order(request, instrument, is_buy, size, limit),
    ensures
        request.jsonrpc@ == "2.0"@,
        request.id == 5276,
        is_buy ==> request.method@ == "private/buy"@,
        !is_buy ==> request.method@ == "private/sell"@,
        request.params is Order,
        request.params->Order_instrument_name@ == instrument,
        request.params->amount == size,
        request.params->order_type@ == "limit"@,
        request.params->price == Some(limit),
        request.params->post_only == Some(true),
{
}

/// A market order goes out to buy or to sell as it is meant, in its instrument and of its amount,
/// without a price.
pub proof fn law_market_order(
    request: Request,
    instrument: Seq<char>,
    is_buy: bool,
    size: Binary64,
)
    requires
        is_market_order(request, instrument, is_buy, size),
    ensures
        request.jsonrpc@ == "2.0"@,
        request.id == 5275,
        is_buy ==> request.method@ == "private/buy"@,
        !is_buy ==> request.method@ == "private/sell"@,
        request.params is Order,
        request.params->Order_instrument_name@ == instrument,
        request.params->amount == size,
        request.params->order_type@ == "market"@,
        request.params->price is None,
        request.params->post_only is None,
{
}

/// The two sides of a pair of quotes are asked for by different methods; and a market order of a
/// side by the same one as a limit order of it.
pub proof fn law_sides_of_orders(
    bid: Request,
    ask: Request,
    market: Request,
    instrument: Seq<char>,
    is_buy: bool,
    size: Binary64,
    bid_price: Binary64,
    ask_price: Binary64,
)
    requires
        is_limit_order(bid, instrument, true, size, bid_price),
        is_limit_order(ask, instrument, false, size, ask_price),
        is_market_order(market, instrument, is_buy, size),
    ensures
        bid.method@ != ask.method@,
        market.method@ == (if is_buy {
            bid.method@
        } else {
            ask.method@
        }),
{
    reveal_strlit("private/buy");
    reveal_strlit("private/sell");
    assert("private/buy"@.len() != "private/sell"@.len());
}

/// The request to cancel all orders names nothing.
pub proof fn law_cancel_all(request: Request)
    requires
        is_cancel_all(request),
    ensures
        request.jsonrpc@ == "2.0"@,
        request.id == 4,
        request.method@ == "private/cancel_all"@,
        request.params is Empty,
{
}

/// What comes of an order message. A market order needs a side and an amount, a limit order a price
/// too; with them it is carried out as it says, and without them refused. All orders are cancelled
/// whatever else the message holds. Single orders are neither cancelled nor edited.
pub proof fn law_order_message(outcome: Result<OrderPlan, OrderError>, message: OrderMessage)
    requires
        carries_out(outcome, message),
    ensures
        ({
            let sized = message.is_buy is Some && message.amount is Some;
            let priced = sized && message.price is Some;
            let kind = message.order_type;
            &&& kind is Market && sized ==> outcome is Ok && outcome->Ok_0 is Send
                && is_market_order(
                outcome->Ok_0->Send_0,
                message.instrument_name@,
                message.is_buy->0,
                message.amount->0,
            )
            &&& kind is Market && !sized ==> outcome is Err
                && outcome->Err_0 is MarketOrderIncomplete
            &&& kind is Limit && priced ==> {
                &&& outcome is Ok && outcome->Ok_0 is AdjustPrice
                &&& outcome->Ok_0->instrument_name@ == message.instrument_name@
                &&& message.is_buy == Some(outcome->Ok_0->is_buy)
                &&& message.amount == Some(outcome->Ok_0->amount)
                &&& message.price == Some(outcome->Ok_0->price)
            }
            &&& kind is Limit && !priced ==> outcome is Err && outcome->Err_0 is LimitOrderIncomplete
            &&& kind is CancelAll ==> outcome is Ok && outcome->Ok_0 is Send && is_cancel_all(
                outcome->Ok_0->Send_0,
            )
            &&& kind is CancelOrder || kind is EditOrder ==> outcome is Err
                && outcome->Err_0 is NotImplemented
        }),
{
}

/// What is done on the connection that orders go out on: a message is carried out, a probe is sent
/// when it is due, a login renewed when that is due, a ping answered by its payload; the end of the
/// connection ends the session, and a failure does so with an error. The rest is passed over.
pub proof fn law_order_reactions(reaction: OrderReaction, signal: OrderSignal)
    requires
        order_reacts(reaction, signal),
    ensures
        signal is Order ==> reaction is CarryOut && carries_out(
            reaction->CarryOut_0,
            signal->Order_0,
        ),
        signal is ProbeDue ==> reaction is Send && reaction->Send_0.id == 8212
            && reaction->Send_0.method@ == "public/test"@ && reaction->Send_0.params is Empty,
        signal is RefreshDue <==> reaction is RefreshLogin,
        signal is Ping ==> reaction is Pong && reaction->Pong_0 == signal->Ping_0,
        signal is Close || signal is Ended <==> reaction is Finish,
        signal is Failed <==> reaction is Abort,
        signal is Text || signal is Other <==> reaction is Nothing,
{
}

} // verus!

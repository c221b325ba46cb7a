//! The order management system: what is known of our own orders and trades.

use vstd::prelude::*;

use crate::binary64::Binary64;
use crate::json;
use crate::json::{Json, JsonModel};
use crate::ladder;
use crate::ladder::{Ladder, PriceKey};
use crate::oms_model;
use crate::oms_model::{InfoModel, Levels, OmsModel, UpdateModel};
use crate::orderhandler::Trade;
use crate::rpc;
use crate::rpc::{Params, ReplyFrame, Request};
use crate::seqs;
use crate::session::{Inbound, Signal};
use crate::string_map;
use crate::string_map::StringMap;
use crate::text::{joined, remove_text, same_text, starts_with};

verus! {

/// Our position in an instrument as the exchange reports it.
#[derive(Debug)]
pub struct Position {
    pub average_price: Binary64,
    pub delta: Binary64,
    pub direction: String,
    pub estimated_liquidation_price: Option<Binary64>,
    pub floating_profit_loss: Binary64,
    pub index_price: Binary64,
    pub initial_margin: Binary64,
    pub instrument_name: String,
    pub interest_value: Binary64,
    pub leverage: i64,
    pub kind: String,
    pub maintenance_margin: Binary64,
    pub mark_price: Binary64,
    pub open_orders_margin: Binary64,
    pub realized_profit_loss: Binary64,
    pub settlement_price: Binary64,
    pub size: Binary64,
    pub size_currency: Binary64,
    pub total_profit_loss: Binary64,
    pub state: Option<String>,
}

impl Clone for Position {
    fn clone(&self) -> (r: Self)
        ensures
            r == *self,
    {
        Position {
            average_price: self.average_price,
            delta: self.delta,
            direction: self.direction.clone(),
            estimated_liquidation_price: self.estimated_liquidation_price,
            floating_profit_loss: self.floating_profit_loss,
            index_price: self.index_price,
            initial_margin: self.initial_margin,
            instrument_name: self.instrument_name.clone(),
            interest_value: self.interest_value,
            leverage: self.leverage,
            kind: self.kind.clone(),
            maintenance_margin: self.maintenance_margin,
            mark_price: self.mark_price,
            open_orders_margin: self.open_orders_margin,
            realized_profit_loss: self.realized_profit_loss,
            settlement_price: self.settlement_price,
            size: self.size,
            size_currency: self.size_currency,
            total_profit_loss: self.total_profit_loss,
            state: self.state.clone(),
        }
    }
}

impl Position {
    /// Whether this is the position of someone who never traded the instrument.
    pub open spec fn is_empty_in(&self, instrument: Seq<char>) -> bool {
        let zero = Binary64::zero_spec();
        &&& self.instrument_name@ == instrument
        &&& self.average_price == zero
        &&& self.delta == zero
        &&& self.direction@ == "none"@
        &&& self.estimated_liquidation_price is None
        &&& self.floating_profit_loss == zero
        &&& self.index_price == zero
        &&& self.initial_margin == zero
        &&& self.interest_value == zero
        &&& self.leverage == 0
        &&& self.kind@ == "future"@
        &&& self.maintenance_margin == zero
        &&& self.mark_price == zero
        &&& self.open_orders_margin == zero
        &&& self.realized_profit_loss == zero
        &&& self.settlement_price == zero
        &&& self.size == zero
        &&& self.size_currency == zero
        &&& self.total_profit_loss == zero
        &&& self.state matches Some(state) && state@ == "open"@
    }

    /// The position of someone who never traded the instrument.
    pub fn empty(instrument_name: &str) -> (r: Self)
        ensures
            r.is_empty_in(instrument_name@),
    {
        let zero = Binary64::zero();
        Position {
            average_price: zero,
            delta: zero,
            direction: "none".to_string(),
            estimated_liquidation_price: None,
            floating_profit_loss: zero,
            index_price: zero,
            initial_margin: zero,
            instrument_name: instrument_name.to_string(),
            interest_value: zero,
            leverage: 0,
            kind: "future".to_string(),
            maintenance_margin: zero,
            mark_price: zero,
            open_orders_margin: zero,
            realized_profit_loss: zero,
            settlement_price: zero,
            size: zero,
            size_currency: zero,
            total_profit_loss: zero,
            state: Some("open".to_string()),
        }
    }
}

/// Why a position could not be read.
#[derive(Clone, Copy, Debug, PartialEq, Eq, Structural)]
pub enum PositionError {
    /// The result is no position and has no `result` of its own.
    Unreadable,
    /// The result is no position, and neither is the `result` in it.
    NestedUnreadable,
}

/// An order as the exchange reports it.
#[derive(Debug)]
pub struct Order {
    pub time_in_force: Option<String>,
    pub reduce_only: Option<bool>,
    pub price: Option<Binary64>,
    pub post_only: Option<bool>,
    pub order_type: Option<String>,
    pub order_state: Option<String>,
    pub order_id: Option<String>,
    pub max_show: Option<Binary64>,
    pub last_update_timestamp: Option<u64>,
    pub label: Option<String>,
    pub is_rebalance: Option<bool>,
    pub is_liquidation: Option<bool>,
    pub instrument_name: Option<String>,
    pub filled_amount: Option<Binary64>,
    pub direction: Option<String>,
    pub creation_timestamp: Option<u64>,
    pub average_price: Option<Binary64>,
    pub api: Option<bool>,
    pub amount: Option<Binary64>,
    pub state: String,
}

impl Clone for Order {
    fn clone(&self) -> (r: Self)
        ensures
            r == *self,
    {
        Order {
            time_in_force: self.time_in_force.clone(),
            reduce_only: self.reduce_only,
            price: self.price,
            post_only: self.post_only,
            order_type: self.order_type.clone(),
            order_state: self.order_state.clone(),
            order_id: self.order_id.clone(),
            max_show: self.max_show,
            last_update_timestamp: self.last_update_timestamp,
            label: self.label.clone(),
            is_rebalance: self.is_rebalance,
            is_liquidation: self.is_liquidation,
            instrument_name: self.instrument_name.clone(),
            filled_amount: self.filled_amount,
            direction: self.direction.clone(),
            creation_timestamp: self.creation_timestamp,
            average_price: self.average_price,
            api: self.api,
            amount: self.amount,
            state: self.state.clone(),
        }
    }
}

#[derive(Clone, Copy, Debug, PartialEq, Eq, Hash, Structural)]
pub enum OrderState {
    Open,
    Filled,
    Canceled,
    Rejected,
    Expired,
}

/// What is kept of an order for quick access.
#[derive(Debug)]
pub struct OrderInfo {
    pub price: Binary64,
    pub amount: Binary64,
    pub filled_amount: Binary64,
    pub direction: String,
    pub state: String,
    pub timestamp: u64,
    pub instrument_name: String,
}

impl Clone for OrderInfo {
    fn clone(&self) -> (r: Self)
        ensures
            r == *self,
    {
        OrderInfo {
            price: self.price,
            amount: self.amount,
            filled_amount: self.filled_amount,
            direction: self.direction.clone(),
            state: self.state.clone(),
            timestamp: self.timestamp,
            instrument_name: self.instrument_name.clone(),
        }
    }
}

impl View for OrderInfo {
    type V = InfoModel;

    open spec fn view(&self) -> InfoModel {
        InfoModel {
            price: self.price,
            amount: self.amount,
            filled_amount: self.filled_amount,
            direction: self.direction@,
            state: self.state@,
            timestamp: self.timestamp,
            instrument_name: self.instrument_name@,
        }
    }
}

/// A message to the market maker.
#[derive(Debug)]
pub enum OMSUpdate {
    OrderFilled(String),
    OrderPartiallyFilled(String),
    NewTrade(Trade),
    OrderStateChanged(String, OrderState),
}

impl View for OMSUpdate {
    type V = UpdateModel;

    open spec fn view(&self) -> UpdateModel {
        match *self {
            OMSUpdate::OrderFilled(id) => UpdateModel::OrderFilled(id@),
            OMSUpdate::OrderPartiallyFilled(id) => UpdateModel::OrderPartiallyFilled(id@),
            OMSUpdate::NewTrade(trade) => UpdateModel::NewTrade(trade),
            OMSUpdate::OrderStateChanged(id, state) => UpdateModel::OrderStateChanged(id@, state),
        }
    }
}

/// The contents of a list of messages.
pub open spec fn told(updates: Seq<OMSUpdate>) -> Seq<UpdateModel> {
    updates.map_values(|u: OMSUpdate| u@)
}

/// The order ids in each state.
struct StateLists {
    open: Vec<String>,
    filled: Vec<String>,
    canceled: Vec<String>,
    rejected: Vec<String>,
    expired: Vec<String>,
}

impl StateLists {
    closed spec fn model(&self) -> Map<OrderState, Seq<Seq<char>>> {
        Map::new(
            |s: OrderState| true,
            |s: OrderState|
                match s {
                    OrderState::Open => seqs::texts(self.open@),
                    OrderState::Filled => seqs::texts(self.filled@),
                    OrderState::Canceled => seqs::texts(self.canceled@),
                    OrderState::Rejected => seqs::texts(self.rejected@),
                    OrderState::Expired => seqs::texts(self.expired@),
                },
        )
    }
}

/// The levels of a ladder of order ids.
pub open spec fn levels_of(s: Seq<(Binary64, Vec<String>)>) -> Levels {
    s.map_values(|level: (Binary64, Vec<String>)| (level.0, seqs::texts(level.1@)))
}

/// The contents of a map of order infos.
pub open spec fn infos_of(m: Map<Seq<char>, OrderInfo>) -> Map<Seq<char>, InfoModel> {
    Map::new(|id: Seq<char>| m.dom().contains(id), |id: Seq<char>| m[id]@)
}

/// Everything that is known of our own orders and trades.
pub struct OrderManagementSystem {
    orders: StringMap<Order>,
    order_info: StringMap<OrderInfo>,
    orders_by_state: StateLists,
    buy_orders: StringMap<OrderInfo>,
    sell_orders: StringMap<OrderInfo>,
    active_bids: Ladder<Binary64, Vec<String>>,
    active_asks: Ladder<Binary64, Vec<String>>,
    trades: Vec<Trade>,
}

/// The state of an order whose report names none.
pub fn default_order_state() -> (r: String)
    ensures
        r@ == "open"@,
{
    "open".to_string()
}

/// The state that a state text names.
fn state_from_text(text: &str) -> (r: OrderState)
    ensures
        r == oms_model::state_named(text@),
{
    if same_text(text, "filled") {
        OrderState::Filled
    } else if same_text(text, "cancelled") {
        OrderState::Canceled
    } else if same_text(text, "rejected") {
        OrderState::Rejected
    } else if same_text(text, "expired") {
        OrderState::Expired
    } else {
        OrderState::Open
    }
}

fn text_or_default(text: &Option<String>) -> (r: String)
    ensures
        r@ == oms_model::text_or_empty(*text),
{
    match text {
        Some(t) => t.clone(),
        None => String::new(),
    }
}

fn number_or_default(number: Option<Binary64>) -> (r: Binary64)
    ensures
        r == oms_model::number_or_zero(number),
{
    match number {
        Some(n) => n,
        None => Binary64::zero(),
    }
}

/// What is kept of this order.
fn info_from_order(order: &Order) -> (r: OrderInfo)
    ensures
        r@ == oms_model::info_of(*order),
{
    OrderInfo {
        price: number_or_default(order.price),
        amount: number_or_default(order.amount),
        filled_amount: number_or_default(order.filled_amount),
        direction: text_or_default(&order.direction),
        state: match &order.order_state {
            Some(t) => t.clone(),
            None => order.state.clone(),
        },
        timestamp: match order.creation_timestamp {
            Some(t) => t,
            None => 0,
        },
        instrument_name: text_or_default(&order.instrument_name),
    }
}

/// Takes `id` out of the level at `price`.
fn withdraw(levels: &mut Ladder<Binary64, Vec<String>>, price: Binary64, id: &str)
    requires
        old(levels).wf(),
    ensures
        final(levels).wf(),
        levels_of(final(levels)@) == oms_model::withdrawn(levels_of(old(levels)@), price, id@),
{
    let ghost before = levels@;
    match levels.get_mut(&price) {
        Some(ids) => {
            remove_text(ids, id);
        },
        None => {},
    }
    proof {
        ladder::lemma_slot_exists(before, price.rank());
        ladder::lemma_same_keys(before, levels@);
        ladder::lemma_same_keys(before, levels_of(before));
        assert(levels_of(levels@) =~= oms_model::withdrawn(levels_of(before), price, id@));
    }
}

/// Adds `id` to the level at `price`, as the last one.
fn list(levels: &mut Ladder<Binary64, Vec<String>>, price: Binary64, id: String)
    requires
        old(levels).wf(),
    ensures
        final(levels).wf(),
        levels_of(final(levels)@) == oms_model::listed(levels_of(old(levels)@), price, id@),
{
    let ghost before = levels@;
    proof {
        ladder::lemma_slot_exists(before, price.rank());
        ladder::lemma_same_keys(before, levels_of(before));
    }
    match levels.get_mut(&price) {
        Some(ids) => {
            ids.push(id);
            proof {
                assert(seqs::texts(ids@) =~= seqs::texts(
                    before[ladder::slot(before, price.rank())].1@,
                ).push(id@));
            }
        },
        None => {
            let mut ids: Vec<String> = Vec::new();
            ids.push(id);
            assert(seqs::texts(ids@) =~= seq![id@]);
            levels.insert(price, ids);
        },
    }
    proof {
        if ladder::has_rank(before, price.rank()) {
            ladder::lemma_same_keys(before, levels@);
        }
        assert(levels_of(levels@) =~= oms_model::listed(levels_of(before), price, id@));
    }
}

/// Takes the empty levels away.
fn tidy(levels: &mut Ladder<Binary64, Vec<String>>)
    requires
        old(levels).wf(),
    ensures
        final(levels).wf(),
        levels_of(final(levels)@) == oms_model::tidied(levels_of(old(levels)@)),
{
    proof {
        seqs::lemma_map_filter(
            levels@,
            |level: (Binary64, Vec<String>)| (level.0, seqs::texts(level.1@)),
            |level: (Binary64, Vec<String>)| level.1@.len() > 0,
            |level: (Binary64, Seq<Seq<char>>)| level.1.len() > 0,
        );
    }
    levels.drop_empty();
}

impl View for OrderManagementSystem {
    type V = OmsModel;

    closed spec fn view(&self) -> OmsModel {
        OmsModel {
            orders: self.orders@,
            info: infos_of(self.order_info@),
            by_state: self.orders_by_state.model(),
            buys: infos_of(self.buy_orders@),
            sells: infos_of(self.sell_orders@),
            bids: levels_of(self.active_bids@),
            asks: levels_of(self.active_asks@),
            trades: self.trades@,
        }
    }
}

impl OrderManagementSystem {
    /// The parts are well formed.
    pub closed spec fn parts_wf(&self) -> bool {
        &&& self.orders.wf()
        &&& self.order_info.wf()
        &&& self.buy_orders.wf()
        &&& self.sell_orders.wf()
        &&& self.active_bids.wf()
        &&& self.active_asks.wf()
    }

    /// The orders, in the order in which they are walked.
    pub closed spec fn order_listing(&self) -> Seq<(String, Order)> {
        self.orders.listing()
    }

    /// The order infos, in the order in which they are walked.
    pub closed spec fn info_listing(&self) -> Seq<(String, OrderInfo)> {
        self.order_info.listing()
    }

    /// The buy reports, in the order in which they are walked.
    pub closed spec fn buy_listing(&self) -> Seq<(String, OrderInfo)> {
        self.buy_orders.listing()
    }

    /// The sell reports, in the order in which they are walked.
    pub closed spec fn sell_listing(&self) -> Seq<(String, OrderInfo)> {
        self.sell_orders.listing()
    }

    /// Each listing holds every entry of its map once.
    pub open spec fn listings_agree(&self) -> bool {
        &&& string_map::distinct_keys(self.order_listing())
        &&& string_map::as_map(self.order_listing()) == self@.orders
        &&& string_map::distinct_keys(self.info_listing())
        &&& infos_of(string_map::as_map(self.info_listing())) == self@.info
        &&& string_map::distinct_keys(self.buy_listing())
        &&& infos_of(string_map::as_map(self.buy_listing())) == self@.buys
        &&& string_map::distinct_keys(self.sell_listing())
        &&& infos_of(string_map::as_map(self.sell_listing())) == self@.sells
    }

    /// The parts are well formed, the indexes agree with the orders, and the listings with the
    /// maps.
    pub open spec fn wf(&self) -> bool {
        &&& self.parts_wf()
        &&& self.listings_agree()
        &&& oms_model::coherent(self@)
    }

    pub fn new() -> (r: Self)
        ensures
            r.wf(),
            r@ == oms_model::empty_model(),
    {
        let r = OrderManagementSystem {
            orders: StringMap::new(),
            order_info: StringMap::new(),
            orders_by_state: StateLists {
                open: Vec::new(),
                filled: Vec::new(),
                canceled: Vec::new(),
                rejected: Vec::new(),
                expired: Vec::new(),
            },
            buy_orders: StringMap::new(),
            sell_orders: StringMap::new(),
            active_bids: Ladder::new(),
            active_asks: Ladder::new(),
            trades: Vec::new(),
        };
        proof {
            oms_model::law_empty_coherent();
            assert(r@ =~~= oms_model::empty_model());
        }
        r
    }

    /// Moves the order to the list of `state`.
    fn update_order_state(&mut self, order_id: &str, state: OrderState)
        requires
            old(self).parts_wf(),
        ensures
            final(self).parts_wf(),
            final(self)@ == (OmsModel {
                by_state: oms_model::by_state_after(old(self)@.by_state, order_id@, state),
                ..old(self)@
            }),
    {
        remove_text(&mut self.orders_by_state.open, order_id);
        remove_text(&mut self.orders_by_state.filled, order_id);
        remove_text(&mut self.orders_by_state.canceled, order_id);
        remove_text(&mut self.orders_by_state.rejected, order_id);
        remove_text(&mut self.orders_by_state.expired, order_id);
        let ghost cleared = *self;
        let id = order_id.to_string();
        match state {
            OrderState::Open => self.orders_by_state.open.push(id),
            OrderState::Filled => self.orders_by_state.filled.push(id),
            OrderState::Canceled => self.orders_by_state.canceled.push(id),
            OrderState::Rejected => self.orders_by_state.rejected.push(id),
            OrderState::Expired => self.orders_by_state.expired.push(id),
        }
        proof {
            let goal = oms_model::by_state_after(old(self)@.by_state, order_id@, state);
            assert forall|s: OrderState| #[trigger] self.orders_by_state.model()[s] == goal[s] by {
                let list = match s {
                    OrderState::Open => cleared.orders_by_state.open@,
                    OrderState::Filled => cleared.orders_by_state.filled@,
                    OrderState::Canceled => cleared.orders_by_state.canceled@,
                    OrderState::Rejected => cleared.orders_by_state.rejected@,
                    OrderState::Expired => cleared.orders_by_state.expired@,
                };
                assert(seqs::texts(list.push(id)) =~= seqs::texts(list).push(order_id@));
            }
            assert(self.orders_by_state.model() =~= goal);
        }
    }

    /// Brings the order to its side and price level, and away from its old ones.
    fn update_price_levels(&mut self, order_id: &str, order_info: &OrderInfo, state: OrderState)
        requires
            old(self).parts_wf(),
        ensures
            final(self).parts_wf(),
            oms_model::sides_kept(
                old(self)@.bids,
                old(self)@.asks,
                old(self)@.buys,
                old(self)@.sells,
            ) ==> oms_model::sides_kept(
                final(self)@.bids,
                final(self)@.asks,
                final(self)@.buys,
                final(self)@.sells,
            ),
            final(self)@ == (OmsModel {
                buys: oms_model::known_after(old(self)@.buys, order_id@, order_info@, "buy"@),
                sells: oms_model::known_after(old(self)@.sells, order_id@, order_info@, "sell"@),
                bids: oms_model::side_after(
                    old(self)@.bids,
                    old(self)@.buys,
                    order_id@,
                    order_info@,
                    state,
                    "buy"@,
                ),
                asks: oms_model::side_after(
                    old(self)@.asks,
                    old(self)@.sells,
                    order_id@,
                    order_info@,
                    state,
                    "sell"@,
                ),
                ..old(self)@
            }),
    {
        if let Some(old_info) = self.buy_orders.get(order_id) {
            withdraw(&mut self.active_bids, old_info.price, order_id);
        }
        if let Some(old_info) = self.sell_orders.get(order_id) {
            withdraw(&mut self.active_asks, old_info.price, order_id);
        }
        proof {
            reveal_strlit("buy");
            reveal_strlit("sell");
            assert("buy"@.len() != "sell"@.len());
        }
        if same_text(order_info.direction.as_str(), "buy") {
            self.buy_orders.insert(order_id.to_string(), order_info.clone());
            if state == OrderState::Open {
                list(&mut self.active_bids, order_info.price, order_id.to_string());
            }
        } else if same_text(order_info.direction.as_str(), "sell") {
            self.sell_orders.insert(order_id.to_string(), order_info.clone());
            if state == OrderState::Open {
                list(&mut self.active_asks, order_info.price, order_id.to_string());
            }
        }
        tidy(&mut self.active_bids);
        tidy(&mut self.active_asks);
        proof {
            let before = old(self)@;
            if oms_model::sides_kept(before.bids, before.asks, before.buys, before.sells) {
                oms_model::law_report_keeps_sides(
                    before.bids,
                    before.asks,
                    before.buys,
                    before.sells,
                    order_id@,
                    order_info@,
                    state,
                );
            }
            assert(self@.buys =~= oms_model::known_after(
                old(self)@.buys,
                order_id@,
                order_info@,
                "buy"@,
            ));
            assert(self@.sells =~= oms_model::known_after(
                old(self)@.sells,
                order_id@,
                order_info@,
                "sell"@,
            ));
        }
    }

    /// Takes in the report of an order and says what the market maker is to be told, in order.
    pub fn add_or_update_order(&mut self, order: Order) -> (r: Vec<OMSUpdate>)
        requires
            old(self).wf(),
        ensures
            final(self).wf(),
            final(self)@ == oms_model::after_order(old(self)@, order),
            told(r@) == oms_model::updates_of(old(self)@, order),
            order.order_id matches Some(id) ==> final(self)@.info.dom().contains(id@)
                && final(self)@.info[id@].state == (match order.order_state {
                Some(text) => text@,
                None => order.state@,
            }),
            order.order_id matches Some(id) ==> r@.len() > 0 && (r@.last() matches
                OMSUpdate::OrderStateChanged(about, state) && about@ == id@ && state == (
            if final(self)@.info[id@].state == "filled"@ {
                OrderState::Filled
            } else if final(self)@.info[id@].state == "cancelled"@ {
                OrderState::Canceled
            } else if final(self)@.info[id@].state == "rejected"@ {
                OrderState::Rejected
            } else if final(self)@.info[id@].state == "expired"@ {
                OrderState::Expired
            } else {
                OrderState::Open
            })),
    {
        proof {
            oms_model::law_report_keeps_coherent(self@, order);
        }
        if order.order_id.is_some() {
            let order_id: String = text_or_default(&order.order_id);
            let order_info = info_from_order(&order);
            let state = state_from_text(order_info.state.as_str());
            let old_order = self.orders.insert(order_id.clone(), order.clone());
            self.order_info.insert(order_id.clone(), order_info.clone());
            assert(self@.info =~= old(self)@.info.insert(order_id@, order_info@));
            self.update_order_state(order_id.as_str(), state);
            self.update_price_levels(order_id.as_str(), &order_info, state);
            let r = send_order_updates(order_id, &order, old_order, state);
            assert(r@.len() == told(r@).len());
            assert(told(r@).last() == r@.last()@);
            r
        } else {
            let r: Vec<OMSUpdate> = Vec::new();
            assert(told(r@) =~= Seq::empty());
            r
        }
    }

    /// Takes in a trade and says what the market maker is to be told.
    pub fn add_trade(&mut self, trade: Trade) -> (r: OMSUpdate)
        requires
            old(self).wf(),
        ensures
            final(self).wf(),
            final(self)@ == oms_model::after_trade(old(self)@, trade),
            r@ == UpdateModel::NewTrade(trade),
    {
        self.trades.push(trade.clone());
        OMSUpdate::NewTrade(trade)
    }

    /// The request for the open orders of an instrument.
    pub fn open_orders_request(instrument_name: &str) -> (r: Request)
        ensures
            r.asks_about(1953, "private/get_open_orders_by_instrument"@, instrument_name@),
    {
        rpc::request(
            1953,
            "private/get_open_orders_by_instrument",
            Params::Instrument { instrument_name: instrument_name.to_string() },
        )
    }

    /// Takes in the open orders that the exchange listed, one after the other.
    pub fn fetch_open_orders(&mut self, orders: &Vec<Order>) -> (r: Vec<OMSUpdate>)
        requires
            old(self).wf(),
        ensures
            final(self).wf(),
            final(self)@ == oms_model::after_orders(old(self)@, orders@),
            told(r@) == oms_model::updates_of_all(old(self)@, orders@),
    {
        let ghost start = self@;
        let n: usize = orders.len();
        let mut r: Vec<OMSUpdate> = Vec::new();
        assert(told(r@) =~= Seq::empty());
        for i in 0..n
            invariant
                self.wf(),
                n == orders@.len(),
                self@ == oms_model::after_orders(start, orders@.take(i as int)),
                told(r@) == oms_model::updates_of_all(start, orders@.take(i as int)),
        {
            let ghost sent = r@;
            let mut more = self.add_or_update_order(orders[i].clone());
            let ghost new = more@;
            r.append(&mut more);
            proof {
                let taken = orders@.take(i + 1);
                assert(taken.drop_last() == orders@.take(i as int));
                assert(taken.last() == orders@[i as int]);
                assert(told(sent + new) =~= told(sent) + told(new));
            }
        }
        assert(orders@.take(n as int) == orders@);
        r
    }

    /// The past trades that are asked for: none.
    pub fn fetch_recent_trades(&self, _instrument_name: &str) -> (r: Vec<Trade>)
        ensures
            r@.len() == 0,
    {
        Vec::new()
    }

    /// The last reports of the orders that ever were on this side.
    pub fn get_orders_by_direction(&self, is_buy: bool) -> (r: Vec<&OrderInfo>)
        requires
            self.wf(),
        ensures
            lent(r@) == string_map::values_of(
                if is_buy {
                    self.buy_listing()
                } else {
                    self.sell_listing()
                },
            ),
            is_buy ==> shows_exactly(r@, self@.buys, |info: InfoModel| true),
            !is_buy ==> shows_exactly(r@, self@.sells, |info: InfoModel| true),
    {
        let r = if is_buy {
            self.buy_orders.values()
        } else {
            self.sell_orders.values()
        };
        assert(lent(r@) =~= string_map::values_of(
            if is_buy {
                self.buy_listing()
            } else {
                self.sell_listing()
            },
        ));
        proof {
            lemma_shows(r@, self.buy_listing(), self@.buys, |info: OrderInfo| true, |info: InfoModel| true);
            lemma_shows(
                r@,
                self.sell_listing(),
                self@.sells,
                |info: OrderInfo| true,
                |info: InfoModel| true,
            );
        }
        r
    }

    /// The highest bid level.
    pub fn get_best_bid(&self) -> (r: Option<(Binary64, &Vec<String>)>)
        requires
            self.wf(),
        ensures
            match r {
                Some((price, ids)) => self@.bids.len() > 0 && (price, seqs::texts(ids@))
                    == self@.bids.last(),
                None => self@.bids.len() == 0,
            },
            forall|id: Seq<char>| #[trigger]
                self@.info.dom().contains(id) && self@.info[id].direction == "buy"@
                    && self@.info[id].state == "open"@ ==> r is Some && self@.info[id].price.rank()
                    <= (r->0).0.rank(),
    {
        proof {
            lemma_open_is_listed(self@);
        }
        let n: usize = self.active_bids.len();
        if n > 0 {
            let level = self.active_bids.level(n - 1);
            Some((level.0, &level.1))
        } else {
            None
        }
    }

    /// The lowest ask level.
    pub fn get_best_ask(&self) -> (r: Option<(Binary64, &Vec<String>)>)
        requires
            self.wf(),
        ensures
            match r {
                Some((price, ids)) => self@.asks.len() > 0 && (price, seqs::texts(ids@))
                    == self@.asks[0],
                None => self@.asks.len() == 0,
            },
            forall|id: Seq<char>| #[trigger]
                self@.info.dom().contains(id) && self@.info[id].direction == "sell"@
                    && self@.info[id].state == "open"@ ==> r is Some && self@.info[id].price.rank()
                    >= (r->0).0.rank(),
    {
        proof {
            lemma_open_is_listed(self@);
        }
        if self.active_asks.len() > 0 {
            let level = self.active_asks.level(0);
            Some((level.0, &level.1))
        } else {
            None
        }
    }

    pub fn get_order_info(&self, order_id: &str) -> (r: Option<&OrderInfo>)
        requires
            self.wf(),
        ensures
            match r {
                Some(info) => self@.info.dom().contains(order_id@) && self@.info[order_id@]
                    == info@,
                None => !self@.info.dom().contains(order_id@),
            },
    {
        self.order_info.get(order_id)
    }

    /// The orders whose state text is `open`.
    pub fn get_active_orders(&self) -> (r: Vec<&OrderInfo>)
        requires
            self.wf(),
        ensures
            lent(r@) == string_map::values_of(self.info_listing()).filter(is_active()),
            shows_exactly(r@, self@.info, |info: InfoModel| info.state == "open"@),
    {
        let ghost all = string_map::values_of(self.info_listing());
        let n: usize = self.order_info.len();
        let mut r: Vec<&OrderInfo> = Vec::new();
        proof {
            seqs::lemma_filter_none(all, is_active());
            assert(lent(r@) =~= Seq::empty());
        }
        for i in 0..n
            invariant
                n == self.info_listing().len(),
                all == string_map::values_of(self.info_listing()),
                lent(r@) == all.take(i as int).filter(is_active()),
        {
            let info = &self.order_info.entry(i).1;
            proof {
                seqs::lemma_filter_step(all, is_active(), i as int);
                assert(lent(r@.push(info)) =~= lent(r@).push(*info));
            }
            if same_text(info.state.as_str(), "open") {
                r.push(info);
            }
        }
        assert(all.take(n as int) == all);
        proof {
            lemma_shows(
                r@,
                self.info_listing(),
                self@.info,
                is_active(),
                |info: InfoModel| info.state == "open"@,
            );
        }
        r
    }

    /// The terms of our position in an instrument: the filled amounts of its filled orders, those
    /// of buy orders as they are, the others with the sign flipped. The position is their sum.
    pub fn get_position_by_instrument(&self, instrument_name: &str) -> (r: Vec<Binary64>)
        requires
            self.wf(),
        ensures
            r@ == position_terms(string_map::values_of(self.info_listing()), instrument_name@),
            forall|id: Seq<char>| #[trigger]
                self@.info.dom().contains(id) && self@.info[id].state == "filled"@
                    && self@.info[id].instrument_name == instrument_name@ ==> r@.contains(
                    if self@.info[id].direction == "buy"@ {
                        self@.info[id].filled_amount
                    } else {
                        self@.info[id].filled_amount.negated_spec()
                    },
                ),
    {
        let ghost all = string_map::values_of(self.info_listing());
        let ghost wanted = filled_in(instrument_name@);
        let n: usize = self.order_info.len();
        let mut r: Vec<Binary64> = Vec::new();
        proof {
            seqs::lemma_filter_none(all, wanted);
            assert(r@ =~= position_terms(all.take(0), instrument_name@));
        }
        for i in 0..n
            invariant
                n == self.info_listing().len(),
                all == string_map::values_of(self.info_listing()),
                wanted == filled_in(instrument_name@),
                r@ == position_terms(all.take(i as int), instrument_name@),
        {
            let info = &self.order_info.entry(i).1;
            let ghost before = r@;
            proof {
                seqs::lemma_filter_step(all, wanted, i as int);
            }
            if same_text(info.instrument_name.as_str(), instrument_name) && same_text(
                info.state.as_str(),
                "filled",
            ) {
                if same_text(info.direction.as_str(), "buy") {
                    r.push(info.filled_amount);
                } else {
                    r.push(info.filled_amount.negated());
                }
            }
            assert(r@ =~= position_terms(all.take(i + 1), instrument_name@));
        }
        assert(all.take(n as int) == all);
        proof {
            let listing = self.info_listing();
            assert forall|id: Seq<char>| #[trigger]
                self@.info.dom().contains(id) && self@.info[id].state == "filled"@
                    && self@.info[id].instrument_name == instrument_name@ implies r@.contains(
                if self@.info[id].direction == "buy"@ {
                    self@.info[id].filled_amount
                } else {
                    self@.info[id].filled_amount.negated_spec()
                },
            ) by {
                string_map::law_values(listing);
                assert(string_map::as_map(listing).dom().contains(id));
                let info = string_map::as_map(listing)[id];
                seqs::lemma_filter_members(all, wanted, info);
                let k = choose|k: int|
                    0 <= k < all.filter(wanted).len() && all.filter(wanted)[k] == info;
                assert(r@[k] == signed_fill(info));
            }
        }
        r
    }

    /// The known orders of an instrument whose `state` is `open`.
    pub fn get_open_orders_sync(&self, instrument_name: &str) -> (r: Vec<Order>)
        requires
            self.wf(),
        ensures
            r@ == string_map::values_of(self.order_listing()).filter(open_in(instrument_name@)),
            forall|order: Order| #[trigger]
                r@.contains(order) <==> self@.orders.contains_value(order) && order.state@ == "open"@
                    && order.instrument_name is Some && order.instrument_name->0@
                    == instrument_name@,
    {
        let ghost all = string_map::values_of(self.order_listing());
        let ghost wanted = open_in(instrument_name@);
        let n: usize = self.orders.len();
        let mut r: Vec<Order> = Vec::new();
        proof {
            seqs::lemma_filter_none(all, wanted);
        }
        for i in 0..n
            invariant
                n == self.order_listing().len(),
                all == string_map::values_of(self.order_listing()),
                wanted == open_in(instrument_name@),
                r@ == all.take(i as int).filter(wanted),
        {
            let order = &self.orders.entry(i).1;
            proof {
                seqs::lemma_filter_step(all, wanted, i as int);
            }
            if names(&order.instrument_name, instrument_name) && same_text(
                order.state.as_str(),
                "open",
            ) {
                r.push(order.clone());
            }
        }
        assert(all.take(n as int) == all);
        proof {
            assert forall|order: Order| #[trigger]
                r@.contains(order) <==> self@.orders.contains_value(order) && order.state@ == "open"@
                    && order.instrument_name is Some && order.instrument_name->0@
                    == instrument_name@ by {
                lemma_listed_values(self.order_listing(), order);
                seqs::lemma_filter_members(all, wanted, order);
            }
        }
        r
    }

    /// The trades in an instrument, the oldest first.
    pub fn get_recent_trades_sync(&self, instrument_name: &str) -> (r: Vec<Trade>)
        requires
            self.wf(),
        ensures
            r@ == self@.trades.filter(traded_in(instrument_name@)),
            forall|trade: Trade| #[trigger]
                r@.contains(trade) <==> self@.trades.contains(trade) && trade.instrument_name@
                    == instrument_name@,
    {
        let ghost all = self.trades@;
        let ghost wanted = traded_in(instrument_name@);
        let n: usize = self.trades.len();
        let mut r: Vec<Trade> = Vec::new();
        proof {
            seqs::lemma_filter_none(all, wanted);
        }
        for i in 0..n
            invariant
                n == self.trades@.len(),
                all == self.trades@,
                wanted == traded_in(instrument_name@),
                r@ == all.take(i as int).filter(wanted),
        {
            proof {
                seqs::lemma_filter_step(all, wanted, i as int);
            }
            if same_text(self.trades[i].instrument_name.as_str(), instrument_name) {
                r.push(self.trades[i].clone());
            }
        }
        assert(all.take(n as int) == all);
        proof {
            assert forall|trade: Trade| #[trigger]
                r@.contains(trade) <==> self@.trades.contains(trade) && trade.instrument_name@
                    == instrument_name@ by {
                seqs::lemma_filter_members(all, wanted, trade);
            }
        }
        r
    }
}

/// No order whose state is `open` is better than the best level of its side.
proof fn lemma_open_is_listed(m: OmsModel)
    requires
        oms_model::coherent(m),
    ensures
        forall|id: Seq<char>| #[trigger]
            m.info.dom().contains(id) && m.info[id].direction == "buy"@ && m.info[id].state
                == "open"@ ==> m.bids.len() > 0 && m.info[id].price.rank()
                <= m.bids.last().0.rank(),
        forall|id: Seq<char>| #[trigger]
            m.info.dom().contains(id) && m.info[id].direction == "sell"@ && m.info[id].state
                == "open"@ ==> m.asks.len() > 0 && m.info[id].price.rank() >= m.asks[0].0.rank(),
{
    reveal_strlit("open");
    reveal_strlit("filled");
    reveal_strlit("cancelled");
    reveal_strlit("rejected");
    reveal_strlit("expired");
    assert("open"@.len() == 4 && "filled"@.len() == 6 && "cancelled"@.len() == 9 && "rejected"@.len()
        == 8 && "expired"@.len() == 7);
    oms_model::law_best_levels(m);
    assert forall|id: Seq<char>| #[trigger]
        m.info.dom().contains(id) && m.info[id].direction == "buy"@ && m.info[id].state
            == "open"@ implies m.bids.len() > 0 && m.info[id].price.rank()
        <= m.bids.last().0.rank() by {
        assert(oms_model::open_on(m.info, "buy"@).dom().contains(id));
    }
    assert forall|id: Seq<char>| #[trigger]
        m.info.dom().contains(id) && m.info[id].direction == "sell"@ && m.info[id].state
            == "open"@ implies m.asks.len() > 0 && m.info[id].price.rank()
        >= m.asks[0].0.rank() by {
        assert(oms_model::open_on(m.info, "sell"@).dom().contains(id));
    }
}

/// The borrowed infos.
pub open spec fn lent(infos: Seq<&OrderInfo>) -> Seq<OrderInfo> {
    infos.map_values(|info: &OrderInfo| *info)
}

/// Whether these are the infos of a map that pass a test, and all of them.
pub open spec fn shows_exactly(
    infos: Seq<&OrderInfo>,
    known: Map<Seq<char>, InfoModel>,
    wanted: spec_fn(InfoModel) -> bool,
) -> bool {
    &&& forall|i: int|
        0 <= i < infos.len() ==> wanted((#[trigger] infos[i])@) && known.contains_value(infos[i]@)
    &&& forall|id: Seq<char>| #[trigger]
        known.dom().contains(id) && wanted(known[id]) ==> exists|i: int|
            0 <= i < infos.len() && (#[trigger] infos[i])@ == known[id]
}

/// The values of a listing that pass a test are shown exactly.
proof fn lemma_shows(
    infos: Seq<&OrderInfo>,
    listing: Seq<(String, OrderInfo)>,
    known: Map<Seq<char>, InfoModel>,
    keep: spec_fn(OrderInfo) -> bool,
    wanted: spec_fn(InfoModel) -> bool,
)
    requires
        string_map::distinct_keys(listing),
        infos_of(string_map::as_map(listing)) == known,
        forall|info: OrderInfo| #[trigger] keep(info) == wanted(info@),
    ensures
        lent(infos) == string_map::values_of(listing).filter(keep) ==> shows_exactly(
            infos,
            known,
            wanted,
        ),
        lent(infos) == string_map::values_of(listing) && (forall|info: OrderInfo|
            #[trigger] keep(info)) ==> shows_exactly(infos, known, wanted),
{
    let all = string_map::values_of(listing);
    string_map::law_values(listing);
    if (lent(infos) == all.filter(keep)) || (lent(infos) == all && (forall|info: OrderInfo|
        #[trigger] keep(info))) {
        assert forall|info: OrderInfo| #[trigger]
            lent(infos).contains(info) <==> all.contains(info) && keep(info) by {
            seqs::lemma_filter_members(all, keep, info);
        }
        assert forall|i: int| 0 <= i < infos.len() implies wanted((#[trigger] infos[i])@)
            && known.contains_value(infos[i]@) by {
            assert(lent(infos)[i] == *infos[i]);
            assert(lent(infos).contains(*infos[i]));
            assert(keep(*infos[i]));
            let k = choose|k: int| 0 <= k < all.len() && all[k] == *infos[i];
            assert(listing[k].1 == all[k]);
            assert(known.dom().contains(listing[k].0@) && known[listing[k].0@] == infos[i]@);
        }
        assert forall|id: Seq<char>| #[trigger]
            known.dom().contains(id) && wanted(known[id]) implies exists|i: int|
            0 <= i < infos.len() && (#[trigger] infos[i])@ == known[id] by {
            let info = string_map::as_map(listing)[id];
            assert(string_map::as_map(listing).dom().contains(id));
            assert(all.contains(info) && keep(info));
            assert(lent(infos).contains(info));
            let i = choose|i: int| 0 <= i < lent(infos).len() && lent(infos)[i] == info;
            assert(infos[i]@ == known[id]);
        }
    }
}

/// The values of a listing are those of its map.
pub(crate) proof fn lemma_listed_values(listing: Seq<(String, Order)>, order: Order)
    requires
        string_map::distinct_keys(listing),
    ensures
        string_map::values_of(listing).contains(order) <==> string_map::as_map(
            listing,
        ).contains_value(order),
{
    let all = string_map::values_of(listing);
    string_map::law_values(listing);
    if all.contains(order) {
        let k = choose|k: int| 0 <= k < all.len() && all[k] == order;
        assert(listing[k].1 == all[k]);
        assert(string_map::as_map(listing).dom().contains(listing[k].0@));
    }
    if string_map::as_map(listing).contains_value(order) {
        let key = choose|key: Seq<char>|
            string_map::as_map(listing).dom().contains(key) && string_map::as_map(listing)[key]
                == order;
        assert(string_map::as_map(listing).dom().contains(key));
    }
}

/// The test for an active order.
pub open spec fn is_active() -> spec_fn(OrderInfo) -> bool {
    |info: OrderInfo| info.state@ == "open"@
}

/// The test for a filled order of this instrument.
pub open spec fn filled_in(instrument: Seq<char>) -> spec_fn(OrderInfo) -> bool {
    |info: OrderInfo| info.instrument_name@ == instrument && info.state@ == "filled"@
}

/// What an order adds to the position once it is filled.
pub open spec fn signed_fill(info: OrderInfo) -> Binary64 {
    if info.direction@ == "buy"@ {
        info.filled_amount
    } else {
        info.filled_amount.negated_spec()
    }
}

/// The terms of the position in this instrument.
pub open spec fn position_terms(infos: Seq<OrderInfo>, instrument: Seq<char>) -> Seq<Binary64> {
    infos.filter(filled_in(instrument)).map_values(|info: OrderInfo| signed_fill(info))
}

/// The test for a known order of this instrument that is open.
pub open spec fn open_in(instrument: Seq<char>) -> spec_fn(Order) -> bool {
    |order: Order|
        named(order.instrument_name, instrument) && order.state@ == "open"@
}

/// The test for a trade in this instrument.
pub open spec fn traded_in(instrument: Seq<char>) -> spec_fn(Trade) -> bool {
    |trade: Trade| trade.instrument_name@ == instrument
}

/// Whether a text is there and is this one.
pub open spec fn named(text: Option<String>, name: Seq<char>) -> bool {
    match text {
        Some(t) => t@ == name,
        None => false,
    }
}

/// Whether a text is there and is this one.
pub(crate) fn names(text: &Option<String>, name: &str) -> (r: bool)
    ensures
        r == named(*text, name@),
{
    match text {
        Some(t) => same_text(t.as_str(), name),
        None => false,
    }
}

/// What the market maker is told about a report: a fill, or else a fill that grew, and then the
/// state.
fn send_order_updates(
    order_id: String,
    order: &Order,
    old_order: Option<Order>,
    state: OrderState,
) -> (r: Vec<OMSUpdate>)
    ensures
        told(r@) == (if order.state@ == "filled"@ {
            seq![
                UpdateModel::OrderFilled(order_id@),
                UpdateModel::OrderStateChanged(order_id@, state),
            ]
        } else if oms_model::fill_grew(
            (match old_order {
                Some(o) => o.filled_amount,
                None => None,
            }),
            order.filled_amount,
        ) {
            seq![
                UpdateModel::OrderPartiallyFilled(order_id@),
                UpdateModel::OrderStateChanged(order_id@, state),
            ]
        } else {
            seq![UpdateModel::OrderStateChanged(order_id@, state)]
        }),
{
    let mut r: Vec<OMSUpdate> = Vec::new();
    if same_text(order.state.as_str(), "filled") {
        r.push(OMSUpdate::OrderFilled(order_id.clone()));
    } else {
        let before: Option<Binary64> = match &old_order {
            Some(o) => o.filled_amount,
            None => None,
        };
        match (before, order.filled_amount) {
            (Some(old_amount), Some(new_amount)) => {
                if new_amount.gt(old_amount) {
                    r.push(OMSUpdate::OrderPartiallyFilled(order_id.clone()));
                }
            },
            _ => {},
        }
    }
    let ghost first = r@;
    r.push(OMSUpdate::OrderStateChanged(order_id, state));
    assert(told(r@) =~= told(first).push(UpdateModel::OrderStateChanged(order_id@, state)));
    r
}

/// Appends a message to a list of messages.
proof fn lemma_told_push(updates: Seq<OMSUpdate>, update: OMSUpdate)
    ensures
        told(updates.push(update)) == told(updates).push(update@),
{
    assert(told(updates.push(update)) =~= told(updates).push(update@));
}

/// The data of a subscription, by what it reads as.
#[derive(Debug)]
pub struct OmsData {
    pub trade: Option<Trade>,
    pub order: Option<Order>,
}

/// What the order management system does about something on its connection.
#[derive(Debug)]
pub enum OmsReaction {
    Nothing,
    /// Tell the market maker, in order.
    Tell(Vec<OMSUpdate>),
    Send(Request),
    Pong(Vec<u8>),
    Stop,
}

/// Whether a subscription message on this channel brings a trade.
pub open spec fn brings_trade(channel: Seq<char>, data: OmsData) -> bool {
    "user.trades."@.is_prefix_of(channel) && data.trade is Some
}

/// Whether a subscription message on this channel brings an order report.
pub open spec fn brings_order(channel: Seq<char>, data: OmsData) -> bool {
    !"user.trades."@.is_prefix_of(channel) && "user.orders."@.is_prefix_of(channel)
        && data.order is Some
}

/// The state after something on the connection: only trades and order reports change it.
pub open spec fn after_signal(m: OmsModel, signal: Signal<OmsData>) -> OmsModel {
    match signal {
        Signal::Text(Inbound::Subscription { channel, data }) => if brings_trade(channel@, data) {
            oms_model::after_trade(m, data.trade->0)
        } else if brings_order(channel@, data) {
            oms_model::after_order(m, data.order->0)
        } else {
            m
        },
        _ => m,
    }
}

/// What the market maker is told about something on the connection: of a trade twice, of an order
/// report what the report changed and then once more what it says.
pub open spec fn told_of_signal(m: OmsModel, signal: Signal<OmsData>) -> Seq<UpdateModel> {
    match signal {
        Signal::Text(Inbound::Subscription { channel, data }) => if brings_trade(channel@, data) {
            seq![UpdateModel::NewTrade(data.trade->0), UpdateModel::NewTrade(data.trade->0)]
        } else if brings_order(channel@, data) {
            oms_model::updates_of(m, data.order->0) + oms_model::pushed_updates(data.order->0)
        } else {
            Seq::empty()
        },
        _ => Seq::empty(),
    }
}

/// Whether this is what is done about something on the connection.
pub open spec fn oms_reacts(
    m: OmsModel,
    signal: Signal<OmsData>,
    reaction: OmsReaction,
) -> bool {
    match signal {
        Signal::Text(Inbound::Subscription { channel, data }) => reaction matches OmsReaction::Tell(
            updates,
        ) && told(updates@) == told_of_signal(m, signal),
        Signal::Text(Inbound::Heartbeat { kind }) => reaction matches OmsReaction::Send(request)
            && request.is_probe(),
        Signal::Text(Inbound::TestRequest { kind }) => reaction matches OmsReaction::Send(request)
            && request.is_test_answer(),
        Signal::Ping(payload) => reaction == OmsReaction::Pong(payload),
        Signal::Close => reaction is Stop,
        Signal::Failed => reaction is Stop,
        Signal::Ended => reaction is Stop,
        _ => reaction is Nothing,
    }
}

impl OrderManagementSystem {
    /// Takes in something that happened on the connection and says what is to be done.
    pub fn on_signal(&mut self, signal: Signal<OmsData>) -> (r: OmsReaction)
        requires
            old(self).wf(),
        ensures
            final(self).wf(),
            final(self)@ == after_signal(old(self)@, signal),
            oms_reacts(old(self)@, signal, r),
    {
        match signal {
            Signal::Text(Inbound::Subscription { channel, data }) => OmsReaction::Tell(
                self.on_delivery(channel.as_str(), data),
            ),
            Signal::Text(Inbound::Heartbeat { kind: _ }) => OmsReaction::Send(rpc::probe()),
            Signal::Text(Inbound::TestRequest { kind: _ }) => OmsReaction::Send(
                rpc::test_answer(),
            ),
            Signal::Ping(payload) => OmsReaction::Pong(payload),
            Signal::Close => OmsReaction::Stop,
            Signal::Failed => OmsReaction::Stop,
            Signal::Ended => OmsReaction::Stop,
            _ => OmsReaction::Nothing,
        }
    }

    fn on_delivery(&mut self, channel: &str, data: OmsData) -> (r: Vec<OMSUpdate>)
        requires
            old(self).wf(),
        ensures
            final(self).wf(),
            final(self)@ == (if brings_trade(channel@, data) {
                oms_model::after_trade(old(self)@, data.trade->0)
            } else if brings_order(channel@, data) {
                oms_model::after_order(old(self)@, data.order->0)
            } else {
                old(self)@
            }),
            told(r@) == (if brings_trade(channel@, data) {
                seq![UpdateModel::NewTrade(data.trade->0), UpdateModel::NewTrade(data.trade->0)]
            } else if brings_order(channel@, data) {
                oms_model::updates_of(old(self)@, data.order->0) + oms_model::pushed_updates(
                    data.order->0,
                )
            } else {
                Seq::empty()
            }),
    {
        let mut r: Vec<OMSUpdate> = Vec::new();
        if starts_with(channel, "user.trades.") {
            if let Some(trade) = data.trade {
                r.push(self.add_trade(trade.clone()));
                r.push(OMSUpdate::NewTrade(trade));
                assert(told(r@) =~= seq![
                    UpdateModel::NewTrade(trade),
                    UpdateModel::NewTrade(trade),
                ]);
            } else {
                assert(told(r@) =~= Seq::empty());
            }
        } else if starts_with(channel, "user.orders.") {
            if let Some(order) = data.order {
                r = self.add_or_update_order(order.clone());
                let ghost first = r@;
                let order_id = text_or_default(&order.order_id);
                if same_text(order.state.as_str(), "filled") {
                    proof {
                        lemma_told_push(r@, OMSUpdate::OrderFilled(order_id));
                    }
                    r.push(OMSUpdate::OrderFilled(order_id));
                } else if same_text(order.state.as_str(), "partially_filled") {
                    proof {
                        lemma_told_push(r@, OMSUpdate::OrderPartiallyFilled(order_id));
                    }
                    r.push(OMSUpdate::OrderPartiallyFilled(order_id));
                }
                assert(told(r@) =~= told(first) + oms_model::pushed_updates(order));
            } else {
                assert(told(r@) =~= Seq::empty());
            }
        } else {
            assert(told(r@) =~= Seq::empty());
        }
        r
    }

    /// The request for the pushes of our trades and orders in an instrument.
    pub fn subscription_request(instrument_name: &str) -> (r: Request)
        ensures
            r.subscribes(
                2,
                "private/subscribe"@,
                seq![
                    "user.trades."@ + instrument_name@ + ".raw"@,
                    "user.orders."@ + instrument_name@ + ".raw"@,
                ],
            ),
    {
        let mut channels: Vec<String> = Vec::new();
        channels.push(joined("user.trades.", instrument_name, ".raw"));
        channels.push(joined("user.orders.", instrument_name, ".raw"));
        assert(seqs::texts(channels@) =~= seq![
            "user.trades."@ + instrument_name@ + ".raw"@,
            "user.orders."@ + instrument_name@ + ".raw"@,
        ]);
        rpc::request(2, "private/subscribe", Params::Channels { channels })
    }

    /// Whether the start may go on after this answer to the subscription: a JSON text, or no
    /// answer at all.
    pub fn subscription_accepted(answer: &ReplyFrame) -> (r: bool)
        ensures
            r == (match *answer {
                ReplyFrame::Text(text) => json::json_in(text@) is Some,
                ReplyFrame::Other => false,
                ReplyFrame::Ended => true,
            }),
    {
        match answer {
            ReplyFrame::Text(text) => json::parse_json(text.as_str()).is_some(),
            ReplyFrame::Other => false,
            ReplyFrame::Ended => true,
        }
    }

    /// The request for our position in an instrument.
    pub fn position_request(instrument_name: &str) -> (r: Request)
        ensures
            r.asks_about(404, "private/get_position"@, instrument_name@),
    {
        rpc::request(
            404,
            "private/get_position",
            Params::Instrument { instrument_name: instrument_name.to_string() },
        )
    }

    /// The position that a result stands for. `direct` is what the result reads as, and `nested`
    /// what the `result` in it reads as, where they are positions.
    pub fn fetch_position(
        instrument_name: &str,
        result: &Json,
        direct: Option<Position>,
        nested: Option<Position>,
    ) -> (r: Result<Position, PositionError>)
        ensures
            match r {
                Ok(position) => if result@ is Null {
                    position.is_empty_in(instrument_name@)
                } else if direct is Some {
                    position == direct->0
                } else {
                    result@.member("result"@) is Some && nested == Some(position)
                },
                Err(PositionError::NestedUnreadable) => !(result@ is Null) && direct is None
                    && result@.member("result"@) is Some && nested is None,
                Err(PositionError::Unreadable) => !(result@ is Null) && direct is None
                    && result@.member("result"@) is None,
            },
    {
        if result.is_null() {
            return Ok(Position::empty(instrument_name));
        }
        match direct {
            Some(position) => Ok(position),
            None => if result.member("result").is_some() {
                match nested {
                    Some(position) => Ok(position),
                    None => Err(PositionError::NestedUnreadable),
                }
            } else {
                Err(PositionError::Unreadable)
            },
        }
    }

    /// The list in which a result names the open orders: the result itself, or the `result` in
    /// it. Without one there are no open orders.
    pub fn open_orders_in(result: Json) -> (r: Option<Json>)
        ensures
            match r {
                Some(list) => Some(list@) == open_orders_list(result@),
                None => open_orders_list(result@) is None,
            },
    {
        let ghost whole = result@;
        let is_array = match &result {
            Json::Array(_) => true,
            _ => false,
        };
        if is_array {
            Some(result)
        } else {
            match result.into_member("result") {
                Some(inner) => {
                    let inner_is_array = match &inner {
                        Json::Array(_) => true,
                        _ => false,
                    };
                    if inner_is_array {
                        Some(inner)
                    } else {
                        None
                    }
                },
                None => None,
            }
        }
    }
}

/// The list in which a result names the open orders.
pub open spec fn open_orders_list(result: JsonModel) -> Option<JsonModel> {
    match result {
        JsonModel::Array(_) => Some(result),
        _ => match result.member("result"@) {
            Some(inner) => if inner is Array {
                Some(inner)
            } else {
                None
            },
            None => None,
        },
    }
}

/// The terms of a position, order by order: one that is filled in the instrument counts with its
/// filled amount, that of a buy as it is and any other with the sign flipped; no other order counts.
pub proof fn law_position_terms(infos: Seq<OrderInfo>, info: OrderInfo, instrument: Seq<char>)
    ensures
        position_terms(Seq::empty(), instrument).len() == 0,
        info.state@ != "filled"@ || info.instrument_name@ != instrument ==> position_terms(
            infos.push(info),
            instrument,
        ) == position_terms(infos, instrument),
        info.state@ == "filled"@ && info.instrument_name@ == instrument && info.direction@
            == "buy"@ ==> position_terms(infos.push(info), instrument) == position_terms(
            infos,
            instrument,
        ).push(info.filled_amount),
        info.state@ == "filled"@ && info.instrument_name@ == instrument && info.direction@
            != "buy"@ ==> position_terms(infos.push(info), instrument) == position_terms(
            infos,
            instrument,
        ).push(info.filled_amount.negated_spec()),
{
    reveal_with_fuel(Seq::filter, 2);
    assert(infos.push(info).drop_last() =~= infos);
    assert(position_terms(infos.push(info), instrument) =~= if info.state@ == "filled"@
        && info.instrument_name@ == instrument {
        position_terms(infos, instrument).push(signed_fill(info))
    } else {
        position_terms(infos, instrument)
    });
}

/// The lists of orders and trades, item by item: active is an info whose state is `open`; an open
/// order of an instrument is one of that name whose `state` is `open`; a trade in an instrument is
/// one of that name.
pub proof fn law_lists(
    infos: Seq<OrderInfo>,
    info: OrderInfo,
    orders: Seq<Order>,
    order: Order,
    trades: Seq<Trade>,
    trade: Trade,
    instrument: Seq<char>,
)
    ensures
        infos.push(info).filter(is_active()) == (if info.state@ == "open"@ {
            infos.filter(is_active()).push(info)
        } else {
            infos.filter(is_active())
        }),
        orders.push(order).filter(open_in(instrument)) == (if order.state@ == "open"@
            && order.instrument_name is Some && order.instrument_name->0@ == instrument {
            orders.filter(open_in(instrument)).push(order)
        } else {
            orders.filter(open_in(instrument))
        }),
        trades.push(trade).filter(traded_in(instrument)) == (if trade.instrument_name@
            == instrument {
            trades.filter(traded_in(instrument)).push(trade)
        } else {
            trades.filter(traded_in(instrument))
        }),
{
    reveal_with_fuel(Seq::filter, 2);
    assert(infos.push(info).drop_last() =~= infos);
    assert(orders.push(order).drop_last() =~= orders);
    assert(trades.push(trade).drop_last() =~= trades);
}

/// What comes on a channel of trades and reads as a trade is kept, and the market maker is told of
/// it twice.
pub proof fn law_trade_comes_in(m: OmsModel, channel: String, data: OmsData)
    requires
        "user.trades."@.is_prefix_of(channel@),
        data.trade is Some,
    ensures
        ({
            let signal = Signal::Text(Inbound::Subscription { channel, data });
            let told = told_of_signal(m, signal);
            &&& after_signal(m, signal).trades == m.trades.push(data.trade->0)
            &&& after_signal(m, signal).orders == m.orders
            &&& after_signal(m, signal).bids == m.bids
            &&& after_signal(m, signal).asks == m.asks
            &&& told.len() == 2
            &&& told[0] == UpdateModel::NewTrade(data.trade->0)
            &&& told[1] == UpdateModel::NewTrade(data.trade->0)
        }),
{
}

/// What comes on a channel of orders and reads as an order is taken in as a report; the market
/// maker is told what is told about the report, and then once more of a fill or a partial fill
/// that its `state` names.
pub proof fn law_order_comes_in(m: OmsModel, channel: String, data: OmsData)
    requires
        "user.orders."@.is_prefix_of(channel@),
        data.order is Some,
    ensures
        ({
            let signal = Signal::Text(Inbound::Subscription { channel, data });
            let order = data.order->0;
            let first = oms_model::updates_of(m, order);
            let told = told_of_signal(m, signal);
            let again = order.state@ == "filled"@ || order.state@ == "partially_filled"@;
            &&& after_signal(m, signal) == oms_model::after_order(m, order)
            &&& told.len() == first.len() + (if again { 1int } else { 0 })
            &&& told.take(first.len() as int) == first
            &&& again ==> told.last() == (if order.state@ == "filled"@ {
                UpdateModel::OrderFilled(oms_model::text_or_empty(order.order_id))
            } else {
                UpdateModel::OrderPartiallyFilled(oms_model::text_or_empty(order.order_id))
            })
        }),
{
    reveal_strlit("user.orders.");
    reveal_strlit("user.trades.");
    reveal_strlit("filled");
    reveal_strlit("partially_filled");
    assert("filled"@.len() != "partially_filled"@.len());
    let order = data.order->0;
    assert(!"user.trades."@.is_prefix_of(channel@)) by {
        assert("user.orders."@[5] == 'o' && "user.trades."@[5] == 't');
        if "user.trades."@.is_prefix_of(channel@) {
            assert(channel@[5] == "user.trades."@[5]);
            assert(channel@[5] == "user.orders."@[5]);
        }
    }
    let first = oms_model::updates_of(m, order);
    let signal = Signal::Text(Inbound::Subscription { channel, data });
    oms_model::law_pushed_again(order);
    assert(told_of_signal(m, signal).take(first.len() as int) =~= first);
}

/// Nothing else on the connection changes what is known: what comes on other channels, or reads as
/// neither, and messages that deliver nothing.
pub proof fn law_other_signals_change_nothing(m: OmsModel, signal: Signal<OmsData>)
    requires
        signal matches Signal::Text(Inbound::Subscription { channel, data }) ==> {
            &&& data.trade is None || !"user.trades."@.is_prefix_of(channel@)
            &&& data.order is None || !"user.orders."@.is_prefix_of(channel@)
        },
    ensures
        after_signal(m, signal) == m,
        told_of_signal(m, signal).len() == 0,
{
}

/// What is done about the signals that deliver nothing: a heartbeat is answered by the probe, a
/// test request by the expected answer, a ping by its payload; the end of the connection, in
/// whatever way, stops the listener; and the rest is passed over.
pub proof fn law_oms_reactions(m: OmsModel, signal: Signal<OmsData>, reaction: OmsReaction)
    requires
        oms_reacts(m, signal, reaction),
    ensures
        signal is Text && signal->Text_0 is Subscription ==> reaction is Tell && told(
            reaction->Tell_0@,
        ) == told_of_signal(m, signal),
        signal is Text && signal->Text_0 is Heartbeat ==> reaction is Send && reaction->Send_0.id
            == 8212 && reaction->Send_0.method@ == "public/test"@ && reaction->Send_0.params is Empty,
        signal is Text && signal->Text_0 is TestRequest ==> reaction is Send && reaction->Send_0.id
            == 8213 && reaction->Send_0.method@ == "public/test"@
            && reaction->Send_0.params is ExpectedResult
            && reaction->Send_0.params->expected_result@ == "test_request"@,
        signal is Ping ==> reaction is Pong && reaction->Pong_0 == signal->Ping_0,
        signal is Close || signal is Failed || signal is Ended <==> reaction is Stop,
        signal is ProbeDue || signal is RefreshDue || signal is Pong || signal is Other
            ==> reaction is Nothing,
        signal is Text && (signal->Text_0 is Response || signal->Text_0 is Malformed)
            ==> reaction is Nothing,
{
}

/// The position of someone who never traded is flat: no size, no direction, no profit or loss.
pub proof fn law_empty_position(position: Position, instrument: Seq<char>)
    requires
        position.is_empty_in(instrument),
    ensures
        position.instrument_name@ == instrument,
        position.size.bits == 0,
        position.size_currency.bits == 0,
        position.delta.bits == 0,
        position.average_price.bits == 0,
        position.index_price.bits == 0,
        position.mark_price.bits == 0,
        position.settlement_price.bits == 0,
        position.interest_value.bits == 0,
        position.floating_profit_loss.bits == 0,
        position.realized_profit_loss.bits == 0,
        position.total_profit_loss.bits == 0,
        position.initial_margin.bits == 0,
        position.maintenance_margin.bits == 0,
        position.open_orders_margin.bits == 0,
        position.leverage == 0,
        position.estimated_liquidation_price is None,
        position.direction@ == "none"@,
        position.kind@ == "future"@,
        position.state is Some && position.state->0@ == "open"@,
{
}

/// The open orders are listed by a result that is a list, or else by the list that is its
/// `result`; any other result lists none.
pub proof fn law_open_orders_list(result: JsonModel)
    ensures
        result is Array ==> open_orders_list(result) == Some(result),
        !(result is Array) && result.member("result"@) is Some && result.member("result"@)->0 is Array
            ==> open_orders_list(result) == result.member("result"@),
        !(result is Array) && (result.member("result"@) is None || !(result.member(
            "result"@,
        )->0 is Array)) ==> open_orders_list(result) is None,
{
}

/// A message stands for what it says.
pub proof fn law_update_says(id: String, trade: Trade, state: OrderState)
    ensures
        OMSUpdate::OrderFilled(id)@ == UpdateModel::OrderFilled(id@),
        OMSUpdate::OrderPartiallyFilled(id)@ == UpdateModel::OrderPartiallyFilled(id@),
        OMSUpdate::NewTrade(trade)@ == UpdateModel::NewTrade(trade),
        OMSUpdate::OrderStateChanged(id, state)@ == UpdateModel::OrderStateChanged(id@, state),
{
}

/// What is kept of an order stands for itself, field by field.
pub proof fn law_info_says(info: OrderInfo)
    ensures
        info@.price == info.price,
        info@.amount == info.amount,
        info@.filled_amount == info.filled_amount,
        info@.direction == info.direction@,
        info@.state == info.state@,
        info@.timestamp == info.timestamp,
        info@.instrument_name == info.instrument_name@,
{
}

} // verus!

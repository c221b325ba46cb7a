use market_maker::binary64::Binary64;
use market_maker::json::{parse_json, Json};
use market_maker::oms::{
    default_order_state, OMSUpdate, OmsData, OmsReaction, Order, OrderManagementSystem, OrderState,
    Position, PositionError,
};
use market_maker::orderhandler::Trade;
use market_maker::rpc::{Params, ReplyFrame};
use market_maker::session::{Inbound, Signal};

fn number(x: f64) -> Binary64 {
    Binary64::from_bits(x.to_bits())
}

fn blank() -> Order {
    Order {
        time_in_force: None,
        reduce_only: None,
        price: None,
        post_only: None,
        order_type: None,
        order_state: None,
        order_id: None,
        max_show: None,
        last_update_timestamp: None,
        label: None,
        is_rebalance: None,
        is_liquidation: None,
        instrument_name: None,
        filled_amount: None,
        direction: None,
        creation_timestamp: None,
        average_price: None,
        api: None,
        amount: None,
        state: default_order_state(),
    }
}

fn order(id: &str, direction: &str, price: f64, state: &str, filled: f64) -> Order {
    let mut o = blank();
    o.order_id = Some(id.to_string());
    o.direction = Some(direction.to_string());
    o.price = Some(number(price));
    o.order_state = Some(state.to_string());
    o.state = state.to_string();
    o.filled_amount = Some(number(filled));
    o.amount = Some(number(10.0));
    o.instrument_name = Some("BTC".to_string());
    o.creation_timestamp = Some(5);
    o
}

fn trade(direction: &str) -> Trade {
    Trade {
        trade_id: "t".to_string(),
        instrument_name: "BTC".to_string(),
        amount: number(1.0),
        price: number(2.0),
        direction: direction.to_string(),
        timestamp: 3,
    }
}

fn described(updates: &Vec<OMSUpdate>) -> Vec<String> {
    updates
        .iter()
        .map(|u| match u {
            OMSUpdate::OrderFilled(id) => format!("filled {}", id),
            OMSUpdate::OrderPartiallyFilled(id) => format!("partly {}", id),
            OMSUpdate::NewTrade(t) => format!("trade {}", t.trade_id),
            OMSUpdate::OrderStateChanged(id, state) => format!("state {} {:?}", id, state),
        })
        .collect()
}

fn best(level: Option<(Binary64, &Vec<String>)>) -> Option<(f64, Vec<String>)> {
    level.map(|(p, ids)| (f64::from_bits(p.bits), ids.clone()))
}

#[test]
fn an_order_is_open_unless_it_says_otherwise() {
    assert_eq!(default_order_state(), "open");
}

#[test]
fn a_report_is_what_is_known_of_its_order() {
    let mut oms = OrderManagementSystem::new();
    oms.add_or_update_order(order("a", "buy", 100.0, "open", 0.0));
    oms.add_or_update_order(order("b", "sell", 105.0, "open", 0.0));
    match oms.get_order_info("a") {
        Some(info) => {
            assert_eq!(info.price, number(100.0));
            assert_eq!(info.amount, number(10.0));
            assert_eq!(info.direction, "buy");
            assert_eq!(info.state, "open");
            assert_eq!(info.timestamp, 5);
            assert_eq!(info.instrument_name, "BTC");
        }
        None => panic!("not known"),
    }
    assert!(oms.get_order_info("c").is_none());
    assert_eq!(oms.get_orders_by_direction(true).len(), 1);
    assert_eq!(oms.get_orders_by_direction(false).len(), 1);
}

#[test]
fn missing_fields_take_their_defaults() {
    let mut oms = OrderManagementSystem::new();
    let mut o = blank();
    o.order_id = Some("a".to_string());
    let told = oms.add_or_update_order(o);
    assert_eq!(described(&told), vec!["state a Open"]);
    match oms.get_order_info("a") {
        Some(info) => {
            assert_eq!(info.price, number(0.0));
            assert_eq!(info.direction, "");
            assert_eq!(info.state, "open");
            assert_eq!(info.timestamp, 0);
        }
        None => panic!("not known"),
    }
    assert!(oms.get_best_bid().is_none());
    assert!(oms.get_best_ask().is_none());
}

#[test]
fn a_report_without_an_id_changes_nothing() {
    let mut oms = OrderManagementSystem::new();
    let mut o = order("a", "buy", 100.0, "open", 0.0);
    o.order_id = None;
    assert_eq!(oms.add_or_update_order(o).len(), 0);
    assert!(oms.get_best_bid().is_none());
    assert_eq!(oms.get_active_orders().len(), 0);
}

#[test]
fn the_levels_list_the_open_orders() {
    let mut oms = OrderManagementSystem::new();
    oms.add_or_update_order(order("a", "buy", 100.0, "open", 0.0));
    oms.add_or_update_order(order("b", "buy", 101.0, "open", 0.0));
    oms.add_or_update_order(order("c", "buy", 101.0, "open", 0.0));
    oms.add_or_update_order(order("d", "sell", 105.0, "open", 0.0));
    oms.add_or_update_order(order("e", "sell", 104.0, "new", 0.0));
    assert_eq!(best(oms.get_best_bid()), Some((101.0, vec!["b".to_string(), "c".to_string()])));
    assert_eq!(best(oms.get_best_ask()), Some((104.0, vec!["e".to_string()])));
    oms.add_or_update_order(order("b", "buy", 101.0, "filled", 10.0));
    assert_eq!(best(oms.get_best_bid()), Some((101.0, vec!["c".to_string()])));
    oms.add_or_update_order(order("c", "buy", 99.0, "open", 0.0));
    assert_eq!(best(oms.get_best_bid()), Some((100.0, vec!["a".to_string()])));
    oms.add_or_update_order(order("e", "sell", 104.0, "cancelled", 0.0));
    assert_eq!(best(oms.get_best_ask()), Some((105.0, vec!["d".to_string()])));
    oms.add_or_update_order(order("d", "sell", 105.0, "rejected", 0.0));
    assert!(oms.get_best_ask().is_none());
}

#[test]
fn an_order_that_changes_sides_leaves_its_old_side() {
    let mut oms = OrderManagementSystem::new();
    oms.add_or_update_order(order("a", "buy", 100.0, "open", 0.0));
    oms.add_or_update_order(order("a", "sell", 102.0, "open", 0.0));
    assert!(oms.get_best_bid().is_none());
    assert_eq!(best(oms.get_best_ask()), Some((102.0, vec!["a".to_string()])));
    oms.add_or_update_order(order("a", "buy", 101.0, "open", 0.0));
    assert_eq!(best(oms.get_best_bid()), Some((101.0, vec!["a".to_string()])));
    assert!(oms.get_best_ask().is_none());
}

#[test]
fn the_market_maker_is_told_of_fills_and_states() {
    let mut oms = OrderManagementSystem::new();
    assert_eq!(described(&oms.add_or_update_order(order("a", "buy", 1.0, "open", 0.0))), vec!["state a Open"]);
    assert_eq!(
        described(&oms.add_or_update_order(order("a", "buy", 1.0, "open", 2.0))),
        vec!["partly a", "state a Open"]
    );
    assert_eq!(described(&oms.add_or_update_order(order("a", "buy", 1.0, "open", 2.0))), vec!["state a Open"]);
    assert_eq!(
        described(&oms.add_or_update_order(order("a", "buy", 1.0, "filled", 10.0))),
        vec!["filled a", "state a Filled"]
    );
    assert_eq!(
        described(&oms.add_or_update_order(order("b", "buy", 1.0, "expired", 0.0))),
        vec!["state b Expired"]
    );
    assert_eq!(
        described(&oms.add_or_update_order(order("c", "buy", 1.0, "canceled", 0.0))),
        vec!["state c Open"]
    );
}

#[test]
fn active_orders_are_those_whose_state_is_open() {
    let mut oms = OrderManagementSystem::new();
    oms.add_or_update_order(order("a", "buy", 1.0, "open", 0.0));
    oms.add_or_update_order(order("b", "buy", 1.0, "filled", 10.0));
    oms.add_or_update_order(order("c", "buy", 1.0, "untriggered", 0.0));
    assert_eq!(oms.get_active_orders().len(), 1);
}

#[test]
fn the_position_is_made_of_signed_fills() {
    let mut oms = OrderManagementSystem::new();
    oms.add_or_update_order(order("a", "buy", 1.0, "filled", 10.0));
    oms.add_or_update_order(order("b", "sell", 1.0, "filled", 4.0));
    oms.add_or_update_order(order("c", "buy", 1.0, "open", 3.0));
    let mut other = order("d", "buy", 1.0, "filled", 7.0);
    other.instrument_name = Some("ETH".to_string());
    oms.add_or_update_order(other);
    assert_eq!(oms.get_position_by_instrument("BTC"), vec![number(10.0), number(-4.0)]);
    assert_eq!(oms.get_position_by_instrument("ETH"), vec![number(7.0)]);
    assert_eq!(oms.get_position_by_instrument("SOL"), vec![]);
}

#[test]
fn open_orders_and_trades_are_found_by_instrument() {
    let mut oms = OrderManagementSystem::new();
    oms.fetch_open_orders(&vec![
        order("a", "buy", 1.0, "open", 0.0),
        order("b", "buy", 1.0, "filled", 10.0),
    ]);
    let open = oms.get_open_orders_sync("BTC");
    assert_eq!(open.len(), 1);
    assert_eq!(open[0].order_id, Some("a".to_string()));
    assert_eq!(oms.get_open_orders_sync("ETH").len(), 0);
    assert!(matches!(oms.add_trade(trade("buy")), OMSUpdate::NewTrade(t) if t.trade_id == "t"));
    assert_eq!(oms.get_recent_trades_sync("BTC").len(), 1);
    assert_eq!(oms.get_recent_trades_sync("ETH").len(), 0);
    assert_eq!(oms.fetch_recent_trades("BTC").len(), 0);
}

#[test]
fn listed_orders_are_taken_in_one_after_the_other() {
    let mut oms = OrderManagementSystem::new();
    let told = oms.fetch_open_orders(&vec![
        order("a", "buy", 1.0, "open", 0.0),
        order("a", "buy", 1.0, "open", 5.0),
    ]);
    assert_eq!(described(&told), vec!["state a Open", "partly a", "state a Open"]);
}

fn news(channel: &str, trade: Option<Trade>, order: Option<Order>) -> Signal<OmsData> {
    Signal::Text(Inbound::Subscription { channel: channel.to_string(), data: OmsData { trade, order } })
}

fn told(reaction: OmsReaction) -> Vec<String> {
    match reaction {
        OmsReaction::Tell(updates) => described(&updates),
        _ => panic!("nothing told"),
    }
}

#[test]
fn pushed_trades_are_kept_and_told_twice() {
    let mut oms = OrderManagementSystem::new();
    let reaction = oms.on_signal(news("user.trades.BTC.raw", Some(trade("buy")), None));
    assert_eq!(told(reaction), vec!["trade t", "trade t"]);
    assert_eq!(oms.get_recent_trades_sync("BTC").len(), 1);
    assert_eq!(told(oms.on_signal(news("user.trades.BTC.raw", None, None))).len(), 0);
    assert_eq!(told(oms.on_signal(news("ticker", Some(trade("buy")), None))).len(), 0);
    assert_eq!(oms.get_recent_trades_sync("BTC").len(), 1);
}

#[test]
fn pushed_orders_are_kept_and_told() {
    let mut oms = OrderManagementSystem::new();
    let channel = "user.orders.BTC.raw";
    let reaction = oms.on_signal(news(channel, None, Some(order("a", "buy", 1.0, "filled", 10.0))));
    assert_eq!(told(reaction), vec!["filled a", "state a Filled", "filled a"]);
    let reaction = oms.on_signal(news(channel, None, Some(order("b", "buy", 1.0, "partially_filled", 1.0))));
    assert_eq!(told(reaction), vec!["state b Open", "partly b"]);
    assert_eq!(best(oms.get_best_bid()), Some((1.0, vec!["b".to_string()])));
    assert_eq!(told(oms.on_signal(news(channel, None, None))).len(), 0);
}

#[test]
fn the_connection_is_kept_alive_and_left() {
    let mut oms = OrderManagementSystem::new();
    let beat = Signal::Text(Inbound::Heartbeat { kind: "test_request".to_string() });
    assert!(matches!(oms.on_signal(beat), OmsReaction::Send(r) if r.id == 8212));
    let request = Signal::Text(Inbound::TestRequest { kind: "x".to_string() });
    assert!(matches!(oms.on_signal(request), OmsReaction::Send(r) if r.id == 8213));
    assert!(matches!(oms.on_signal(Signal::Ping(vec![9])), OmsReaction::Pong(p) if p == vec![9]));
    assert!(matches!(oms.on_signal(Signal::Text(Inbound::Response)), OmsReaction::Nothing));
    assert!(matches!(oms.on_signal(Signal::Text(Inbound::Malformed)), OmsReaction::Nothing));
    assert!(matches!(oms.on_signal(Signal::Other), OmsReaction::Nothing));
    assert!(matches!(oms.on_signal(Signal::Close), OmsReaction::Stop));
    assert!(matches!(oms.on_signal(Signal::Failed), OmsReaction::Stop));
    assert!(matches!(oms.on_signal(Signal::Ended), OmsReaction::Stop));
}

#[test]
fn the_system_asks_for_what_it_needs() {
    let r = OrderManagementSystem::subscription_request("BTC");
    assert_eq!((r.id, r.method.as_str()), (2, "private/subscribe"));
    match r.params {
        Params::Channels { channels } => {
            assert_eq!(channels, vec!["user.trades.BTC.raw".to_string(), "user.orders.BTC.raw".to_string()])
        }
        _ => panic!("no channels"),
    }
    let r = OrderManagementSystem::position_request("BTC");
    assert_eq!((r.id, r.method.as_str()), (404, "private/get_position"));
    assert!(matches!(r.params, Params::Instrument { instrument_name } if instrument_name == "BTC"));
    let r = OrderManagementSystem::open_orders_request("BTC");
    assert_eq!((r.id, r.method.as_str()), (1953, "private/get_open_orders_by_instrument"));
    assert!(matches!(r.params, Params::Instrument { instrument_name } if instrument_name == "BTC"));
}

#[test]
fn the_start_goes_on_after_json_or_no_answer() {
    let text = |t: &str| OrderManagementSystem::subscription_accepted(&ReplyFrame::Text(t.to_string()));
    assert!(text("{\"result\": []}"));
    assert!(text("{\"error\": 1}"));
    assert!(!text("no json"));
    assert!(!OrderManagementSystem::subscription_accepted(&ReplyFrame::Other));
    assert!(OrderManagementSystem::subscription_accepted(&ReplyFrame::Ended));
}

fn json(text: &str) -> Json {
    match parse_json(text) {
        Some(json) => json,
        None => panic!("not JSON"),
    }
}

#[test]
fn positions_are_taken_from_the_result_or_the_one_inside() {
    let fetch = OrderManagementSystem::fetch_position;
    let held = |size: f64| {
        let mut p = Position::empty("BTC");
        p.size = number(size);
        Some(p)
    };
    match fetch("BTC", &Json::Null, None, None) {
        Ok(p) => {
            assert_eq!(p.instrument_name, "BTC");
            assert_eq!(p.size, number(0.0));
            assert_eq!(p.direction, "none");
            assert_eq!(p.kind, "future");
            assert_eq!(p.state, Some("open".to_string()));
            assert_eq!(p.leverage, 0);
            assert_eq!(format!("{:?}", p.clone()), format!("{:?}", p));
        }
        Err(_) => panic!("no position"),
    }
    assert!(matches!(fetch("BTC", &json("{}"), held(3.0), held(4.0)), Ok(p) if p.size == number(3.0)));
    assert!(matches!(fetch("BTC", &json("{\"result\": 1}"), None, held(4.0)), Ok(p) if p.size == number(4.0)));
    assert!(matches!(fetch("BTC", &json("{\"result\": 1}"), None, None), Err(PositionError::NestedUnreadable)));
    assert!(matches!(fetch("BTC", &json("{}"), None, held(4.0)), Err(PositionError::Unreadable)));
}

#[test]
fn open_orders_are_listed_in_the_result_or_the_one_inside() {
    let list = OrderManagementSystem::open_orders_in;
    assert!(matches!(list(json("[1, 2]")), Some(Json::Array(items)) if items.len() == 2));
    assert!(matches!(list(json("{\"result\": [1]}")), Some(Json::Array(items)) if items.len() == 1));
    assert!(list(json("{\"result\": 1}")).is_none());
    assert!(list(json("{}")).is_none());
    assert!(list(json("3")).is_none());
}

#[test]
fn a_repeated_report_changes_nothing_but_the_order_of_the_lists() {
    let mut oms = OrderManagementSystem::new();
    oms.add_or_update_order(order("a", "buy", 1.0, "open", 0.0));
    oms.add_or_update_order(order("b", "buy", 1.0, "open", 0.0));
    oms.add_or_update_order(order("a", "buy", 1.0, "open", 2.0));
    assert_eq!(best(oms.get_best_bid()), Some((1.0, vec!["b".to_string(), "a".to_string()])));
    assert_eq!(described(&oms.add_or_update_order(order("a", "buy", 1.0, "open", 2.0))), vec!["state a Open"]);
    assert_eq!(best(oms.get_best_bid()), Some((1.0, vec!["b".to_string(), "a".to_string()])));
    assert_eq!(oms.get_orders_by_direction(true).len(), 2);
}

#[test]
fn states_are_told_apart() {
    assert_eq!(OrderState::Open, OrderState::Open);
    assert_ne!(OrderState::Open, OrderState::Filled);
}

use market_maker::binary64::Binary64;
use market_maker::oms::{default_order_state, Order};
use market_maker::orderhandler::Trade;
use market_maker::sharedstate::SharedState;

fn number(x: f64) -> Binary64 {
    Binary64::from_bits(x.to_bits())
}

fn order(id: Option<&str>, state: Option<&str>, filled: Option<f64>, amount: Option<f64>) -> Order {
    Order {
        time_in_force: None,
        reduce_only: None,
        price: None,
        post_only: None,
        order_type: None,
        order_state: state.map(|s| s.to_string()),
        order_id: id.map(|i| i.to_string()),
        max_show: None,
        last_update_timestamp: None,
        label: None,
        is_rebalance: None,
        is_liquidation: None,
        instrument_name: Some("BTC".to_string()),
        filled_amount: filled.map(number),
        direction: None,
        creation_timestamp: None,
        average_price: None,
        api: None,
        amount: amount.map(number),
        state: default_order_state(),
    }
}

fn ids(orders: Vec<Order>) -> Vec<String> {
    orders.into_iter().filter_map(|o| o.order_id).collect()
}

#[test]
fn a_reported_order_is_found_under_its_id() {
    let mut state = SharedState::new();
    state.add_or_update_order(order(Some("a"), Some("open"), None, None));
    state.add_or_update_order(order(Some("b"), Some("filled"), None, None));
    state.add_or_update_order(order(None, Some("open"), None, None));
    assert_eq!(ids(state.get_all_orders()), vec!["a", "b"]);
    assert!(matches!(state.get_order("b"), Some(o) if o.order_state == Some("filled".to_string())));
    assert!(state.get_order("c").is_none());
    state.add_or_update_order(order(Some("a"), Some("cancelled"), None, None));
    assert!(matches!(state.get_order("a"), Some(o) if o.order_state == Some("cancelled".to_string())));
    assert_eq!(state.get_all_orders().len(), 2);
}

#[test]
fn open_orders_say_so() {
    let mut state = SharedState::new();
    state.add_or_update_order(order(Some("a"), Some("open"), None, None));
    state.add_or_update_order(order(Some("b"), None, None, None));
    state.add_or_update_order(order(Some("c"), Some("filled"), None, None));
    let mut elsewhere = order(Some("d"), Some("open"), None, None);
    elsewhere.instrument_name = None;
    state.add_or_update_order(elsewhere);
    assert_eq!(ids(state.get_open_orders("BTC")), vec!["a"]);
    assert_eq!(state.get_open_orders("ETH").len(), 0);
}

#[test]
fn partly_filled_orders_lie_between_nothing_and_all() {
    let mut state = SharedState::new();
    state.add_or_update_order(order(Some("none"), None, Some(0.0), Some(10.0)));
    state.add_or_update_order(order(Some("part"), None, Some(4.0), Some(10.0)));
    state.add_or_update_order(order(Some("all"), None, Some(10.0), Some(10.0)));
    state.add_or_update_order(order(Some("unknown"), None, None, Some(10.0)));
    state.add_or_update_order(order(Some("unbounded"), None, Some(4.0), None));
    assert_eq!(ids(state.get_partially_filled_orders("BTC")), vec!["part"]);
}

#[test]
fn trades_are_kept_in_their_order() {
    let mut state = SharedState::new();
    for id in ["x", "y"] {
        state.add_trade(Trade {
            trade_id: id.to_string(),
            instrument_name: "BTC".to_string(),
            amount: number(1.0),
            price: number(2.0),
            direction: "buy".to_string(),
            timestamp: 3,
        });
    }
    let trades = state.get_all_trades();
    assert_eq!(trades.len(), 2);
    assert_eq!((trades[0].trade_id.as_str(), trades[1].trade_id.as_str()), ("x", "y"));
}

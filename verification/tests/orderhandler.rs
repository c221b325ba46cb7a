use market_maker::auth::DeribitConfig;
use market_maker::binary64::Binary64;
use market_maker::orderhandler::{
    OrderError, OrderHandler, OrderMessage, OrderPlan, OrderReaction, OrderSignal, OrderType, Trade,
};
use market_maker::rpc::{Params, Request};

fn number(x: f64) -> Binary64 {
    Binary64::from_bits(x.to_bits())
}

fn handler() -> OrderHandler {
    OrderHandler::new(DeribitConfig {
        url: "wss://test".to_string(),
        client_id: "id".to_string(),
        client_secret: "secret".to_string(),
        refresh_token: None,
    })
}

fn message(kind: OrderType, is_buy: Option<bool>, amount: Option<f64>, price: Option<f64>) -> OrderMessage {
    OrderMessage {
        instrument_name: "BTC".to_string(),
        order_type: kind,
        amount: amount.map(number),
        price: price.map(number),
        is_buy,
    }
}

fn is_cancel_all(r: &Request) -> bool {
    r.id == 4 && r.method == "private/cancel_all" && matches!(r.params, Params::Empty)
}

#[test]
fn market_orders_name_side_and_amount() {
    let r = handler().create_market_order("BTC", false, number(10.0));
    assert_eq!((r.id, r.method.as_str()), (5275, "private/sell"));
    match r.params {
        Params::Order { instrument_name, amount, order_type, price, post_only } => {
            assert_eq!(instrument_name, "BTC");
            assert_eq!(amount, number(10.0));
            assert_eq!(order_type, "market");
            assert_eq!(price, None);
            assert_eq!(post_only, None);
        }
        _ => panic!("no order"),
    }
}

#[test]
fn limit_orders_only_rest_on_the_book() {
    let r = handler().create_limit_order("BTC", true, number(10.0), number(97.5));
    assert_eq!((r.id, r.method.as_str()), (5276, "private/buy"));
    match r.params {
        Params::Order { order_type, price, post_only, .. } => {
            assert_eq!(order_type, "limit");
            assert_eq!(price, Some(number(97.5)));
            assert_eq!(post_only, Some(true));
        }
        _ => panic!("no order"),
    }
}

#[test]
fn messages_are_carried_out_or_refused() {
    let h = handler();
    assert!(matches!(
        h.process_order_message(message(OrderType::Market, Some(true), Some(1.0), None)),
        Ok(OrderPlan::Send(r)) if r.method == "private/buy" && r.id == 5275
    ));
    assert!(matches!(
        h.process_order_message(message(OrderType::Market, None, Some(1.0), Some(1.0))),
        Err(OrderError::MarketOrderIncomplete)
    ));
    assert!(matches!(
        h.process_order_message(message(OrderType::Market, Some(true), None, None)),
        Err(OrderError::MarketOrderIncomplete)
    ));
    match h.process_order_message(message(OrderType::Limit, Some(false), Some(1.0), Some(2.0))) {
        Ok(OrderPlan::AdjustPrice { instrument_name, is_buy, amount, price }) => {
            assert_eq!(instrument_name, "BTC");
            assert!(!is_buy);
            assert_eq!((amount, price), (number(1.0), number(2.0)));
        }
        _ => panic!("no limit order"),
    }
    assert!(matches!(
        h.process_order_message(message(OrderType::Limit, Some(false), Some(1.0), None)),
        Err(OrderError::LimitOrderIncomplete)
    ));
    assert!(matches!(
        h.process_order_message(message(OrderType::CancelAll, None, None, None)),
        Ok(OrderPlan::Send(r)) if is_cancel_all(&r)
    ));
    for kind in [OrderType::CancelOrder, OrderType::EditOrder] {
        assert!(matches!(
            h.process_order_message(message(kind, Some(true), Some(1.0), Some(1.0))),
            Err(OrderError::NotImplemented)
        ));
    }
}

#[test]
fn refusals_have_their_messages() {
    assert_eq!(OrderError::MarketOrderIncomplete.message(), "Market order requires is_buy and amount");
    assert_eq!(
        OrderError::LimitOrderIncomplete.message(),
        "Limit order requires is_buy, amount, and price"
    );
    assert_eq!(OrderError::NotImplemented.message(), "Order type not implemented");
}

#[test]
fn the_handler_reacts_to_every_signal() {
    let h = handler();
    assert!(matches!(h.on_signal(OrderSignal::ProbeDue), OrderReaction::Send(r) if r.id == 8212));
    assert!(matches!(h.on_signal(OrderSignal::RefreshDue), OrderReaction::RefreshLogin));
    assert!(matches!(
        h.on_signal(OrderSignal::Order(message(OrderType::CancelAll, None, None, None))),
        OrderReaction::CarryOut(Ok(OrderPlan::Send(r))) if is_cancel_all(&r)
    ));
    assert!(matches!(h.on_signal(OrderSignal::Text), OrderReaction::Nothing));
    assert!(matches!(h.on_signal(OrderSignal::Ping(vec![3])), OrderReaction::Pong(p) if p == vec![3]));
    assert!(matches!(h.on_signal(OrderSignal::Close), OrderReaction::Finish));
    assert!(matches!(h.on_signal(OrderSignal::Failed), OrderReaction::Abort));
    assert!(matches!(h.on_signal(OrderSignal::Other), OrderReaction::Nothing));
    assert!(matches!(h.on_signal(OrderSignal::Ended), OrderReaction::Finish));
}

#[test]
fn copies_of_messages_and_trades_hold_the_same() {
    let m = message(OrderType::Limit, Some(true), Some(1.0), None);
    assert_eq!(format!("{:?}", m.clone()), format!("{:?}", m));
    let t = Trade {
        trade_id: "t".to_string(),
        instrument_name: "BTC".to_string(),
        amount: number(1.0),
        price: number(2.0),
        direction: "buy".to_string(),
        timestamp: 3,
    };
    assert_eq!(format!("{:?}", t.clone()), format!("{:?}", t));
}

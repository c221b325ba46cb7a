use market_maker::binary64::Binary64;
use market_maker::eventbucket::{Event, EventBucket};
use market_maker::instrument_names::Instrument;
use market_maker::order_book::OrderBook;
use market_maker::portfolio::PortfolioData;
use market_maker::shared_state::{
    order_book_event, portfolio_event, volatility_event, SharedState, BUFFER_SIZE,
};
use market_maker::string_map::StringMap;
use std::sync::Arc;

fn number(x: f64) -> Binary64 {
    Binary64::from_bits(x.to_bits())
}

fn map() -> StringMap<Binary64> {
    let mut map = StringMap::new();
    map.insert("BTC-20DEC24".to_string(), number(1.5));
    map
}

fn account(delta: f64) -> PortfolioData {
    let zero = Binary64::zero();
    PortfolioData {
        maintenance_margin: zero,
        delta_total: number(delta),
        options_session_rpl: zero,
        futures_session_rpl: zero,
        delta_total_map: map(),
        session_upl: zero,
        fee_balance: zero,
        estimated_liquidation_ratio: None,
        initial_margin: zero,
        options_gamma_map: map(),
        futures_pl: zero,
        currency: "BTC".to_string(),
        options_value: zero,
        projected_maintenance_margin: zero,
        options_vega: zero,
        session_rpl: zero,
        futures_session_upl: zero,
        options_session_upl: zero,
        cross_collateral_enabled: false,
        options_theta: zero,
        margin_model: "BTC".to_string(),
        options_delta: zero,
        options_pl: zero,
        options_vega_map: map(),
        balance: zero,
        additional_reserve: zero,
        estimated_liquidation_ratio_map: Some(map()),
        projected_initial_margin: zero,
        available_funds: zero,
        spot_reserve: zero,
        projected_delta_total: zero,
        portfolio_margining_enabled: false,
        total_pl: zero,
        margin_balance: zero,
        options_theta_map: map(),
        available_withdrawal_funds: zero,
        equity: zero,
        options_gamma: zero,
    }
}

fn instrument(name: &str, expiry: i64) -> Instrument {
    let zero = Binary64::zero();
    Instrument {
        tick_size: zero,
        tick_size_steps: vec![zero],
        taker_commission: zero,
        settlement_period: "x".to_string(),
        settlement_currency: "x".to_string(),
        rfq: true,
        quote_currency: "x".to_string(),
        price_index: "x".to_string(),
        min_trade_amount: zero,
        max_liquidation_commission: zero,
        max_leverage: 0,
        maker_commission: zero,
        kind: "x".to_string(),
        is_active: true,
        instrument_name: name.to_string(),
        instrument_id: 0,
        instrument_type: "x".to_string(),
        expiration_timestamp: expiry,
        creation_timestamp: 0,
        counter_currency: "x".to_string(),
        contract_size: zero,
        block_trade_tick_size: zero,
        block_trade_min_trade_amount: zero,
        block_trade_commission: zero,
        base_currency: "x".to_string(),
    }
}

fn book(id: u64) -> OrderBook {
    let mut book = OrderBook::new("BTC".to_string());
    book.change_id = id;
    book
}

#[test]
fn nothing_is_known_at_first() {
    let state = SharedState::new(Arc::new(EventBucket::new(4)));
    assert!(state.get_latest_order_book().is_none());
    assert!(state.get_latest_portfolio().is_none());
    assert!(state.get_latest_volatility().is_none());
    assert!(state.get_instrument("A").is_none());
    assert_eq!(state.get_order_book_history().len(), 0);
}

#[test]
fn the_last_items_are_kept_in_their_order() {
    let mut state = SharedState::new(Arc::new(EventBucket::new(4)));
    for i in 0..150u64 {
        let _ = state.update_volatility(number(i as f64));
    }
    let history = state.get_volatility_history();
    assert_eq!(history.len(), BUFFER_SIZE);
    assert_eq!(history[0], number(50.0));
    assert_eq!(history[99], number(149.0));
    assert_eq!(state.get_latest_volatility(), Some(number(149.0)));
    for i in 0..101u64 {
        let _ = state.update_order_book(book(i));
    }
    let books = state.get_order_book_history();
    assert_eq!(books.len(), 100);
    assert_eq!((books[0].change_id, books[99].change_id), (1, 100));
    assert_eq!(state.get_latest_order_book().map(|b| b.change_id), Some(100));
    let _ = state.update_portfolio(account(1.0));
    let _ = state.update_portfolio(account(2.0));
    assert_eq!(state.get_portfolio_history().len(), 2);
    assert_eq!(state.get_latest_portfolio().map(|p| p.delta_total), Some(number(2.0)));
    assert_eq!(state.get_volatility_history().len(), 100);
}

#[test]
fn subscribers_are_told() {
    let bucket = Arc::new(EventBucket::new(8));
    let mut state = SharedState::new(bucket.clone());
    assert!(matches!(
        state.update_volatility(number(3.0)),
        Err(Event::VolatilityUpdate(v)) if v == number(3.0)
    ));
    let mut receiver = bucket.subscribe();
    assert!(matches!(state.update_order_book(book(7)), Ok(1)));
    assert!(matches!(state.update_portfolio(account(5.0)), Ok(1)));
    assert!(matches!(state.update_volatility(number(4.0)), Ok(1)));
    assert!(matches!(receiver.try_recv(), Ok(Event::OrderBookUpdate(b)) if b.change_id == 7));
    assert!(matches!(receiver.try_recv(), Ok(Event::PortfolioUpdate(p)) if p.delta_total == number(5.0)));
    assert!(matches!(receiver.try_recv(), Ok(Event::VolatilityUpdate(v)) if v == number(4.0)));
    assert!(receiver.try_recv().is_err());
}

#[test]
fn instruments_are_replaced() {
    let mut state = SharedState::new(Arc::new(EventBucket::new(1)));
    state.update_instruments(vec![instrument("A", 1), instrument("B", 2)]);
    state.update_instruments(vec![instrument("B", 3), instrument("B", 4)]);
    assert!(state.get_instrument("A").is_none());
    assert_eq!(state.get_instrument("B").map(|i| i.expiration_timestamp), Some(4));
}

#[test]
fn news_tell_what_they_are_made_of() {
    assert!(matches!(order_book_event(&book(7)), Event::OrderBookUpdate(b) if b.change_id == 7));
    assert!(matches!(portfolio_event(&account(5.0)), Event::PortfolioUpdate(p) if p.delta_total == number(5.0)));
    assert!(matches!(volatility_event(number(4.0)), Event::VolatilityUpdate(v) if v == number(4.0)));
}

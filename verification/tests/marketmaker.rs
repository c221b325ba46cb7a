use market_maker::binary64::Binary64;
use market_maker::instrument_names::{index_instruments, Instrument};
use market_maker::json::parse_json;
use market_maker::marketmaker::{
    number_in, EventStep, Feed, FeedStep, MarketEvent, MarketMaker, MarketMakerError,
    MarketMakerState, Parameters, ReadError, BASE_ORDER_SIZE, CONTRACT_SIZE, NO_ASK, POSITION_TOLERANCE,
    REQUOTE_DISTANCE, TICK_SIZE,
};
use market_maker::oms::{default_order_state, OMSUpdate, Order, OrderManagementSystem, OrderState};
use market_maker::order_book::OrderBook;
use market_maker::orderhandler::{OrderType, Trade};

fn number(x: f64) -> Binary64 {
    Binary64::from_bits(x.to_bits())
}

fn instrument(name: &str, expiry: i64) -> Instrument {
    let zero = Binary64::zero();
    Instrument {
        tick_size: zero,
        tick_size_steps: vec![zero],
        taker_commission: zero,
        settlement_period: "x".to_string(),
        settlement_currency: "x".to_string(),
        rfq: true,
        quote_currency: "x".to_string(),
        price_index: "x".to_string(),
        min_trade_amount: zero,
        max_liquidation_commission: zero,
        max_leverage: 0,
        maker_commission: zero,
        kind: "x".to_string(),
        is_active: true,
        instrument_name: name.to_string(),
        instrument_id: 0,
        instrument_type: "x".to_string(),
        expiration_timestamp: expiry,
        creation_timestamp: 0,
        counter_currency: "x".to_string(),
        contract_size: zero,
        block_trade_tick_size: zero,
        block_trade_min_trade_amount: zero,
        block_trade_commission: zero,
        base_currency: "x".to_string(),
    }
}

fn maker() -> MarketMaker {
    MarketMaker::new(
        index_instruments(vec![instrument("BTC", 1000), instrument("ETH", 2000)]),
        Parameters { risk_aversion: number(0.5), book_depth: 1 },
    )
}

fn book(name: &str) -> OrderBook {
    let mut book = OrderBook::new(name.to_string());
    for (price, amount) in [(98.0, 3.0), (99.0, 2.0), (99.5, 1.0)] {
        book.bids.insert(number(price), number(amount));
    }
    for (price, amount) in [(100.0, 4.0), (101.0, 5.0)] {
        book.asks.insert(number(price), number(amount));
    }
    book
}

fn quoting() -> MarketMaker {
    let mut m = maker();
    m.handle_waiting_for_feeds(Feed::OrderBook("BTC".to_string()));
    m.handle_waiting_for_feeds(Feed::Portfolio("{\"delta_total\": 0}".to_string()));
    let step = m.handle_waiting_for_feeds(Feed::Volatility("{\"volatility\": 0}".to_string()));
    assert_eq!(step, FeedStep::AllFeedsIn);
    m.initialize_position(number(0.0));
    m.start_quoting();
    m
}

fn waiting() -> MarketMaker {
    let mut m = quoting();
    assert!(m.handle_quoting(&book("BTC")).is_ok());
    m.quotes_placed(number(99.75));
    m
}

fn filled() -> MarketMaker {
    let mut m = waiting();
    let fill = MarketEvent::Oms(OMSUpdate::OrderFilled("a".to_string()));
    assert_eq!(m.handle_waiting_for_event(fill), EventStep::Leave);
    m
}

fn trade(direction: &str) -> Trade {
    Trade {
        trade_id: "t".to_string(),
        instrument_name: "BTC".to_string(),
        amount: number(3.0),
        price: number(2.0),
        direction: direction.to_string(),
        timestamp: 3,
    }
}

#[test]
fn constants_are_the_numbers_they_stand_for() {
    assert_eq!(f64::from_bits(TICK_SIZE), 2.5);
    assert_eq!(f64::from_bits(CONTRACT_SIZE), 10.0);
    assert_eq!(f64::from_bits(REQUOTE_DISTANCE), 16.0 * 2.5);
    assert_eq!(f64::from_bits(POSITION_TOLERANCE), 0.0001);
    assert_eq!(f64::from_bits(NO_ASK), f64::MAX);
    assert_eq!(f64::from_bits(BASE_ORDER_SIZE), 0.1);
}

#[test]
fn quoting_needs_all_feeds() {
    let mut m = maker();
    assert_eq!(m.state, MarketMakerState::WaitingForFeeds);
    let volatility = "{\"volatility\": 55.5}".to_string();
    assert_eq!(m.handle_waiting_for_feeds(Feed::Volatility(volatility)), FeedStep::KeepWaiting);
    assert_eq!(m.current_volatility, number(55.5));
    assert_eq!(m.handle_waiting_for_feeds(Feed::OrderBook("BTC".to_string())), FeedStep::KeepWaiting);
    assert_eq!(m.handle_waiting_for_feeds(Feed::OrderBook("ETH".to_string())), FeedStep::KeepWaiting);
    assert_eq!(m.current_instrument, "ETH");
    assert_eq!(m.handle_waiting_for_feeds(Feed::Closed), FeedStep::Closed);
    assert_eq!(m.handle_waiting_for_feeds(Feed::Portfolio("?".to_string())), FeedStep::AllFeedsIn);
    assert_eq!(m.delta_total, number(0.0));
    assert_eq!(m.state, MarketMakerState::WaitingForFeeds);
    m.initialize_position(number(-20.0));
    assert_eq!(m.current_position, number(-20.0));
    assert_eq!(m.state, MarketMakerState::WaitingForFeeds);
    m.start_quoting();
    assert_eq!(m.state, MarketMakerState::Quoting);
}

#[test]
fn quotes_start_from_the_book() {
    let mut m = quoting();
    match m.handle_quoting(&book("BTC")) {
        Ok(basis) => {
            assert_eq!(basis.expiration_timestamp, 1000);
            assert_eq!(basis.mid, Some((number(99.5), number(100.0))));
            assert_eq!(basis.bid_volumes, vec![number(1.0), number(2.0), number(3.0)]);
            assert_eq!(basis.ask_volumes, vec![number(4.0), number(5.0)]);
            assert_eq!(basis.bid_liquidity, vec![number(1.0)]);
            assert_eq!(basis.ask_liquidity, vec![number(4.0)]);
            assert_eq!(basis.best_bid, number(99.5));
            assert_eq!(basis.best_ask, number(100.0));
        }
        Err(_) => panic!("no quotes"),
    }
    assert_eq!(m.current_instrument, "BTC");
    m.quotes_placed(number(99.0));
    assert_eq!(m.state, MarketMakerState::WaitingForEvent);
    assert_eq!(m.last_reservation_price, number(99.0));
}

#[test]
fn an_unlisted_instrument_is_not_quoted() {
    let mut m = quoting();
    assert!(matches!(m.handle_quoting(&book("SOL")), Err(MarketMakerError::InstrumentNotFound)));
    assert_eq!(m.current_instrument, "SOL");
    assert!(!m.quotes_listed_instrument());
    assert!(waiting().quotes_listed_instrument());
}

#[test]
fn an_empty_book_has_no_mid_price() {
    let empty = OrderBook::new("BTC".to_string());
    match quoting().calculate_quotes(&empty) {
        Ok(basis) => {
            assert_eq!(basis.mid, None);
            assert_eq!(basis.best_bid, number(0.0));
            assert_eq!(basis.best_ask, number(f64::MAX));
        }
        Err(_) => panic!("no quotes"),
    }
    let mut negative = book("BTC");
    negative.bids = OrderBook::new("BTC".to_string()).bids;
    negative.bids.insert(number(-1.0), number(1.0));
    assert_eq!(quoting().calculate_mid_price(&negative), None);
}

#[test]
fn crossing_quotes_are_found() {
    let m = quoting();
    match m.calculate_quotes(&book("BTC")) {
        Ok(basis) => {
            let c = m.crossing(&basis, number(100.0), number(100.5));
            assert!(c.bid && !c.ask);
            let c = m.crossing(&basis, number(97.5), number(99.5));
            assert!(!c.bid && c.ask);
            let c = m.crossing(&basis, number(f64::NAN), number(f64::NAN));
            assert!(!c.bid && !c.ask);
        }
        Err(_) => panic!("no quotes"),
    }
}

#[test]
fn quotes_are_limit_orders_of_at_least_one_contract() {
    let (bid, ask) =
        quoting().place_quotes(&book("BTC"), number(97.5), number(102.5), number(0.0), number(30.0));
    assert_eq!(bid.order_type, OrderType::Limit);
    assert_eq!(bid.instrument_name, "BTC");
    assert_eq!((bid.is_buy, bid.price, bid.amount), (Some(true), Some(number(97.5)), Some(number(10.0))));
    assert_eq!((ask.is_buy, ask.price, ask.amount), (Some(false), Some(number(102.5)), Some(number(30.0))));
    let (bid, _) = quoting().place_quotes(
        &book("BTC"),
        number(1.0),
        number(2.0),
        number(f64::NAN),
        number(1.0),
    );
    assert_eq!(bid.amount, Some(number(10.0)));
}

#[test]
fn quotes_are_cancelled_when_the_price_has_moved_far() {
    let mut m = waiting();
    assert_eq!(m.handle_waiting_for_event(MarketEvent::OrderBook(number(39.9))), EventStep::KeepWaiting);
    assert_eq!(m.handle_waiting_for_event(MarketEvent::OrderBook(number(f64::NAN))), EventStep::KeepWaiting);
    assert_eq!(m.handle_waiting_for_event(MarketEvent::OrderBook(number(40.0))), EventStep::Leave);
    assert_eq!(m.state, MarketMakerState::CancelQuotes);
    let cancel = m.cancel_message();
    assert_eq!(cancel.order_type, OrderType::CancelAll);
    assert_eq!(cancel.instrument_name, "BTC");
    assert_eq!((cancel.amount, cancel.price, cancel.is_buy), (None, None, None));
    assert_eq!(m.handle_cancel_quotes(false), Err(MarketMakerError::CancelNotSent));
    assert_eq!(m.state, MarketMakerState::CancelQuotes);
    assert!(m.handle_cancel_quotes(true).is_ok());
    assert_eq!(m.state, MarketMakerState::Quoting);
}

#[test]
fn fills_are_acted_on() {
    let updates = vec![
        (OMSUpdate::OrderFilled("a".to_string()), EventStep::Leave),
        (OMSUpdate::OrderPartiallyFilled("a".to_string()), EventStep::Leave),
        (OMSUpdate::NewTrade(trade("buy")), EventStep::LeaveAfterTrade(number(3.0))),
        (OMSUpdate::NewTrade(trade("sell")), EventStep::LeaveAfterTrade(number(-3.0))),
        (OMSUpdate::OrderStateChanged("a".to_string(), OrderState::Filled), EventStep::Leave),
    ];
    for (update, step) in updates {
        let mut m = waiting();
        assert_eq!(m.handle_waiting_for_event(MarketEvent::Oms(update)), step);
        assert_eq!(m.state, MarketMakerState::Filled);
    }
    let mut m = waiting();
    let open = OMSUpdate::OrderStateChanged("a".to_string(), OrderState::Open);
    assert_eq!(m.handle_waiting_for_event(MarketEvent::Oms(open)), EventStep::KeepWaiting);
    assert_eq!(m.state, MarketMakerState::WaitingForEvent);
}

#[test]
fn data_is_taken_in_while_quotes_rest() {
    let mut m = waiting();
    let data = "{\"delta_total\": -0.5}".to_string();
    assert_eq!(m.handle_waiting_for_event(MarketEvent::Portfolio(data)), EventStep::KeepWaiting);
    assert_eq!(m.delta_total, number(-0.5));
    let data = "{\"volatility\": 60}".to_string();
    assert_eq!(m.handle_waiting_for_event(MarketEvent::Volatility(data)), EventStep::KeepWaiting);
    assert_eq!(m.current_volatility, number(60.0));
    assert_eq!(m.handle_waiting_for_event(MarketEvent::Closed), EventStep::Closed);
    assert_eq!(m.state, MarketMakerState::WaitingForEvent);
}

#[test]
fn after_a_fill_everything_is_brought_up_to_date() {
    let none: Vec<String> = vec![];
    let mut m = filled();
    assert!(matches!(
        m.handle_filled(false, Some(number(1.0)), None, &none, &none),
        Err(MarketMakerError::CancelAfterFillNotSent)
    ));
    assert_eq!(m.current_position, number(0.0));
    assert!(matches!(
        m.handle_filled(true, Some(number(1.0)), None, &none, &none),
        Err(MarketMakerError::NoFreshOrderBook)
    ));
    assert_eq!(m.current_position, number(1.0));
    let deltas = vec!["{\"delta_total\": 1}".to_string(), "{\"delta_total\": 2}".to_string(), "x".to_string()];
    let levels = vec!["{\"volatility\": 3}".to_string()];
    assert!(m.handle_filled(true, None, Some(&book("ETH")), &deltas, &levels).is_ok());
    assert_eq!(m.current_position, number(1.0));
    assert_eq!(m.delta_total, number(2.0));
    assert_eq!(m.current_volatility, number(3.0));
    assert_eq!(m.current_instrument, "BTC");
    assert!(matches!(
        m.handle_filled(true, None, Some(&book("SOL")), &none, &none),
        Err(MarketMakerError::InstrumentNotFound)
    ));
}

#[test]
fn the_reservation_price_starts_from_the_quoted_instrument() {
    let basis = waiting().reservation_basis(&book("ETH"));
    assert_eq!(basis.expiration_timestamp, 1000);
    assert_eq!(basis.mid, Some((number(99.5), number(100.0))));
}

#[test]
fn the_inventory_is_the_delta_while_quoting_and_else_the_position() {
    let mut m = quoting();
    m.delta_total = number(1.5);
    m.current_position = number(20.0);
    assert_eq!(m.reservation_inventory(), number(1.5));
    assert!(m.handle_quoting(&book("BTC")).is_ok());
    m.quotes_placed(number(99.0));
    assert_eq!(m.reservation_inventory(), number(20.0));
    let mut m = filled();
    m.current_position = number(-5.0);
    assert_eq!(m.reservation_inventory(), number(-5.0));
}

#[test]
fn numbers_are_read_where_they_are() {
    let mut m = maker();
    assert!(m.update_delta_total("{\"delta_total\": 4}").is_ok());
    assert_eq!(m.update_delta_total("{\"delta_total\": \"4\"}"), Err(ReadError::Missing));
    assert_eq!(m.update_delta_total("{}"), Err(ReadError::Missing));
    assert_eq!(m.update_delta_total("[1]"), Err(ReadError::Missing));
    assert_eq!(m.update_delta_total("{"), Err(ReadError::Unreadable));
    assert_eq!(m.delta_total, number(4.0));
    assert!(m.update_volatility("{\"volatility\": 5.5}").is_ok());
    assert_eq!(m.update_volatility("null"), Err(ReadError::Missing));
    assert_eq!(m.update_volatility(""), Err(ReadError::Unreadable));
    assert_eq!(m.current_volatility, number(5.5));
    let json = parse_json("{\"delta_total\": 6, \"volatility\": 7}");
    assert!(m.take_delta_total(&json).is_ok());
    assert!(m.take_volatility(&json).is_ok());
    assert_eq!((m.delta_total, m.current_volatility), (number(6.0), number(7.0)));
    assert_eq!(m.take_volatility(&None), Err(ReadError::Unreadable));
    assert_eq!(number_in(&json, "volatility"), Ok(number(7.0)));
}

#[test]
fn positions_are_taken_over_when_they_differ() {
    let mut m = waiting();
    m.handle_position_update(number(5.0), number(0.0001));
    assert_eq!(m.current_position, number(0.0));
    assert_eq!(m.state, MarketMakerState::WaitingForEvent);
    m.handle_position_update(number(0.05), number(0.05));
    assert_eq!(m.current_position, number(0.05));
    assert_eq!(m.state, MarketMakerState::WaitingForEvent);
    m.handle_position_update(number(0.15), number(0.1));
    assert_eq!(m.state, MarketMakerState::WaitingForEvent);
}

#[test]
fn a_significant_change_of_the_position_takes_the_quotes_off_the_book() {
    let mut m = waiting();
    m.handle_position_update(number(-5.0), number(5.0));
    assert_eq!(m.current_position, number(-5.0));
    assert_eq!(m.state, MarketMakerState::CancelQuotes);
}

#[test]
fn trades_change_the_position_by_their_signed_amounts() {
    let changes = maker().update_current_position(&vec![trade("buy"), trade("sell"), trade("")]);
    assert_eq!(changes, vec![number(3.0), number(-3.0), number(-3.0)]);
}

#[test]
fn no_active_order_is_a_filled_one() {
    let mut oms = OrderManagementSystem::new();
    for (id, state) in [("a", "open"), ("b", "filled")] {
        oms.add_or_update_order(Order {
            time_in_force: None,
            reduce_only: None,
            price: None,
            post_only: None,
            order_type: None,
            order_state: Some(state.to_string()),
            order_id: Some(id.to_string()),
            max_show: None,
            last_update_timestamp: None,
            label: None,
            is_rebalance: None,
            is_liquidation: None,
            instrument_name: None,
            filled_amount: None,
            direction: None,
            creation_timestamp: None,
            average_price: None,
            api: None,
            amount: None,
            state: default_order_state(),
        });
    }
    assert!(!maker().check_orders_filled(&oms));
}

#[test]
fn stops_have_their_messages() {
    assert_eq!(MarketMakerError::InstrumentNotFound.message(), "Instrument not found");
    assert_eq!(MarketMakerError::CancelNotSent.message(), "Failed to send cancel all orders message");
    assert_eq!(
        MarketMakerError::CancelAfterFillNotSent.message(),
        "Failed to send cancel message after fill"
    );
    assert_eq!(MarketMakerError::NoFreshOrderBook.message(), "Failed to get fresh order book");
}

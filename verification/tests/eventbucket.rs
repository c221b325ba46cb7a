use market_maker::binary64::Binary64;
use market_maker::eventbucket::{Event, EventBucket, MAX_CAPACITY};
use market_maker::instrument_names::Instrument;
use market_maker::oms::{default_order_state, Order};
use market_maker::order_book::OrderBook;
use market_maker::portfolio::PortfolioData;
use market_maker::string_map::StringMap;

fn number(x: f64) -> Binary64 {
    Binary64::from_bits(x.to_bits())
}

fn map() -> StringMap<Binary64> {
    let mut map = StringMap::new();
    map.insert("BTC-20DEC24".to_string(), number(1.5));
    map
}

fn account(delta: f64) -> PortfolioData {
    let zero = Binary64::zero();
    PortfolioData {
        maintenance_margin: zero,
        delta_total: number(delta),
        options_session_rpl: zero,
        futures_session_rpl: zero,
        delta_total_map: map(),
        session_upl: zero,
        fee_balance: zero,
        estimated_liquidation_ratio: None,
        initial_margin: zero,
        options_gamma_map: map(),
        futures_pl: zero,
        currency: "BTC".to_string(),
        options_value: zero,
        projected_maintenance_margin: zero,
        options_vega: zero,
        session_rpl: zero,
        futures_session_upl: zero,
        options_session_upl: zero,
        cross_collateral_enabled: false,
        options_theta: zero,
        margin_model: "BTC".to_string(),
        options_delta: zero,
        options_pl: zero,
        options_vega_map: map(),
        balance: zero,
        additional_reserve: zero,
        estimated_liquidation_ratio_map: Some(map()),
        projected_initial_margin: zero,
        available_funds: zero,
        spot_reserve: zero,
        projected_delta_total: zero,
        portfolio_margining_enabled: false,
        total_pl: zero,
        margin_balance: zero,
        options_theta_map: map(),
        available_withdrawal_funds: zero,
        equity: zero,
        options_gamma: zero,
    }
}

fn instrument(name: &str, expiry: i64) -> Instrument {
    let zero = Binary64::zero();
    Instrument {
        tick_size: zero,
        tick_size_steps: vec![zero],
        taker_commission: zero,
        settlement_period: "x".to_string(),
        settlement_currency: "x".to_string(),
        rfq: true,
        quote_currency: "x".to_string(),
        price_index: "x".to_string(),
        min_trade_amount: zero,
        max_liquidation_commission: zero,
        max_leverage: 0,
        maker_commission: zero,
        kind: "x".to_string(),
        is_active: true,
        instrument_name: name.to_string(),
        instrument_id: 0,
        instrument_type: "x".to_string(),
        expiration_timestamp: expiry,
        creation_timestamp: 0,
        counter_currency: "x".to_string(),
        contract_size: zero,
        block_trade_tick_size: zero,
        block_trade_min_trade_amount: zero,
        block_trade_commission: zero,
        base_currency: "x".to_string(),
    }
}

fn order() -> Order {
    Order {
        time_in_force: None,
        reduce_only: None,
        price: None,
        post_only: None,
        order_type: None,
        order_state: None,
        order_id: Some("a".to_string()),
        max_show: None,
        last_update_timestamp: None,
        label: None,
        is_rebalance: None,
        is_liquidation: None,
        instrument_name: None,
        filled_amount: None,
        direction: None,
        creation_timestamp: None,
        average_price: None,
        api: None,
        amount: None,
        state: default_order_state(),
    }
}

#[test]
fn events_come_back_where_nobody_listens() {
    let bucket = EventBucket::new(2);
    assert!(matches!(
        bucket.send(Event::VolatilityUpdate(number(1.0))),
        Err(Event::VolatilityUpdate(v)) if v == number(1.0)
    ));
}

#[test]
fn every_subscriber_gets_every_event_from_then_on() {
    let bucket = EventBucket::new(4);
    let mut first = bucket.subscribe();
    assert!(matches!(bucket.send(Event::VolatilityUpdate(number(1.0))), Ok(1)));
    let mut second = bucket.subscribe();
    assert!(matches!(bucket.send(Event::VolatilityUpdate(number(2.0))), Ok(2)));
    assert!(matches!(first.try_recv(), Ok(Event::VolatilityUpdate(v)) if v == number(1.0)));
    assert!(matches!(first.try_recv(), Ok(Event::VolatilityUpdate(v)) if v == number(2.0)));
    assert!(matches!(second.try_recv(), Ok(Event::VolatilityUpdate(v)) if v == number(2.0)));
    assert!(second.try_recv().is_err());
}

#[test]
fn copies_of_events_tell_the_same() {
    let events = vec![
        Event::OrderBookUpdate(OrderBook::new("BTC".to_string())),
        Event::PortfolioUpdate(account(1.0)),
        Event::VolatilityUpdate(number(2.0)),
        Event::InstrumentUpdate(instrument("A", 3)),
        Event::OrderUpdate(order()),
    ];
    for event in events {
        assert_eq!(format!("{:?}", event.clone()), format!("{:?}", event));
    }
}

#[test]
fn a_slow_subscriber_finds_the_capacity_rounded_up_to_a_power_of_two() {
    for (capacity, room) in [(1usize, 1usize), (3, 4), (4, 4), (5, 8)] {
        let bucket = EventBucket::new(capacity);
        let mut receiver = bucket.subscribe();
        for i in 0..20 {
            assert!(matches!(bucket.send(Event::VolatilityUpdate(number(i as f64))), Ok(1)));
        }
        assert!(receiver.try_recv().is_err());
        let mut kept: Vec<Binary64> = Vec::new();
        while let Ok(Event::VolatilityUpdate(v)) = receiver.try_recv() {
            kept.push(v);
        }
        assert_eq!(kept.len(), room);
        assert_eq!(kept[0], number((20 - room) as f64));
    }
}

#[test]
fn an_event_and_its_slot_take_between_a_quarter_and_half_a_kibibyte() {
    let size = std::mem::size_of::<Event>();
    let overhead = 4 * std::mem::size_of::<u64>();
    assert!(size > 256 && size + overhead < 512);
    assert_eq!(MAX_CAPACITY, 1usize << (usize::BITS - 10));
}

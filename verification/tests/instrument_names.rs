use market_maker::binary64::Binary64;
use market_maker::instrument_names::{
    cache_instruments, fetch_instruments, get_instruments, index_instruments, instruments_url,
    load_cached_instruments, Instrument, InstrumentResponse, InstrumentSource, CACHE_FILE,
};

fn instrument(name: &str, expiry: i64) -> Instrument {
    let zero = Binary64::zero();
    Instrument {
        tick_size: zero,
        tick_size_steps: vec![zero],
        taker_commission: zero,
        settlement_period: "x".to_string(),
        settlement_currency: "x".to_string(),
        rfq: true,
        quote_currency: "x".to_string(),
        price_index: "x".to_string(),
        min_trade_amount: zero,
        max_liquidation_commission: zero,
        max_leverage: 0,
        maker_commission: zero,
        kind: "x".to_string(),
        is_active: true,
        instrument_name: name.to_string(),
        instrument_id: 0,
        instrument_type: "x".to_string(),
        expiration_timestamp: expiry,
        creation_timestamp: 0,
        counter_currency: "x".to_string(),
        contract_size: zero,
        block_trade_tick_size: zero,
        block_trade_min_trade_amount: zero,
        block_trade_commission: zero,
        base_currency: "x".to_string(),
    }
}

#[test]
fn the_address_names_currency_and_kind() {
    assert_eq!(
        instruments_url("BTC", "future"),
        "https://www.deribit.com/api/v2/public/get_instruments?currency=BTC&kind=future"
    );
    assert_eq!(CACHE_FILE, "instrument_cache.json");
}

#[test]
fn instruments_are_found_by_name_and_the_last_of_a_name_counts() {
    let response = InstrumentResponse {
        jsonrpc: "2.0".to_string(),
        result: vec![instrument("A", 1), instrument("B", 2), instrument("A", 3)],
    };
    let map = fetch_instruments(response);
    assert_eq!(map.len(), 2);
    assert_eq!(map.get("A").map(|i| i.expiration_timestamp), Some(3));
    assert_eq!(map.get("B").map(|i| i.expiration_timestamp), Some(2));
    assert!(map.get("C").is_none());
    assert_eq!(index_instruments(vec![]).len(), 0);
}

#[test]
fn the_cache_stands_in_for_the_exchange() {
    assert_eq!(get_instruments(true, true), InstrumentSource::Exchange);
    assert_eq!(get_instruments(true, false), InstrumentSource::Exchange);
    assert_eq!(get_instruments(false, true), InstrumentSource::Cache);
    assert_eq!(get_instruments(false, false), InstrumentSource::Nowhere);
}

#[test]
fn copies_of_instruments_hold_the_same() {
    assert_eq!(format!("{:?}", instrument("A", 1).clone()), format!("{:?}", instrument("A", 1)));
}

#[test]
fn the_cache_gives_back_what_was_fetched() {
    let fetched = index_instruments(vec![instrument("A", 1), instrument("B", 2), instrument("A", 3)]);
    let mut entries = cache_instruments(&fetched);
    assert_eq!(entries.len(), 2);
    entries.reverse();
    let loaded = load_cached_instruments(entries);
    assert_eq!(loaded.len(), 2);
    for name in ["A", "B"] {
        assert_eq!(format!("{:?}", loaded.get(name)), format!("{:?}", fetched.get(name)));
        assert_eq!(loaded.get(name).map(|i| i.instrument_name.as_str()), Some(name));
    }
    let twice = vec![("A".to_string(), instrument("A", 1)), ("A".to_string(), instrument("A", 2))];
    assert_eq!(load_cached_instruments(twice).get("A").map(|i| i.expiration_timestamp), Some(2));
}

use market_maker::binancefeed::{BinanceFeed, TickerData, TickerReaction, TickerSignal};

fn ticker() -> TickerData {
    let t = || "1".to_string();
    TickerData {
        e: "24hrTicker".to_string(),
        E: 1,
        s: "BTCUSDT".to_string(),
        p: t(),
        P: t(),
        w: t(),
        x: t(),
        c: t(),
        Q: t(),
        b: t(),
        B: t(),
        a: t(),
        A: t(),
        o: t(),
        h: t(),
        l: t(),
        v: t(),
        q: t(),
        O: 2,
        C: 3,
        F: 4,
        L: 5,
        n: 6,
    }
}

#[test]
fn the_stream_is_named_in_lower_case() {
    let feed = BinanceFeed::new("wss://stream.binance.com:9443".to_string());
    assert_eq!(feed.ticker_url("BTCusdt"), "wss://stream.binance.com:9443/ws/btcusdt@ticker");
    assert_eq!(feed.ticker_url("\u{c4}B"), "wss://stream.binance.com:9443/ws/\u{e4}b@ticker");
    assert_eq!(feed.stream_url("BTC"), "wss://stream.binance.com:9443/ws/BTC@ticker");
}

#[test]
fn the_feed_reacts_to_every_signal() {
    let feed = BinanceFeed::new(String::new());
    assert!(matches!(feed.on_signal(TickerSignal::Ticker(ticker())), TickerReaction::Report(t) if t.s == "BTCUSDT"));
    assert!(matches!(feed.on_signal(TickerSignal::UnreadableText), TickerReaction::ReportUnreadable));
    assert!(matches!(feed.on_signal(TickerSignal::Ping(vec![1, 2])), TickerReaction::Pong(p) if p.is_empty()));
    assert!(matches!(feed.on_signal(TickerSignal::Other), TickerReaction::Nothing));
    assert!(matches!(feed.on_signal(TickerSignal::Failed), TickerReaction::ReportFailure));
    assert!(matches!(feed.on_signal(TickerSignal::Ended), TickerReaction::Finish));
}

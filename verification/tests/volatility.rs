use market_maker::auth::DeribitConfig;
use market_maker::rpc::Params;
use market_maker::session::{Inbound, Reaction, Signal};
use market_maker::volatility::VolatilityManager;

fn manager() -> VolatilityManager {
    VolatilityManager::new(DeribitConfig {
        url: "wss://test".to_string(),
        client_id: "id".to_string(),
        client_secret: "secret".to_string(),
        refresh_token: None,
    })
}

#[test]
fn the_index_is_subscribed_to() {
    let r = manager().subscription_request();
    assert_eq!((r.id, r.method.as_str()), (3, "public/subscribe"));
    assert!(matches!(
        r.params,
        Params::Channels { channels } if channels == vec!["deribit_volatility_index.btc_usd".to_string()]
    ));
}

#[test]
fn only_the_index_itself_is_passed_on() {
    assert!(manager().is_index("deribit_volatility_index.btc_usd"));
    assert!(!manager().is_index("deribit_volatility_index.eth_usd"));
    assert!(!manager().is_index("deribit_volatility_index.btc_usd.raw"));
}

#[test]
fn the_listener_reacts_to_its_connection() {
    let news = |channel: &str| {
        Signal::Text(Inbound::Subscription { channel: channel.to_string(), data: 9u8 })
    };
    let m = manager();
    assert!(matches!(m.on_signal(news("deribit_volatility_index.btc_usd")), Reaction::Deliver(Some(9))));
    assert!(matches!(m.on_signal(news("other")), Reaction::Deliver(None)));
    assert!(matches!(m.on_signal::<u8>(Signal::ProbeDue), Reaction::Send(r) if r.id == 8212));
    assert!(matches!(m.on_signal::<u8>(Signal::RefreshDue), Reaction::RefreshLogin));
    assert!(matches!(m.on_signal::<u8>(Signal::Ping(vec![4])), Reaction::Pong(p) if p == vec![4]));
    assert!(matches!(m.on_signal::<u8>(Signal::Pong), Reaction::Nothing));
    assert!(matches!(m.on_signal::<u8>(Signal::Close), Reaction::Finish));
    assert!(matches!(m.on_signal::<u8>(Signal::Failed), Reaction::Abort));
}

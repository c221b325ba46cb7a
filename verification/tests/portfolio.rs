use market_maker::auth::DeribitConfig;
use market_maker::binary64::Binary64;
use market_maker::portfolio::{PortfolioData, PortfolioManager};
use market_maker::rpc::Params;
use market_maker::session::{Inbound, Reaction, Signal};
use market_maker::string_map::StringMap;

fn number(x: f64) -> Binary64 {
    Binary64::from_bits(x.to_bits())
}

fn map() -> StringMap<Binary64> {
    let mut map = StringMap::new();
    map.insert("BTC-20DEC24".to_string(), number(1.5));
    map
}

fn account(delta: f64) -> PortfolioData {
    let zero = Binary64::zero();
    PortfolioData {
        maintenance_margin: zero,
        delta_total: number(delta),
        options_session_rpl: zero,
        futures_session_rpl: zero,
        delta_total_map: map(),
        session_upl: zero,
        fee_balance: zero,
        estimated_liquidation_ratio: None,
        initial_margin: zero,
        options_gamma_map: map(),
        futures_pl: zero,
        currency: "BTC".to_string(),
        options_value: zero,
        projected_maintenance_margin: zero,
        options_vega: zero,
        session_rpl: zero,
        futures_session_upl: zero,
        options_session_upl: zero,
        cross_collateral_enabled: false,
        options_theta: zero,
        margin_model: "BTC".to_string(),
        options_delta: zero,
        options_pl: zero,
        options_vega_map: map(),
        balance: zero,
        additional_reserve: zero,
        estimated_liquidation_ratio_map: Some(map()),
        projected_initial_margin: zero,
        available_funds: zero,
        spot_reserve: zero,
        projected_delta_total: zero,
        portfolio_margining_enabled: false,
        total_pl: zero,
        margin_balance: zero,
        options_theta_map: map(),
        available_withdrawal_funds: zero,
        equity: zero,
        options_gamma: zero,
    }
}

fn manager() -> PortfolioManager {
    PortfolioManager::new(DeribitConfig {
        url: "wss://test".to_string(),
        client_id: "id".to_string(),
        client_secret: "secret".to_string(),
        refresh_token: None,
    })
}

#[test]
fn the_account_is_subscribed_to() {
    let r = manager().subscription_request();
    assert_eq!((r.id, r.method.as_str()), (3, "public/subscribe"));
    assert!(matches!(r.params, Params::Channels { channels } if channels == vec!["user.portfolio.BTC".to_string()]));
}

#[test]
fn account_states_are_kept_and_passed_on() {
    let mut manager = manager();
    assert!(!manager.on_delivery("user.orders.BTC", account(1.0)));
    assert!(manager.portfolio_data.is_none());
    assert!(manager.on_delivery("user.portfolio.btc", account(2.0)));
    assert!(matches!(&manager.portfolio_data, Some(data) if data.delta_total == number(2.0)));
    assert!(!manager.on_delivery("book.BTC", account(3.0)));
    assert!(matches!(&manager.portfolio_data, Some(data) if data.delta_total == number(2.0)));
}

#[test]
fn copies_of_accounts_hold_the_same() {
    assert_eq!(format!("{:?}", account(4.0).clone()), format!("{:?}", account(4.0)));
    let mut bare = account(4.0);
    bare.estimated_liquidation_ratio_map = None;
    assert!(bare.clone().estimated_liquidation_ratio_map.is_none());
}

#[test]
fn the_account_keeper_reacts_to_its_connection() {
    let mut manager = manager();
    let news = |channel: &str| {
        Signal::Text(Inbound::Subscription { channel: channel.to_string(), data: account(6.0) })
    };
    assert!(matches!(manager.on_signal(news("book.BTC")), Reaction::Deliver(false)));
    assert!(matches!(manager.on_signal(news("user.portfolio.BTC")), Reaction::Deliver(true)));
    assert!(matches!(&manager.portfolio_data, Some(data) if data.delta_total == number(6.0)));
    assert!(matches!(manager.on_signal(Signal::ProbeDue), Reaction::Send(r) if r.id == 8212));
    assert!(matches!(manager.on_signal(Signal::RefreshDue), Reaction::RefreshLogin));
    assert!(matches!(manager.on_signal(Signal::Ping(vec![])), Reaction::Pong(_)));
    assert!(matches!(manager.on_signal(Signal::Other), Reaction::Nothing));
    assert!(matches!(manager.on_signal(Signal::Ended), Reaction::Finish));
    assert!(matches!(manager.on_signal(Signal::Failed), Reaction::Abort));
}

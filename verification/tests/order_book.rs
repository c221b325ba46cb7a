use market_maker::auth::DeribitConfig;
use market_maker::binary64::Binary64;
use market_maker::json::{parse_json, Json};
use market_maker::order_book::{
    from_pairs, to_pairs, Delivery, OrderBook, OrderBookManager, OrderBookUpdate, UpdateError,
};
use market_maker::rpc::Params;
use market_maker::session::{Inbound, Reaction, Signal};

fn number(x: f64) -> Binary64 {
    Binary64::from_bits(x.to_bits())
}

fn side(pairs: &Vec<(Binary64, Binary64)>) -> Vec<(f64, f64)> {
    pairs.iter().map(|(p, a)| (f64::from_bits(p.bits), f64::from_bits(a.bits))).collect()
}

fn changes(text: &str) -> Vec<Vec<Json>> {
    match parse_json(text) {
        Some(Json::Array(items)) => items
            .into_iter()
            .map(|item| match item {
                Json::Array(parts) => parts,
                _ => panic!("a change is a list"),
            })
            .collect(),
        _ => panic!("changes are a list"),
    }
}

fn update(id: u64, previous: Option<u64>, bids: &str, asks: &str) -> OrderBookUpdate {
    OrderBookUpdate {
        update_type: "change".to_string(),
        timestamp: 1,
        instrument_name: "BTC".to_string(),
        change_id: id,
        prev_change_id: previous,
        bids: changes(bids),
        asks: changes(asks),
    }
}

fn book() -> OrderBook {
    let mut book = OrderBook::new("BTC".to_string());
    let first = update(
        10,
        None,
        "[[\"new\", 99.5, 10], [\"new\", 99, 20], [\"new\", 98, 30]]",
        "[[\"new\", 100, 5], [\"new\", 101.5, 6.5]]",
    );
    assert!(book.update(&first).is_ok());
    book
}

#[test]
fn levels_are_set_and_sorted() {
    let book = book();
    assert_eq!(side(&to_pairs(&book.bids)), vec![(98.0, 30.0), (99.0, 20.0), (99.5, 10.0)]);
    assert_eq!(side(&to_pairs(&book.asks)), vec![(100.0, 5.0), (101.5, 6.5)]);
    assert_eq!(book.change_id, 10);
}

#[test]
fn changes_replace_and_remove_levels() {
    let mut book = book();
    let next = update(
        11,
        Some(10),
        "[[\"change\", 99, 21], [\"delete\", 98, 30], [\"change\", 99.5, 0]]",
        "[[\"new\", 100, -1], [\"delete\", 500, 1]]",
    );
    assert!(book.update(&next).is_ok());
    assert_eq!(side(&to_pairs(&book.bids)), vec![(99.0, 21.0)]);
    assert_eq!(side(&to_pairs(&book.asks)), vec![(101.5, 6.5)]);
    assert_eq!(book.change_id, 11);
}

#[test]
fn a_new_level_that_is_deleted_leaves_the_book_as_it_was() {
    let mut book = book();
    let before = side(&to_pairs(&book.bids));
    assert!(book.update(&update(11, Some(10), "[[\"new\", 97, 1]]", "[]")).is_ok());
    assert!(book.update(&update(12, Some(11), "[[\"delete\", 97, 0]]", "[]")).is_ok());
    assert_eq!(side(&to_pairs(&book.bids)), before);
}

#[test]
fn a_message_for_another_instrument_changes_nothing() {
    let mut book = book();
    let mut other = update(11, Some(10), "[[\"new\", 1, 1]]", "[]");
    other.instrument_name = "ETH".to_string();
    assert_eq!(book.update(&other), Err(UpdateError::InstrumentMismatch));
    assert_eq!(book.change_id, 10);
    assert_eq!(book.bids.len(), 3);
}

#[test]
fn a_message_that_does_not_follow_changes_nothing() {
    let mut book = book();
    assert_eq!(book.update(&update(12, Some(11), "[[\"new\", 1, 1]]", "[]")), Err(UpdateError::MissedUpdate));
    assert_eq!(book.change_id, 10);
    assert_eq!(book.bids.len(), 3);
    assert!(book.update(&update(99, None, "[]", "[]")).is_ok());
    assert_eq!(book.change_id, 99);
}

#[test]
fn an_unreadable_change_stops_the_message_where_it_stands() {
    let cases = [
        ("[[\"new\", 1, 1], [\"new\", 2]]", UpdateError::InvalidChangeFormat),
        ("[[\"new\", 1, 1], [1, 2, 3]]", UpdateError::InvalidAction),
        ("[[\"new\", 1, 1], [\"new\", \"2\", 3]]", UpdateError::InvalidPrice),
        ("[[\"new\", 1, 1], [\"new\", 2, null]]", UpdateError::InvalidAmount),
        ("[[\"new\", 1, 1], [\"move\", 2, 3]]", UpdateError::UnknownAction),
    ];
    for (bids, error) in cases {
        let mut book = book();
        assert_eq!(book.update(&update(11, Some(10), bids, "[[\"delete\", 100, 0]]")), Err(error));
        assert_eq!(book.change_id, 11);
        assert_eq!(book.bids.len(), 4);
        assert_eq!(book.asks.len(), 2);
    }
}

#[test]
fn errors_have_their_messages() {
    assert_eq!(UpdateError::InstrumentMismatch.message(), "Instrument name mismatch");
    assert_eq!(UpdateError::MissedUpdate.message(), "Missed update");
    assert_eq!(UpdateError::InvalidChangeFormat.message(), "Invalid change format");
    assert_eq!(UpdateError::InvalidAction.message(), "Invalid action");
    assert_eq!(UpdateError::InvalidPrice.message(), "Invalid price");
    assert_eq!(UpdateError::InvalidAmount.message(), "Invalid amount");
    assert_eq!(UpdateError::UnknownAction.message(), "Unknown action");
}

#[test]
fn the_mid_price_lies_between_the_best_prices() {
    let book = book();
    assert_eq!(book.best_bid(), Some(number(99.5)));
    assert_eq!(book.best_ask(), Some(number(100.0)));
    assert_eq!(book.get_mid_price(), Some((number(99.5), number(100.0))));
    let empty = OrderBook::new("BTC".to_string());
    assert_eq!(empty.get_mid_price(), None);
    assert_eq!(empty.best_bid(), None);
    assert_eq!(empty.best_ask(), None);
}

#[test]
fn the_best_amounts_come_first() {
    let book = book();
    assert_eq!(book.top_bid_amounts(2), vec![number(10.0), number(20.0)]);
    assert_eq!(book.top_ask_amounts(5), vec![number(5.0), number(6.5)]);
    assert_eq!(book.top_bid_amounts(0), vec![]);
}

#[test]
fn pairs_give_the_same_side_back() {
    let book = book();
    let again = from_pairs(&to_pairs(&book.bids));
    assert_eq!(to_pairs(&again), to_pairs(&book.bids));
    let mixed = from_pairs(&vec![
        (number(2.0), number(1.0)),
        (number(1.0), number(5.0)),
        (number(2.0), number(3.0)),
    ]);
    assert_eq!(side(&to_pairs(&mixed)), vec![(1.0, 5.0), (2.0, 3.0)]);
}

#[test]
fn copies_of_books_hold_the_same() {
    assert_eq!(format!("{:?}", book().clone()), format!("{:?}", book()));
}

fn manager() -> OrderBookManager {
    OrderBookManager::new(
        DeribitConfig {
            url: "wss://test".to_string(),
            client_id: "id".to_string(),
            client_secret: "secret".to_string(),
            refresh_token: None,
        },
        "BTC".to_string(),
    )
}

#[test]
fn the_manager_subscribes_to_its_instrument() {
    let r = manager().subscription_request();
    assert_eq!((r.id, r.method.as_str()), (3, "public/subscribe"));
    assert!(matches!(r.params, Params::Channels { channels } if channels == vec!["book.BTC.raw".to_string()]));
}

#[test]
fn the_manager_takes_in_books_only() {
    let mut manager = manager();
    let news = update(1, None, "[[\"new\", 1, 1]]", "[]");
    assert!(matches!(manager.on_delivery("ticker.BTC", &news), Delivery::Ignored));
    assert_eq!(manager.order_book.change_id, 0);
    assert!(matches!(
        manager.on_delivery("book.BTC.raw", &news),
        Delivery::Updated(book) if book.change_id == 1 && book.bids.len() == 1
    ));
    assert_eq!(manager.order_book.change_id, 1);
    assert!(matches!(
        manager.on_delivery("book.BTC.raw", &update(3, Some(2), "[]", "[]")),
        Delivery::Rejected(UpdateError::MissedUpdate)
    ));
}

#[test]
fn the_manager_reacts_to_its_connection() {
    let mut manager = manager();
    let news = |channel: &str| {
        Signal::Text(Inbound::Subscription {
            channel: channel.to_string(),
            data: update(1, None, "[[\"new\", 1, 1]]", "[]"),
        })
    };
    assert!(matches!(manager.on_signal(news("ticker")), Reaction::Deliver(Delivery::Ignored)));
    assert!(matches!(manager.on_signal(news("book.BTC.raw")), Reaction::Deliver(Delivery::Updated(_))));
    assert_eq!(manager.order_book.bids.len(), 1);
    assert!(matches!(manager.on_signal(Signal::ProbeDue), Reaction::Send(r) if r.id == 8212));
    assert!(matches!(manager.on_signal(Signal::RefreshDue), Reaction::RefreshLogin));
    assert!(matches!(manager.on_signal(Signal::Ping(vec![1])), Reaction::Pong(p) if p == vec![1]));
    assert!(matches!(manager.on_signal(Signal::Pong), Reaction::Nothing));
    assert!(matches!(manager.on_signal(Signal::Close), Reaction::Finish));
    assert!(matches!(manager.on_signal(Signal::Failed), Reaction::Abort));
}

#[test]
fn the_books_passed_on_are_those_right_after_the_accepted_messages() {
    let mut manager = manager();
    let frames = vec![
        ("book.BTC.raw", update(1, None, "[[\"new\", 1, 1]]", "[]")),
        ("ticker.BTC", update(2, Some(1), "[[\"new\", 9, 9]]", "[]")),
        ("book.BTC.raw", update(3, Some(2), "[]", "[]")),
        ("book.BTC.raw", update(2, Some(1), "[[\"new\", 2, 5]]", "[[\"new\", 3, 4]]")),
        ("book.BTC.raw", update(3, Some(2), "[[\"new\", 4, 6], [\"move\", 1, 1]]", "[]")),
        ("book.BTC.raw", update(4, Some(3), "[[\"delete\", 1, 0]]", "[]")),
    ];
    let mut books: Vec<OrderBook> = Vec::new();
    for (channel, data) in frames {
        let signal = Signal::Text(Inbound::Subscription { channel: channel.to_string(), data });
        if let Reaction::Deliver(Delivery::Updated(book)) = manager.on_signal(signal) {
            books.push(book);
        }
    }
    let ids: Vec<u64> = books.iter().map(|b| b.change_id).collect();
    assert_eq!(ids, vec![1, 2, 4]);
    assert_eq!(side(&to_pairs(&books[0].bids)), vec![(1.0, 1.0)]);
    assert_eq!(side(&to_pairs(&books[1].bids)), vec![(1.0, 1.0), (2.0, 5.0)]);
    assert_eq!(side(&to_pairs(&books[1].asks)), vec![(3.0, 4.0)]);
    assert_eq!(side(&to_pairs(&books[2].bids)), vec![(2.0, 5.0), (4.0, 6.0)]);
}

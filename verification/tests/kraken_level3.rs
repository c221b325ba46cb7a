use market_maker::decimal::Decimal;
use market_maker::kraken_level3::{
    format_for_checksum, KrakenLevel3OrderBook, Level3Data, Order, PriceLevel, UnreadableOrder,
};

fn decimal(magnitude: u128, scale: u32) -> Decimal {
    Decimal { negative: false, magnitude, scale }
}

fn order(id: &str, price: Decimal, qty: Decimal) -> Option<Order> {
    Some(Order {
        order_id: id.to_string(),
        limit_price: price,
        order_qty: qty,
        timestamp: "2024-01-01T00:00:00Z".to_string(),
    })
}

fn asks(orders: Vec<Option<Order>>) -> Level3Data {
    Level3Data { bids: None, asks: Some(orders) }
}

fn bids(orders: Vec<Option<Order>>) -> Level3Data {
    Level3Data { bids: Some(orders), asks: None }
}

#[test]
fn numbers_enter_the_checksum_without_point_and_leading_zeros() {
    assert_eq!(format_for_checksum(&decimal(1005, 1), &decimal(25, 1)), "100525");
    assert_eq!(format_for_checksum(&decimal(5, 3), &decimal(100, 2)), "5100");
    assert_eq!(format_for_checksum(&decimal(0, 4), &decimal(7, 0)), "7");
    assert_eq!(
        format_for_checksum(&Decimal { negative: true, magnitude: 5, scale: 1 }, &decimal(1, 0)),
        "-051"
    );
}

#[test]
fn the_scale_makes_no_difference_to_the_digits() {
    for scale in 0..29u32 {
        assert_eq!(format_for_checksum(&decimal(12345, scale), &decimal(9, 0)), "123459");
    }
}

#[test]
fn checksums_have_their_known_values() {
    let mut book = KrakenLevel3OrderBook::new();
    assert_eq!(book.calculate_checksum(), 0);
    let message = Level3Data {
        bids: Some(vec![
            order("a", decimal(18, 0), decimal(5, 0)),
            order("b", decimal(19, 0), decimal(10, 0)),
        ]),
        asks: Some(vec![
            order("c", decimal(21, 0), decimal(25, 0)),
            order("d", decimal(20, 0), decimal(10, 0)),
        ]),
    };
    assert!(book.update(&message).is_ok());
    assert_eq!(book.checksum_text(), "201021251910185");
    assert_eq!(book.calculate_checksum(), 3383860544);
    let mut single = KrakenLevel3OrderBook::new();
    assert!(single.update(&asks(vec![order("a", decimal(1005, 1), decimal(25, 1))])).is_ok());
    assert_eq!(single.calculate_checksum(), 3062727333);
}

#[test]
fn orders_of_one_price_stand_in_the_order_they_came() {
    let mut book = KrakenLevel3OrderBook::new();
    let message = asks(vec![
        order("a", decimal(20, 0), decimal(1, 0)),
        order("b", decimal(200, 1), decimal(2, 0)),
        order("c", decimal(19, 0), decimal(3, 0)),
    ]);
    assert!(book.update(&message).is_ok());
    assert_eq!(book.checksum_text(), "1932012002");
}

#[test]
fn an_order_that_is_put_and_gone_leaves_no_trace() {
    let mut book = KrakenLevel3OrderBook::new();
    assert!(book.update(&bids(vec![order("a", decimal(5, 0), decimal(1, 0))])).is_ok());
    let before = book.checksum_text();
    assert!(book.update(&bids(vec![order("b", decimal(5, 0), decimal(2, 0))])).is_ok());
    assert_eq!(book.checksum_text(), "5152");
    assert!(book.update(&bids(vec![order("b", decimal(9, 0), decimal(0, 2))])).is_ok());
    assert_eq!(book.checksum_text(), before);
    assert!(book.update(&bids(vec![order("a", decimal(5, 0), decimal(0, 0))])).is_ok());
    assert_eq!(book.checksum_text(), "");
    assert!(book.update(&bids(vec![order("a", decimal(5, 0), decimal(0, 0))])).is_ok());
    assert_eq!(book.checksum_text(), "");
}

#[test]
fn ten_levels_of_each_side_are_kept() {
    let mut book = KrakenLevel3OrderBook::new();
    let many: Vec<Option<Order>> =
        (1..13u128).map(|i| order(&i.to_string(), decimal(i, 0), decimal(1, 0))).collect();
    assert!(book.update(&bids(many)).is_ok());
    assert_eq!(book.checksum_text(), "12111110191817161514131");
    let mut other = KrakenLevel3OrderBook::new();
    let many: Vec<Option<Order>> =
        (1..13u128).map(|i| order(&i.to_string(), decimal(i, 0), decimal(1, 0))).collect();
    assert!(other.update(&asks(many)).is_ok());
    assert_eq!(other.checksum_text(), "112131415161718191101");
}

#[test]
fn an_unreadable_order_stops_the_message_where_it_stands() {
    let mut book = KrakenLevel3OrderBook::new();
    let message = Level3Data {
        bids: Some(vec![
            order("a", decimal(5, 0), decimal(1, 0)),
            None,
            order("b", decimal(6, 0), decimal(1, 0)),
        ]),
        asks: Some(vec![order("c", decimal(7, 0), decimal(1, 0))]),
    };
    assert_eq!(book.update(&message), Err(UnreadableOrder));
    assert_eq!(book.checksum_text(), "51");
    assert_eq!(book.update(&asks(vec![None])), Err(UnreadableOrder));
}

#[test]
fn prices_are_ordered_by_value() {
    let mut book = KrakenLevel3OrderBook::new();
    let message = asks(vec![
        order("a", decimal(105, 1), decimal(1, 0)),
        order("b", decimal(9, 0), decimal(1, 0)),
        order("c", decimal(1049, 2), decimal(1, 0)),
        order("d", Decimal { negative: true, magnitude: 3, scale: 0 }, decimal(1, 0)),
    ]);
    assert!(book.update(&message).is_ok());
    assert_eq!(book.checksum_text(), "-3191104911051");
}

#[test]
fn zero_is_zero_at_every_scale() {
    assert!(decimal(0, 0).is_zero());
    assert!(Decimal { negative: true, magnitude: 0, scale: 5 }.is_zero());
    assert!(!decimal(1, 28).is_zero());
}

#[test]
fn numbers_are_written_as_the_decimal_crate_writes_them() {
    let samples = [(0u128, 0u32), (0, 3), (5, 1), (5, 0), (123456, 4), (1, 28), (u64::MAX as u128, 10)];
    for (magnitude, scale) in samples {
        for negative in [false, true] {
            let mut known = rust_decimal::Decimal::from_i128_with_scale(magnitude as i128, scale);
            known.set_sign_negative(negative);
            let text = known.to_string().replace(".", "");
            let expected = format!("{}{}", text.trim_start_matches('0'), 9);
            let ours = Decimal { negative, magnitude, scale };
            assert_eq!(format_for_checksum(&ours, &decimal(9, 0)), expected);
        }
    }
}

#[test]
fn copies_of_levels_hold_the_same() {
    let orders: Vec<Order> = order("a", decimal(5, 0), decimal(1, 0)).into_iter().collect();
    let level = PriceLevel { price: decimal(5, 0), orders };
    assert_eq!(format!("{:?}", level.clone()), format!("{:?}", level));
}

#[test]
fn an_order_that_is_told_again_is_updated() {
    let mut book = KrakenLevel3OrderBook::new();
    let first: Vec<Option<Order>> = vec![order("a", decimal(5, 0), decimal(1, 0))];
    assert!(book.process_orders(&first, true).is_ok());
    assert_eq!(book.checksum_text(), "51");
    let again: Vec<Option<Order>> = vec![order("a", decimal(6, 0), decimal(2, 0))];
    assert!(book.process_orders(&again, true).is_ok());
    assert_eq!(book.checksum_text(), "62");
    let same_price: Vec<Option<Order>> =
        vec![order("b", decimal(6, 0), decimal(4, 0)), order("a", decimal(6, 0), decimal(3, 0))];
    assert!(book.process_orders(&same_price, true).is_ok());
    assert_eq!(book.checksum_text(), "6463");
    let gone: Vec<Option<Order>> = vec![order("a", decimal(0, 0), decimal(0, 0))];
    assert!(book.process_orders(&gone, true).is_ok());
    assert_eq!(book.checksum_text(), "64");
}

#[test]
fn each_side_is_told_of_its_own_orders() {
    let mut book = KrakenLevel3OrderBook::new();
    assert!(book.process_orders(&vec![order("a", decimal(7, 0), decimal(1, 0))], false).is_ok());
    assert!(book.process_orders(&vec![order("b", decimal(5, 0), decimal(2, 0))], true).is_ok());
    assert_eq!(book.checksum_text(), "7152");
    assert_eq!(book.process_orders(&vec![None], false), Err(UnreadableOrder));
    assert!(book.process_orders(&vec![order("a", decimal(8, 0), decimal(1, 0))], false).is_ok());
    assert_eq!(book.checksum_text(), "8152");
}

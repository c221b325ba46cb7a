use market_maker::binary64::Binary64;
use market_maker::json::{parse_json, Json, Number};

fn number(x: f64) -> Binary64 {
    Binary64::from_bits(x.to_bits())
}

fn parsed(text: &str) -> Json {
    match parse_json(text) {
        Some(json) => json,
        None => panic!("not JSON: {}", text),
    }
}

#[test]
fn texts_that_are_no_json_are_told_apart() {
    assert!(parse_json("").is_none());
    assert!(parse_json("{\"a\": }").is_none());
    assert!(parse_json("{} x").is_none());
    assert!(parse_json(" {} ").is_some());
}

#[test]
fn every_kind_of_value_is_read() {
    assert!(parsed("null").is_null());
    assert!(matches!(parsed("true"), Json::Bool(true)));
    assert!(matches!(parsed("\"a\\u0062\""), Json::Text(t) if t == "ab"));
    match parsed("[1, [], {}]") {
        Json::Array(items) => {
            assert_eq!(items.len(), 3);
            assert!(matches!(&items[1], Json::Array(inner) if inner.is_empty()));
            assert!(matches!(&items[2], Json::Object(inner) if inner.is_empty()));
            assert!(!items[0].is_null());
        }
        _ => panic!("no array"),
    }
}

#[test]
fn numbers_read_as_floats_and_integers() {
    assert!(matches!(
        parsed("-3"),
        Json::Number(Number { float, unsigned: None, signed: Some(-3) }) if float == Some(number(-3.0))
    ));
    assert!(matches!(
        parsed("18446744073709551615"),
        Json::Number(Number { unsigned: Some(u64::MAX), signed: None, .. })
    ));
    assert!(matches!(
        parsed("2.5"),
        Json::Number(Number { float, unsigned: None, signed: None }) if float == Some(number(2.5))
    ));
    assert_eq!(parsed("7").float(), Some(number(7.0)));
    assert_eq!(parsed("\"7\"").float(), None);
}

#[test]
fn members_are_found_by_key() {
    let json = parsed("{\"b\": 1, \"a\": {\"c\": null}}");
    assert_eq!(json.member("b").and_then(|v| v.float()), Some(number(1.0)));
    assert!(json.member("a").and_then(|v| v.member("c")).map(|v| v.is_null()).unwrap_or(false));
    assert!(json.member("c").is_none());
    assert!(parsed("[1]").member("b").is_none());
    assert!(json.into_member("a").is_some());
    assert!(parsed("3").into_member("a").is_none());
}

#[test]
fn of_equal_keys_the_last_one_counts() {
    let json = parsed("{\"a\": 1, \"a\": 2}");
    assert_eq!(json.member("a").and_then(|v| v.float()), Some(number(2.0)));
}

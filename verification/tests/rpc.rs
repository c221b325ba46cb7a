use market_maker::json::{parse_json, Json};
use market_maker::binary64::Binary64;
use market_maker::rpc::{
    call_reply, probe, read_reply, request, test_answer, ParamValue, Params, Reply, ReplyFrame,
};

fn text(t: &str) -> ReplyFrame {
    ReplyFrame::Text(t.to_string())
}

#[test]
fn requests_have_the_parts_they_are_made_of() {
    let r = request(4, "private/cancel_all", Params::Empty);
    assert_eq!((r.jsonrpc.as_str(), r.id, r.method.as_str()), ("2.0", 4, "private/cancel_all"));
    assert!(matches!(r.params, Params::Empty));
}

#[test]
fn probe_and_test_answer_are_as_the_exchange_expects() {
    let p = probe();
    assert_eq!((p.id, p.method.as_str()), (8212, "public/test"));
    assert!(matches!(p.params, Params::Empty));
    let a = test_answer();
    assert_eq!((a.id, a.method.as_str()), (8213, "public/test"));
    assert!(matches!(a.params, Params::ExpectedResult { expected_result } if expected_result == "test_request"));
}

#[test]
fn replies_are_read() {
    assert!(matches!(call_reply(text("{\"result\": true, \"error\": 1}")), Reply::Result(Json::Bool(true))));
    assert!(matches!(call_reply(text("{\"result\": null}")), Reply::Result(Json::Null)));
    assert!(matches!(call_reply(text("{\"error\": \"no\"}")), Reply::Api(Json::Text(t)) if t == "no"));
    assert!(matches!(call_reply(text("{\"id\": 1}")), Reply::InvalidFormat));
    assert!(matches!(call_reply(text("[]")), Reply::InvalidFormat));
    assert!(matches!(call_reply(text("{")), Reply::Malformed));
    assert!(matches!(call_reply(ReplyFrame::Other), Reply::UnexpectedMessage));
    assert!(matches!(call_reply(ReplyFrame::Ended), Reply::NoResponse));
}

#[test]
fn a_read_reply_is_taken_apart() {
    let json = parse_json("{\"error\": {\"code\": 13}, \"id\": 4}");
    match json.map(read_reply) {
        Some(Reply::Api(error)) => assert!(error.member("code").is_some()),
        _ => panic!("no error"),
    }
}

fn written(params: Params) -> Vec<String> {
    params
        .into_members()
        .into_iter()
        .map(|(key, value)| match value {
            ParamValue::Text(t) => format!("{}={}", key, t),
            ParamValue::Texts(list) => format!("{}={:?}", key, list),
            ParamValue::Flag(b) => format!("{}={}", key, b),
            ParamValue::Unsigned(n) => format!("{}={}", key, n),
            ParamValue::Number(x) => format!("{}={}", key, f64::from_bits(x.bits)),
        })
        .collect()
}

#[test]
fn parameters_are_sent_under_the_names_the_exchange_expects() {
    let t = |s: &str| s.to_string();
    let number = |x: f64| Binary64::from_bits(x.to_bits());
    assert_eq!(written(Params::Empty).len(), 0);
    assert_eq!(written(Params::ExpectedResult { expected_result: t("x") }), vec!["expected_result=x"]);
    assert_eq!(written(Params::Channels { channels: vec![t("a"), t("b")] }), vec!["channels=[\"a\", \"b\"]"]);
    assert_eq!(written(Params::Instrument { instrument_name: t("BTC") }), vec!["instrument_name=BTC"]);
    let market = Params::Order {
        instrument_name: t("BTC"),
        amount: number(10.0),
        order_type: t("market"),
        price: None,
        post_only: None,
    };
    assert_eq!(written(market), vec!["instrument_name=BTC", "amount=10", "type=market"]);
    let limit = Params::Order {
        instrument_name: t("BTC"),
        amount: number(10.0),
        order_type: t("limit"),
        price: Some(number(97.5)),
        post_only: Some(true),
    };
    assert_eq!(
        written(limit),
        vec!["instrument_name=BTC", "amount=10", "type=limit", "price=97.5", "post_only=true"]
    );
    let login = Params::Signature {
        grant_type: t("client_signature"),
        client_id: t("me"),
        timestamp: 7,
        nonce: t("n"),
        data: t(""),
        signature: t("s"),
    };
    assert_eq!(
        written(login),
        vec!["grant_type=client_signature", "client_id=me", "timestamp=7", "nonce=n", "data=", "signature=s"]
    );
    let renewal = Params::Refresh { grant_type: t("refresh_token"), refresh_token: t("r") };
    assert_eq!(written(renewal), vec!["grant_type=refresh_token", "refresh_token=r"]);
}

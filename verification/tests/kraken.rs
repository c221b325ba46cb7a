use market_maker::kraken::{
    generate_kraken_signature, get_current_timestamp, get_websocket_token, signature_with_key,
    token_from_reply, token_request, KrakenConfig, RequestError, TokenError, TokenReply,
};

const ENDPOINT: &str = "/0/private/GetWebSocketsToken";

fn config(secret: &str) -> KrakenConfig {
    KrakenConfig { api_key: "key".to_string(), api_secret: secret.to_string() }
}

#[test]
fn signatures_over_requests_have_their_known_values() {
    let expected = "X7YTjdMt9bbY3QmHsK3CzKrthAzSnZmov5G+yreDtfPBUoxnS9ddTalxV3quBS7mfd+DD+KlXW9fvkAG/txEvw==";
    let body = "nonce=1616492376594";
    assert_eq!(generate_kraken_signature("YSBzZWNyZXQ=", ENDPOINT, "1616492376594", body), expected);
    assert_eq!(signature_with_key(&b"a secret".to_vec(), ENDPOINT, "1616492376594", body), expected);
    assert_eq!(
        signature_with_key(&vec![], "/x", "", ""),
        "Bgb6XfgTmYDLFYdoumfbbS6B831nleqkOOnZyjcSfEugdKftWlPMXipEtoySmjISeDRXjpgnrLt+ib4eYGW4Rw=="
    );
}

#[test]
fn requests_for_tokens_carry_key_and_signature() {
    match token_request(&config("YSBzZWNyZXQ="), "1616492376594") {
        Some(request) => {
            assert_eq!(request.url, "https://api.kraken.com/0/private/GetWebSocketsToken");
            assert_eq!(request.api_key, "key");
            assert_eq!(request.body, "nonce=1616492376594");
            assert_eq!(
                request.api_sign,
                "X7YTjdMt9bbY3QmHsK3CzKrthAzSnZmov5G+yreDtfPBUoxnS9ddTalxV3quBS7mfd+DD+KlXW9fvkAG/txEvw=="
            );
        }
        None => panic!("no request"),
    }
    assert!(token_request(&config("no base64!"), "1").is_none());
}

#[test]
fn a_request_now_is_signed_over_its_own_nonce() {
    match get_websocket_token(&config("YSBzZWNyZXQ=")) {
        Ok(request) => {
            let nonce = request.body.trim_start_matches("nonce=").to_string();
            assert!(nonce.parse::<u128>().is_ok());
            assert_eq!(
                request.api_sign,
                generate_kraken_signature("YSBzZWNyZXQ=", ENDPOINT, &nonce, &request.body)
            );
        }
        Err(_) => panic!("no request"),
    }
    assert!(matches!(get_websocket_token(&config("?")), Err(RequestError::SecretNotBase64)));
}

#[test]
fn the_time_is_written_in_milliseconds() {
    match get_current_timestamp().map(|t| t.parse::<u128>()) {
        Some(Ok(millis)) => assert!(millis > 1576074319000),
        _ => panic!("no time"),
    }
}

#[test]
fn replies_bring_tokens_or_errors() {
    let reply = |error: Vec<&str>, token: Option<&str>| TokenReply {
        error: error.into_iter().map(|e| e.to_string()).collect(),
        token: token.map(|t| t.to_string()),
    };
    assert!(matches!(token_from_reply(reply(vec![], Some("t"))), Ok(t) if t == "t"));
    assert!(matches!(token_from_reply(reply(vec![], None)), Err(TokenError::NoResult)));
    assert!(matches!(
        token_from_reply(reply(vec!["EAPI:Invalid key"], Some("t"))),
        Err(TokenError::Api(errors)) if errors == vec!["EAPI:Invalid key".to_string()]
    ));
}

#[test]
fn copies_of_kraken_configurations_hold_the_same() {
    assert_eq!(format!("{:?}", config("a").clone()), format!("{:?}", config("a")));
}

use market_maker::auth::{
    authenticate_with_signature, generate_nonce, generate_signature, get_current_timestamp,
    login_reply, login_request, nonce_from_picks, read_login_reply, refresh_token, signature_text,
    string_to_sign, timestamp_from_millis, AuthResponse, DeribitConfig,
};
use market_maker::json::{parse_json, Json};
use market_maker::rpc::{Params, Reply, ReplyFrame};

const ALPHABET: &str = "abcdefghijklmnopqrstuvwxyz0123456789";

#[test]
fn signatures_have_their_known_values() {
    assert_eq!(
        generate_signature("secret", 1576074319000, "abcdefgh", ""),
        "643342e6602a731e4b82263015c1de71f54610525f20e0441f1fbd637cbabcec"
    );
    assert_eq!(
        generate_signature("cl\u{e9}", 1, "n", "d"),
        "2df873b1fe7002c5bd92e2298a1a1b4cddea63e28c0bc812e8681117be110f18"
    );
}

#[test]
fn the_signed_text_has_three_lines() {
    assert_eq!(string_to_sign(1576074319000, "abc", ""), "1576074319000\nabc\n");
    assert_eq!(string_to_sign(0, "", "data"), "0\n\ndata");
}

#[test]
fn digests_are_sent_in_lower_case_hexadecimal() {
    assert_eq!(signature_text(&vec![0x00, 0x0f, 0xa5, 0xff]), "000fa5ff");
    assert_eq!(signature_text(&vec![]), "");
}

#[test]
fn picks_choose_the_characters_of_a_nonce() {
    assert_eq!(nonce_from_picks(&vec![0, 25, 26, 35, 0]), "az09a");
    assert_eq!(nonce_from_picks(&vec![]), "");
}

#[test]
fn nonces_have_eight_characters_of_the_alphabet() {
    for _ in 0..50 {
        let nonce = generate_nonce();
        assert_eq!(nonce.len(), 8);
        assert!(nonce.chars().all(|c| ALPHABET.contains(c)));
    }
}

#[test]
fn timestamps_are_the_low_bits_of_the_clock() {
    assert_eq!(timestamp_from_millis(1576074319000), 1576074319000);
    assert_eq!(timestamp_from_millis((1u128 << 64) + 5), 5);
    match get_current_timestamp() {
        Some(time) => assert!(time > 1576074319000),
        None => panic!("the clock stands before the epoch"),
    }
}

#[test]
fn logins_are_signed() {
    let r = login_request("me", "secret", 1576074319000, "abcdefgh");
    assert_eq!((r.id, r.method.as_str()), (9929, "public/auth"));
    match r.params {
        Params::Signature { grant_type, client_id, timestamp, nonce, data, signature } => {
            assert_eq!(grant_type, "client_signature");
            assert_eq!(client_id, "me");
            assert_eq!(timestamp, 1576074319000);
            assert_eq!(nonce, "abcdefgh");
            assert_eq!(data, "");
            assert_eq!(signature, "643342e6602a731e4b82263015c1de71f54610525f20e0441f1fbd637cbabcec");
        }
        _ => panic!("no signature"),
    }
}

#[test]
fn a_fresh_login_is_signed_over_its_own_time_and_nonce() {
    match authenticate_with_signature("me", "secret").map(|r| r.params) {
        Some(Params::Signature { timestamp, nonce, signature, .. }) => {
            assert_eq!(nonce.len(), 8);
            assert_eq!(signature, generate_signature("secret", timestamp, &nonce, ""));
        }
        _ => panic!("no login"),
    }
}

#[test]
fn a_login_is_renewed_with_the_held_token() {
    assert!(refresh_token(None).is_none());
    let r = refresh_token(Some("token"));
    assert!(matches!(&r, Some(request) if request.id == 9930 && request.method == "public/auth"));
    match r.map(|request| request.params) {
        Some(Params::Refresh { grant_type, refresh_token }) => {
            assert_eq!(grant_type, "refresh_token");
            assert_eq!(refresh_token, "token");
        }
        _ => panic!("no renewal"),
    }
}

#[test]
fn replies_to_logins_are_read() {
    let text = |t: &str| login_reply(ReplyFrame::Text(t.to_string()));
    assert!(matches!(text("{\"result\": {}}"), Reply::Result(Json::Object(_))));
    assert!(matches!(text("{\"error\": {}}"), Reply::NoResponse));
    assert!(matches!(text("nothing"), Reply::Malformed));
    assert!(matches!(login_reply(ReplyFrame::Other), Reply::UnexpectedMessage));
    assert!(matches!(login_reply(ReplyFrame::Ended), Reply::NoResponse));
    assert!(matches!(read_login_reply(parse_json("{\"result\": 1}")), Reply::Result(Json::Number(_))));
    assert!(matches!(read_login_reply(None), Reply::Malformed));
}

#[test]
fn copies_of_configurations_and_logins_hold_the_same() {
    let config = DeribitConfig {
        url: "wss://test".to_string(),
        client_id: "id".to_string(),
        client_secret: "secret".to_string(),
        refresh_token: None,
    };
    assert_eq!(format!("{:?}", config.clone()), format!("{:?}", config));
    let login = AuthResponse {
        access_token: "a".to_string(),
        refresh_token: "r".to_string(),
        expires_in: 900,
    };
    assert_eq!(format!("{:?}", login.clone()), format!("{:?}", login));
}

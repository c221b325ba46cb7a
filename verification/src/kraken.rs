//! Asking Kraken for a websocket token.

use vstd::prelude::*;
use vstd::string::*;

use crate::auth;
use crate::auth::epoch_millis;
use crate::text;
use crate::text::decimal_text;

verus! {

#[derive(Debug)]
pub struct KrakenConfig {
    pub api_key: String,
    /// In base64.
    pub api_secret: String,
}

impl Clone for KrakenConfig {
    fn clone(&self) -> (r: Self)
        ensures
            r == *self,
    {
        KrakenConfig { api_key: self.api_key.clone(), api_secret: self.api_secret.clone() }
    }
}

/// The HTTP request for a token.
#[derive(Debug)]
pub struct TokenRequest {
    pub url: String,
    /// The header `API-Key`.
    pub api_key: String,
    /// The header `API-Sign`.
    pub api_sign: String,
    pub body: String,
}

/// Why there is no request for a token.
#[derive(Clone, Copy, Debug, PartialEq, Eq, Structural)]
pub enum RequestError {
    ClockBeforeEpoch,
    SecretNotBase64,
}

/// The answer to a request for a token.
#[derive(Debug)]
pub struct TokenReply {
    pub error: Vec<String>,
    pub token: Option<String>,
}

/// Why an answer brings no token.
#[derive(Debug)]
pub enum TokenError {
    /// The errors that Kraken names.
    Api(Vec<String>),
    NoResult,
}

/// The bytes that a base64 text stands for, or `None` where it is none.
pub uninterp spec fn base64_bytes(encoded: Seq<char>) -> Option<Seq<u8>>;

/// The character of a base64 digit.
pub open spec fn base64_digit(d: int) -> char {
    "ABCDEFGHIJKLMNOPQRSTUVWXYZabcdefghijklmnopqrstuvwxyz0123456789+/"@[d]
}

/// Bytes in base64: four digits for each three bytes, the high bits first, and padding where the
/// last group is short.
pub open spec fn base64_text(bytes: Seq<u8>) -> Seq<char>
    decreases bytes.len(),
{
    let b = |i: int| bytes[i] as int;
    if bytes.len() == 0 {
        Seq::empty()
    } else if bytes.len() == 1 {
        seq![base64_digit(b(0) / 4), base64_digit(b(0) % 4 * 16), '=', '=']
    } else if bytes.len() == 2 {
        seq![
            base64_digit(b(0) / 4),
            base64_digit(b(0) % 4 * 16 + b(1) / 16),
            base64_digit(b(1) % 16 * 4),
            '=',
        ]
    } else {
        seq![
            base64_digit(b(0) / 4),
            base64_digit(b(0) % 4 * 16 + b(1) / 16),
            base64_digit(b(1) % 16 * 4 + b(2) / 64),
            base64_digit(b(2) % 64),
        ] + base64_text(bytes.skip(3))
    }
}

/// The SHA-256 of a message.
pub uninterp spec fn sha256_of(message: Seq<u8>) -> Seq<u8>;

/// The HMAC-SHA-512 of a message under a key.
pub uninterp spec fn hmac_sha512_of(key: Seq<u8>, message: Seq<u8>) -> Seq<u8>;

/// The path that is asked for a token.
pub open spec fn token_endpoint() -> Seq<char> {
    "/0/private/GetWebSocketsToken"@
}

/// The signature of a request under a key: over the path and the hash of the nonce and the body.
pub open spec fn kraken_signature(
    key: Seq<u8>,
    endpoint: Seq<char>,
    nonce: Seq<char>,
    post_data: Seq<char>,
) -> Seq<char> {
    let hash = sha256_of(
        vstd::utf8::encode_utf8(nonce) + vstd::utf8::encode_utf8(post_data),
    );
    base64_text(hmac_sha512_of(key, vstd::utf8::encode_utf8(endpoint) + hash))
}

/// Whether this asks for a token with this nonce.
pub open spec fn asks_for_token(
    request: TokenRequest,
    config: KrakenConfig,
    nonce: Seq<char>,
) -> bool {
    let body = "nonce="@ + nonce;
    &&& request.url@ == "https://api.kraken.com/0/private/GetWebSocketsToken"@
    &&& request.api_key == config.api_key
    &&& request.body@ == body
    &&& base64_bytes(config.api_secret@) matches Some(key) && request.api_sign@
        == kraken_signature(key, token_endpoint(), nonce, body)
}

/// `base64::decode`, with the standard alphabet. Trusted: whether it succeeds, and with which
/// bytes, depends on the text alone.
#[verifier::external_body]
fn base64_decode(encoded: &str) -> (r: Option<Vec<u8>>)
    ensures
        match r {
            Some(bytes) => base64_bytes(encoded@) == Some(bytes@),
            None => base64_bytes(encoded@) is None,
        },
{
    base64::decode(encoded).ok()
}

/// `base64::encode`, with the standard alphabet and padding. Trusted: four digits for each three
/// bytes.
#[verifier::external_body]
fn base64_encode(bytes: &[u8]) -> (r: String)
    ensures
        r@ == base64_text(bytes@),
{
    base64::encode(bytes)
}

/// `sha2::Sha256`: `new`, one `update`, `finalize`. Trusted: the hash depends on the message
/// alone.
#[verifier::external_body]
fn sha256(message: &[u8]) -> (r: Vec<u8>)
    ensures
        r@ == sha256_of(message@),
{
    <sha2::Sha256 as sha2::Digest>::digest(message).to_vec()
}

/// `hmac::Hmac` over `sha2::Sha512`: `new_from_slice`, which takes keys of any length, one
/// `update`, `finalize`. Trusted: the bytes depend on the key and the message alone.
#[verifier::external_body]
fn hmac_sha512(key: &[u8], message: &[u8]) -> (r: Vec<u8>)
    ensures
        r@ == hmac_sha512_of(key@, message@),
{
    let mut mac = <hmac::Hmac<sha2::Sha512> as hmac::Mac>::new_from_slice(key).expect("any key length");
    hmac::Mac::update(&mut mac, message);
    hmac::Mac::finalize(mac).into_bytes().to_vec()
}

/// Two byte strings in a row.
fn both(first: &[u8], second: &[u8]) -> (r: Vec<u8>)
    ensures
        r@ == first@ + second@,
{
    let mut r: Vec<u8> = Vec::new();
    r.extend_from_slice(first);
    r.extend_from_slice(second);
    assert(r@ =~= first@ + second@);
    r
}

/// Whether this is a time in decimal. There is a text if and only if there is a time.
pub open spec fn writes_time(written: Option<String>, time: Option<u128>) -> bool {
    match (written, time) {
        (Some(t), Some(millis)) => t@ == text::decimal(millis as nat),
        (None, None) => true,
        _ => false,
    }
}

/// The milliseconds since the Unix epoch in decimal, or `None` where the clock stands before it:
/// those of the moment that the clock shows.
pub fn get_current_timestamp() -> (r: Option<String>)
    ensures
        exists|moment: std::time::SystemTime|
            writes_time(r, #[trigger] auth::millis_at(moment)),
{
    let time = epoch_millis();
    let r = match time {
        Some(millis) => Some(decimal_text(millis)),
        None => None,
    };
    proof {
        let moment = choose|moment: std::time::SystemTime| time == #[trigger] auth::millis_at(
            moment,
        );
        assert(writes_time(r, auth::millis_at(moment)));
    }
    r
}

/// The signature of a request under a key that is decoded.
pub fn signature_with_key(key: &Vec<u8>, endpoint: &str, nonce: &str, post_data: &str) -> (r:
    String)
    ensures
        r@ == kraken_signature(key@, endpoint@, nonce@, post_data@),
{
    let hashed = both(nonce.as_bytes(), post_data.as_bytes());
    let post_data_hash = sha256(hashed.as_slice());
    let message = both(endpoint.as_bytes(), post_data_hash.as_slice());
    let mac = hmac_sha512(key.as_slice(), message.as_slice());
    base64_encode(mac.as_slice())
}

/// The signature of a request under a secret in base64.
pub fn generate_kraken_signature(secret: &str, endpoint: &str, nonce: &str, post_data: &str) -> (r:
    String)
    requires
        base64_bytes(secret@) is Some,
    ensures
        r@ == kraken_signature(base64_bytes(secret@)->0, endpoint@, nonce@, post_data@),
{
    match base64_decode(secret) {
        Some(key) => signature_with_key(&key, endpoint, nonce, post_data),
        None => {
            assert(false);
            String::new()
        },
    }
}

/// The request for a token with a given nonce. There is none where the secret is no base64.
pub fn token_request(config: &KrakenConfig, nonce: &str) -> (r: Option<TokenRequest>)
    ensures
        match r {
            Some(request) => asks_for_token(request, *config, nonce@),
            None => base64_bytes(config.api_secret@) is None,
        },
{
    if base64_decode(config.api_secret.as_str()).is_none() {
        return None;
    }
    let mut body = "nonce=".to_string();
    body.append(nonce);
    let api_sign = generate_kraken_signature(
        config.api_secret.as_str(),
        "/0/private/GetWebSocketsToken",
        nonce,
        body.as_str(),
    );
    Some(
        TokenRequest {
            url: "https://api.kraken.com/0/private/GetWebSocketsToken".to_string(),
            api_key: config.api_key.clone(),
            api_sign,
            body,
        },
    )
}

/// Whether this is what comes of asking for a token at this time: a request whose nonce is the
/// time, unless the secret is no base64; and none without a time.
pub open spec fn asks_at(
    outcome: Result<TokenRequest, RequestError>,
    config: KrakenConfig,
    time: Option<u128>,
) -> bool {
    match (outcome, time) {
        (Ok(request), Some(millis)) => asks_for_token(
            request,
            config,
            text::decimal(millis as nat),
        ),
        (Err(RequestError::SecretNotBase64), Some(_)) => base64_bytes(config.api_secret@) is None,
        (Err(RequestError::ClockBeforeEpoch), None) => true,
        _ => false,
    }
}

/// The request for a token at the time of the call, which is its nonce.
pub fn get_websocket_token(config: &KrakenConfig) -> (r: Result<TokenRequest, RequestError>)
    ensures
        exists|moment: std::time::SystemTime|
            asks_at(r, *config, #[trigger] auth::millis_at(moment)),
{
    let time = get_current_timestamp();
    let r = match &time {
        Some(nonce) => match token_request(config, nonce.as_str()) {
            Some(request) => Ok(request),
            None => Err(RequestError::SecretNotBase64),
        },
        None => Err(RequestError::ClockBeforeEpoch),
    };
    proof {
        let moment = choose|moment: std::time::SystemTime|
            writes_time(time, #[trigger] auth::millis_at(moment));
        assert(asks_at(r, *config, auth::millis_at(moment)));
    }
    r
}

/// The token that an answer brings. Errors come before it.
pub fn token_from_reply(reply: TokenReply) -> (r: Result<String, TokenError>)
    ensures
        match r {
            Ok(token) => reply.error@.len() == 0 && reply.token == Some(token),
            Err(TokenError::Api(errors)) => reply.error@.len() > 0 && errors == reply.error,
            Err(TokenError::NoResult) => reply.error@.len() == 0 && reply.token is None,
        },
{
    if reply.error.len() > 0 {
        return Err(TokenError::Api(reply.error));
    }
    match reply.token {
        Some(token) => Ok(token),
        None => Err(TokenError::NoResult),
    }
}

/// A request is signed by the HMAC-SHA-512, under the key, of its path followed by the SHA-256 of
/// the nonce followed by the body; the signature is sent in base64.
pub proof fn law_kraken_signature(
    key: Seq<u8>,
    endpoint: Seq<char>,
    nonce: Seq<char>,
    post_data: Seq<char>,
)
    ensures
        kraken_signature(key, endpoint, nonce, post_data) == base64_text(
            hmac_sha512_of(
                key,
                vstd::utf8::encode_utf8(endpoint) + sha256_of(
                    vstd::utf8::encode_utf8(nonce) + vstd::utf8::encode_utf8(post_data),
                ),
            ),
        ),
{
}

/// A request for a token goes to the path that it signs, with the account's key; its body names the
/// nonce, and it is signed with the account's secret, which is base64.
pub proof fn law_token_request(request: TokenRequest, config: KrakenConfig, nonce: Seq<char>)
    requires
        asks_for_token(request, config, nonce),
    ensures
        request.url@ == "https://api.kraken.com"@ + "/0/private/GetWebSocketsToken"@,
        request.api_key@ == config.api_key@,
        request.body@ == "nonce="@ + nonce,
        base64_bytes(config.api_secret@) is Some,
        request.api_sign@ == kraken_signature(
            base64_bytes(config.api_secret@)->0,
            "/0/private/GetWebSocketsToken"@,
            nonce,
            request.body@,
        ),
{
    reveal_strlit("https://api.kraken.com/0/private/GetWebSocketsToken");
    reveal_strlit("https://api.kraken.com");
    reveal_strlit("/0/private/GetWebSocketsToken");
    assert("https://api.kraken.com/0/private/GetWebSocketsToken"@ =~= "https://api.kraken.com"@
        + "/0/private/GetWebSocketsToken"@);
}

/// What comes of asking for a token: a request, whose nonce is the time in decimal, exactly where
/// there is a time and the secret is base64; and else an error that says which of them is missing.
pub proof fn law_asking_for_token(
    outcome: Result<TokenRequest, RequestError>,
    config: KrakenConfig,
    time: Option<u128>,
)
    requires
        asks_at(outcome, config, time),
    ensures
        outcome is Ok <==> time is Some && base64_bytes(config.api_secret@) is Some,
        outcome is Ok ==> asks_for_token(outcome->Ok_0, config, text::decimal(time->0 as nat)),
        outcome is Err ==> (outcome->Err_0 is ClockBeforeEpoch <==> time is None),
{
}

/// A time is written in decimal where there is one.
pub proof fn law_time_written(written: Option<String>, time: Option<u128>)
    requires
        writes_time(written, time),
    ensures
        written is Some <==> time is Some,
        written is Some ==> text::numeral(written->0@) == time->0,
{
    if let Some(millis) = time {
        text::law_decimal_reads_back(millis as nat);
    }
}

} // verus!

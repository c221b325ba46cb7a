//! Logging in to Deribit.

use vstd::prelude::*;
use vstd::string::*;

use crate::json;
use crate::json::{Json, JsonModel};
use crate::rpc;
use crate::rpc::{Params, Reply, ReplyFrame, ReplyModel, Request};
use crate::text;
use crate::text::decimal_text;

verus! {

#[derive(Debug)]
pub struct DeribitConfig {
    pub url: String,
    pub client_id: String,
    pub client_secret: String,
    pub refresh_token: Option<String>,
}

impl Clone for DeribitConfig {
    fn clone(&self) -> (r: Self)
        ensures
            r == *self,
    {
        DeribitConfig {
            url: self.url.clone(),
            client_id: self.client_id.clone(),
            client_secret: self.client_secret.clone(),
            refresh_token: self.refresh_token.clone(),
        }
    }
}

/// A login that the exchange has granted.
#[derive(Debug)]
pub struct AuthResponse {
    pub access_token: String,
    pub refresh_token: String,
    /// For how many seconds it holds.
    pub expires_in: i64,
}

impl Clone for AuthResponse {
    fn clone(&self) -> (r: Self)
        ensures
            r == *self,
    {
        AuthResponse {
            access_token: self.access_token.clone(),
            refresh_token: self.refresh_token.clone(),
            expires_in: self.expires_in,
        }
    }
}

/// The length of a nonce.
pub const NONCE_LENGTH: usize = 8;

/// How many characters a nonce can be made of.
pub const NONCE_CHOICES: usize = 36;

/// The characters that a nonce is made of.
pub open spec fn nonce_alphabet() -> Seq<char> {
    "abcdefghijklmnopqrstuvwxyz0123456789"@
}

/// The character of a hexadecimal digit.
pub open spec fn hex_digit(d: nat) -> char {
    if d < 10 {
        (48 + d) as char
    } else {
        (87 + d) as char
    }
}

/// Bytes in hexadecimal, two lower-case digits each, the high one first.
pub open spec fn hex_of(bytes: Seq<u8>) -> Seq<char> {
    Seq::new(
        2 * bytes.len(),
        |i: int|
            if i % 2 == 0 {
                hex_digit((bytes[i / 2] / 16) as nat)
            } else {
                hex_digit((bytes[i / 2] % 16) as nat)
            },
    )
}

/// The HMAC-SHA-256 of a message under a key.
pub uninterp spec fn hmac_sha256_of(key: Seq<u8>, message: Seq<u8>) -> Seq<u8>;

/// The text that a login signs: the time, the nonce and the data, one to a line.
pub open spec fn signed_text(timestamp: u64, nonce: Seq<char>, data: Seq<char>) -> Seq<char> {
    text::decimal(timestamp as nat) + "\n"@ + nonce + "\n"@ + data
}

/// The signature of a login.
pub open spec fn signature_of(
    secret: Seq<char>,
    timestamp: u64,
    nonce: Seq<char>,
    data: Seq<char>,
) -> Seq<char> {
    hex_of(
        hmac_sha256_of(
            vstd::utf8::encode_utf8(secret),
            vstd::utf8::encode_utf8(signed_text(timestamp, nonce, data)),
        ),
    )
}

/// Whether this is a nonce: of the right length, from the right characters.
pub open spec fn is_nonce(nonce: Seq<char>) -> bool {
    nonce.len() == NONCE_LENGTH && forall|i: int|
        0 <= i < nonce.len() ==> nonce_alphabet().contains(#[trigger] nonce[i])
}

/// Whether this is the login of this client, signed with this secret at this time.
pub open spec fn is_login(
    request: Request,
    client_id: Seq<char>,
    secret: Seq<char>,
    time: u64,
    once: Seq<char>,
) -> bool {
    &&& request.calls(9929, "public/auth"@)
    &&& request.params matches Params::Signature {
        grant_type,
        client_id: id,
        timestamp,
        nonce,
        data,
        signature,
    } && {
        &&& grant_type@ == "client_signature"@
        &&& id@ == client_id
        &&& timestamp == time
        &&& nonce@ == once
        &&& data@ == ""@
        &&& signature@ == signature_of(secret, time, once, ""@)
    }
}

/// Whether this is the login of this client at this time, with some nonce. There is one if and
/// only if there is a time.
pub open spec fn logs_in_at(
    login: Option<Request>,
    client_id: Seq<char>,
    secret: Seq<char>,
    time: Option<u64>,
) -> bool {
    match (login, time) {
        (Some(request), Some(timestamp)) => exists|nonce: Seq<char>|
            is_nonce(nonce) && #[trigger] is_login(request, client_id, secret, timestamp, nonce),
        (None, None) => true,
        _ => false,
    }
}

/// `std::time::SystemTime`, declared as an opaque type.
#[verifier::external_type_specification]
#[verifier::external_body]
pub struct ExSystemTime(std::time::SystemTime);

/// `std::time::SystemTime::now`. Trusted to read the clock; of the time nothing is claimed.
#[verifier::external_body]
fn now() -> std::time::SystemTime {
    std::time::SystemTime::now()
}

/// The time that has passed since the Unix epoch at a moment, or `None` where the moment is before
/// it: the result of `std::time::SystemTime::duration_since`.
pub uninterp spec fn time_after_epoch(moment: std::time::SystemTime) -> Option<
    std::time::Duration,
>;

/// The whole milliseconds of a duration: the result of `std::time::Duration::as_millis`.
pub uninterp spec fn millis_in(duration: std::time::Duration) -> u128;

/// `std::time::SystemTime::duration_since` the Unix epoch, which fails where the moment is before
/// it. Trusted: what it returns depends on the moment alone.
#[verifier::external_body]
fn since_epoch(moment: std::time::SystemTime) -> (r: Option<std::time::Duration>)
    ensures
        r == time_after_epoch(moment),
{
    moment.duration_since(std::time::UNIX_EPOCH).ok()
}

/// `std::time::Duration::as_millis`. Trusted: the number depends on the duration alone.
#[verifier::external_body]
fn whole_millis(duration: std::time::Duration) -> (r: u128)
    ensures
        r == millis_in(duration),
{
    duration.as_millis()
}

/// The milliseconds since the Unix epoch at a moment, or `None` where the moment is before it.
pub open spec fn millis_at(moment: std::time::SystemTime) -> Option<u128> {
    match time_after_epoch(moment) {
        Some(duration) => Some(millis_in(duration)),
        None => None,
    }
}

/// The timestamp of a moment: the low 64 bits of its milliseconds, or `None` where the moment is
/// before the Unix epoch.
pub open spec fn timestamp_at(moment: std::time::SystemTime) -> Option<u64> {
    match millis_at(moment) {
        Some(millis) => Some((millis % 0x1_0000_0000_0000_0000) as u64),
        None => None,
    }
}

/// The milliseconds since the Unix epoch, or `None` where the clock stands before it: those of
/// the moment that the clock shows.
pub(crate) fn epoch_millis() -> (r: Option<u128>)
    ensures
        exists|moment: std::time::SystemTime| r == #[trigger] millis_at(moment),
{
    let moment = now();
    let r = match since_epoch(moment) {
        Some(duration) => Some(whole_millis(duration)),
        None => None,
    };
    assert(r == millis_at(moment));
    r
}

/// `rand::Rng::gen_range` on the thread's generator. Trusted: it picks a number below `bound`,
/// which must not be zero. Which one is left to chance.
#[verifier::external_body]
fn pick(bound: usize) -> (r: usize)
    requires
        bound > 0,
    ensures
        r < bound,
{
    rand::Rng::gen_range(&mut rand::thread_rng(), 0..bound)
}

/// `hmac::Hmac` over `sha2::Sha256`: `new_from_slice`, which takes keys of any length, one
/// `update`, `finalize`. Trusted: the 32 bytes depend on the key and the message alone.
#[verifier::external_body]
fn hmac_sha256(key: &[u8], message: &[u8]) -> (r: Vec<u8>)
    ensures
        r@ == hmac_sha256_of(key@, message@),
        r@.len() == 32,
{
    let mut mac = <hmac::Hmac<sha2::Sha256> as hmac::Mac>::new_from_slice(key).expect("any key length");
    hmac::Mac::update(&mut mac, message);
    hmac::Mac::finalize(mac).into_bytes().to_vec()
}

/// `hex::encode`. Trusted: two lower-case digits for each byte.
#[verifier::external_body]
fn hex_encode(bytes: &[u8]) -> (r: String)
    ensures
        r@ == hex_of(bytes@),
{
    hex::encode(bytes)
}

/// The low 64 bits of a number of milliseconds.
pub fn timestamp_from_millis(millis: u128) -> (r: u64)
    ensures
        r == millis % 0x1_0000_0000_0000_0000,
{
    (millis % 0x1_0000_0000_0000_0000) as u64
}

/// The time in milliseconds since the Unix epoch, or `None` where the clock stands before it: the
/// timestamp of the moment that the clock shows.
pub fn get_current_timestamp() -> (r: Option<u64>)
    ensures
        exists|moment: std::time::SystemTime| r == #[trigger] timestamp_at(moment),
{
    let millis = epoch_millis();
    let r = match millis {
        Some(count) => Some(timestamp_from_millis(count)),
        None => None,
    };
    proof {
        let moment = choose|moment: std::time::SystemTime| millis == #[trigger] millis_at(moment);
        assert(r == timestamp_at(moment));
    }
    r
}

/// The nonce that these picks make.
pub fn nonce_from_picks(picks: &Vec<usize>) -> (r: String)
    requires
        forall|i: int| 0 <= i < picks@.len() ==> #[trigger] picks@[i] < NONCE_CHOICES,
    ensures
        r@ == Seq::new(picks@.len(), |i: int| nonce_alphabet()[picks@[i] as int]),
{
    let n: usize = picks.len();
    let mut r = String::new();
    proof {
        reveal_strlit("abcdefghijklmnopqrstuvwxyz0123456789");
    }
    for i in 0..n
        invariant
            n == picks@.len(),
            nonce_alphabet().len() == NONCE_CHOICES,
            forall|j: int| 0 <= j < picks@.len() ==> #[trigger] picks@[j] < NONCE_CHOICES,
            r@ =~= Seq::new(i as nat, |j: int| nonce_alphabet()[picks@[j] as int]),
    {
        r.push("abcdefghijklmnopqrstuvwxyz0123456789".get_char(picks[i]));
    }
    r
}

/// A fresh nonce.
pub fn generate_nonce() -> (r: String)
    ensures
        is_nonce(r@),
{
    let mut picks: Vec<usize> = Vec::new();
    for i in 0..NONCE_LENGTH
        invariant
            picks@.len() == i,
            forall|j: int| 0 <= j < picks@.len() ==> #[trigger] picks@[j] < NONCE_CHOICES,
    {
        picks.push(pick(NONCE_CHOICES));
    }
    let r = nonce_from_picks(&picks);
    proof {
        reveal_strlit("abcdefghijklmnopqrstuvwxyz0123456789");
        assert forall|i: int| 0 <= i < r@.len() implies nonce_alphabet().contains(
            #[trigger] r@[i],
        ) by {
            assert(r@[i] == nonce_alphabet()[picks@[i] as int]);
        }
    }
    r
}

/// The text that a login signs.
pub fn string_to_sign(timestamp: u64, nonce: &str, data: &str) -> (r: String)
    ensures
        r@ == signed_text(timestamp, nonce@, data@),
{
    let mut r = decimal_text(timestamp as u128);
    r.append("\n");
    r.append(nonce);
    r.append("\n");
    r.append(data);
    r
}

/// A digest as it is sent.
pub fn signature_text(digest: &Vec<u8>) -> (r: String)
    ensures
        r@ == hex_of(digest@),
{
    hex_encode(digest.as_slice())
}

/// The signature of a login: 64 hexadecimal digits.
pub fn generate_signature(secret: &str, timestamp: u64, nonce: &str, data: &str) -> (r: String)
    ensures
        r@ == signature_of(secret@, timestamp, nonce@, data@),
        r@.len() == 64,
{
    let message = string_to_sign(timestamp, nonce, data);
    let digest = hmac_sha256(secret.as_bytes(), message.as_str().as_bytes());
    signature_text(&digest)
}

/// The login of a client at a given time with a given nonce.
pub fn login_request(client_id: &str, client_secret: &str, timestamp: u64, nonce: &str) -> (r:
    Request)
    ensures
        is_login(r, client_id@, client_secret@, timestamp, nonce@),
{
    let signature = generate_signature(client_secret, timestamp, nonce, "");
    rpc::request(
        9929,
        "public/auth",
        Params::Signature {
            grant_type: "client_signature".to_string(),
            client_id: client_id.to_string(),
            timestamp,
            nonce: nonce.to_string(),
            data: "".to_string(),
            signature,
        },
    )
}

/// A fresh login of a client, at the time of the call and with a fresh nonce. There is none where
/// the clock stands before the Unix epoch.
pub fn authenticate_with_signature(client_id: &str, client_secret: &str) -> (r: Option<Request>)
    ensures
        exists|moment: std::time::SystemTime|
            logs_in_at(r, client_id@, client_secret@, #[trigger] timestamp_at(moment)),
{
    let time = get_current_timestamp();
    let r = match time {
        Some(timestamp) => {
            let nonce = generate_nonce();
            let request = login_request(client_id, client_secret, timestamp, nonce.as_str());
            assert(is_login(request, client_id@, client_secret@, timestamp, nonce@));
            Some(request)
        },
        None => None,
    };
    proof {
        let moment = choose|moment: std::time::SystemTime| time == #[trigger] timestamp_at(moment);
        assert(logs_in_at(r, client_id@, client_secret@, timestamp_at(moment)));
    }
    r
}

/// The renewal of a login, if there is a token to renew it with.
pub fn refresh_token(held: Option<&str>) -> (r: Option<Request>)
    ensures
        match (held, r) {
            (Some(token), Some(request)) => {
                &&& request.calls(9930, "public/auth"@)
                &&& request.params matches Params::Refresh { grant_type, refresh_token: sent } && {
                    &&& grant_type@ == "refresh_token"@
                    &&& sent@ == token@
                }
            },
            (None, None) => true,
            _ => false,
        },
{
    match held {
        Some(token) => Some(
            rpc::request(
                9930,
                "public/auth",
                Params::Refresh {
                    grant_type: "refresh_token".to_string(),
                    refresh_token: token.to_string(),
                },
            ),
        ),
        None => None,
    }
}

/// How a login ended whose reply text held this. A reply without a `result` counts as none.
pub open spec fn reply_to_login(held: Option<JsonModel>) -> ReplyModel {
    match held {
        Some(json) => match json.member("result"@) {
            Some(result) => ReplyModel::Result(result),
            None => ReplyModel::NoResponse,
        },
        None => ReplyModel::Malformed,
    }
}

/// What the reply to a login says.
pub fn read_login_reply(held: Option<Json>) -> (r: Reply)
    ensures
        r@ == reply_to_login(
            match held {
                Some(json) => Some(json@),
                None => None,
            },
        ),
{
    match held {
        Some(json) => match json.into_member("result") {
            Some(result) => Reply::Result(result),
            None => Reply::NoResponse,
        },
        None => Reply::Malformed,
    }
}

/// How a login or a renewal ended that was answered by this frame.
pub fn login_reply(frame: ReplyFrame) -> (r: Reply)
    ensures
        r@ == (match frame {
            ReplyFrame::Text(text) => reply_to_login(json::json_in(text@)),
            ReplyFrame::Other => ReplyModel::UnexpectedMessage,
            ReplyFrame::Ended => ReplyModel::NoResponse,
        }),
{
    match frame {
        ReplyFrame::Text(text) => read_login_reply(json::parse_json(text.as_str())),
        ReplyFrame::Other => Reply::UnexpectedMessage,
        ReplyFrame::Ended => Reply::NoResponse,
    }
}

/// What a login signs is the time in decimal, the nonce and the data, each on a line of its own; the
/// signature is the HMAC-SHA-256 of it under the secret, in hexadecimal.
pub proof fn law_signature(secret: Seq<char>, timestamp: u64, nonce: Seq<char>, data: Seq<char>)
    ensures
        ({
            let signed = text::decimal(timestamp as nat) + seq!['\n'] + nonce + seq!['\n'] + data;
            let digest = hmac_sha256_of(
                vstd::utf8::encode_utf8(secret),
                vstd::utf8::encode_utf8(signed),
            );
            &&& signed_text(timestamp, nonce, data) == signed
            &&& signature_of(secret, timestamp, nonce, data) == hex_of(digest)
        }),
{
    reveal_strlit("\n");
    assert("\n"@ =~= seq!['\n']);
}

/// In hexadecimal each byte is two digits of sixteen, the high one first, from `0` to `9` and from
/// `a` to `f`.
pub proof fn law_hex(bytes: Seq<u8>, i: int)
    requires
        0 <= i < bytes.len(),
    ensures
        hex_of(bytes).len() == 2 * bytes.len(),
        ({
            let digits = "0123456789abcdef"@;
            let high = (bytes[i] / 16) as int;
            let low = (bytes[i] % 16) as int;
            &&& hex_of(bytes)[2 * i] == digits[high]
            &&& hex_of(bytes)[2 * i + 1] == digits[low]
        }),
{
    reveal_strlit("0123456789abcdef");
    assert((2 * i) % 2 == 0 && (2 * i) / 2 == i);
    assert((2 * i + 1) % 2 == 1 && (2 * i + 1) / 2 == i);
}

/// A login names the client, the time and the nonce that it signs, and its signature is over these
/// and no data.
pub proof fn law_login(
    request: Request,
    client_id: Seq<char>,
    secret: Seq<char>,
    time: u64,
    once: Seq<char>,
)
    requires
        is_login(request, client_id, secret, time, once),
    ensures
        request.jsonrpc@ == "2.0"@,
        request.id == 9929,
        request.method@ == "public/auth"@,
        request.params is Signature,
        request.params->Signature_grant_type@ == "client_signature"@,
        request.params->client_id@ == client_id,
        request.params->timestamp == time,
        request.params->nonce@ == once,
        request.params->data@.len() == 0,
        request.params->signature@ == signature_of(secret, time, once, Seq::empty()),
{
    reveal_strlit("");
    assert(""@ =~= Seq::<char>::empty());
}

/// A nonce is eight characters, each a lower-case letter or a digit.
pub proof fn law_nonce(nonce: Seq<char>)
    requires
        is_nonce(nonce),
    ensures
        nonce.len() == 8,
        forall|i: int|
            0 <= i < nonce.len() ==> 'a' <= #[trigger] nonce[i] <= 'z' || '0' <= nonce[i] <= '9',
        nonce_alphabet().len() == 36,
        nonce_alphabet().no_duplicates(),
{
    reveal_strlit("abcdefghijklmnopqrstuvwxyz0123456789");
    assert forall|i: int| 0 <= i < nonce.len() implies 'a' <= #[trigger] nonce[i] <= 'z' || '0'
        <= nonce[i] <= '9' by {
        assert(nonce_alphabet().contains(nonce[i]));
    }
}

/// There is a login exactly where there is a time, and it is of that time.
pub proof fn law_login_at(
    login: Option<Request>,
    client_id: Seq<char>,
    secret: Seq<char>,
    time: Option<u64>,
)
    requires
        logs_in_at(login, client_id, secret, time),
    ensures
        login is Some <==> time is Some,
        login is Some ==> exists|nonce: Seq<char>|
            is_nonce(nonce) && #[trigger] is_login(login->0, client_id, secret, time->0, nonce),
{
}

/// A timestamp is the low 64 bits of the milliseconds since the epoch; before the epoch there is
/// none.
pub proof fn law_timestamp(moment: std::time::SystemTime)
    ensures
        time_after_epoch(moment) is None ==> timestamp_at(moment) is None && millis_at(moment) is None,
        time_after_epoch(moment) is Some ==> {
            let millis = millis_in(time_after_epoch(moment)->0);
            &&& millis_at(moment) == Some(millis)
            &&& timestamp_at(moment) is Some
            &&& timestamp_at(moment)->0 == millis % 0x1_0000_0000_0000_0000
        },
{
}

/// A reply to a login says its `result`; one without a `result` counts as no response, whatever else
/// it holds, and a text that is no JSON as malformed.
pub proof fn law_login_reply(json: JsonModel)
    ensures
        json.member("result"@) is Some ==> reply_to_login(Some(json)) == ReplyModel::Result(
            json.member("result"@)->0,
        ),
        json.member("result"@) is None ==> reply_to_login(Some(json)) is NoResponse,
        reply_to_login(None) is Malformed,
{
}

} // verus!

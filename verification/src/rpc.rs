//! Requests to the exchange's JSON-RPC interface.

use vstd::prelude::*;

use crate::binary64::Binary64;
use crate::json;
use crate::json::{Json, JsonModel};
use crate::seqs;

verus! {

/// The parameters of a request.
#[derive(Debug)]
pub enum Params {
    Empty,
    ExpectedResult { expected_result: String },
    Channels { channels: Vec<String> },
    Instrument { instrument_name: String },
    /// An order. A market order has neither `price` nor `post_only`.
    Order {
        instrument_name: String,
        amount: Binary64,
        order_type: String,
        price: Option<Binary64>,
        post_only: Option<bool>,
    },
    /// A signed login.
    Signature {
        grant_type: String,
        client_id: String,
        timestamp: u64,
        nonce: String,
        data: String,
        signature: String,
    },
    /// A renewal of a login.
    Refresh { grant_type: String, refresh_token: String },
}

/// The value of one parameter.
#[derive(Debug)]
pub enum ParamValue {
    Text(String),
    Texts(Vec<String>),
    Flag(bool),
    Unsigned(u64),
    Number(Binary64),
}

/// The value of one parameter as mathematics.
pub enum ParamModel {
    Text(Seq<char>),
    Texts(Seq<Seq<char>>),
    Flag(bool),
    Unsigned(u64),
    Number(Binary64),
}

impl View for ParamValue {
    type V = ParamModel;

    open spec fn view(&self) -> ParamModel {
        match *self {
            ParamValue::Text(t) => ParamModel::Text(t@),
            ParamValue::Texts(list) => ParamModel::Texts(seqs::texts(list@)),
            ParamValue::Flag(b) => ParamModel::Flag(b),
            ParamValue::Unsigned(n) => ParamModel::Unsigned(n),
            ParamValue::Number(x) => ParamModel::Number(x),
        }
    }
}

/// The keys and values of a list of members.
pub open spec fn members_of(members: Seq<(&'static str, ParamValue)>) -> Seq<
    (Seq<char>, ParamModel),
> {
    members.map_values(|member: (&'static str, ParamValue)| (member.0@, member.1@))
}

impl Params {
    /// The members of the JSON object that is sent.
    pub open spec fn object(&self) -> Seq<(Seq<char>, ParamModel)> {
        match *self {
            Params::Empty => Seq::empty(),
            Params::ExpectedResult { expected_result } => seq![
                ("expected_result"@, ParamModel::Text(expected_result@)),
            ],
            Params::Channels { channels } => seq![
                ("channels"@, ParamModel::Texts(seqs::texts(channels@))),
            ],
            Params::Instrument { instrument_name } => seq![
                ("instrument_name"@, ParamModel::Text(instrument_name@)),
            ],
            Params::Order { instrument_name, amount, order_type, price, post_only } => {
                let always = seq![
                    ("instrument_name"@, ParamModel::Text(instrument_name@)),
                    ("amount"@, ParamModel::Number(amount)),
                    ("type"@, ParamModel::Text(order_type@)),
                ];
                let priced = match price {
                    Some(p) => always.push(("price"@, ParamModel::Number(p))),
                    None => always,
                };
                match post_only {
                    Some(b) => priced.push(("post_only"@, ParamModel::Flag(b))),
                    None => priced,
                }
            },
            Params::Signature { grant_type, client_id, timestamp, nonce, data, signature } => seq![
                ("grant_type"@, ParamModel::Text(grant_type@)),
                ("client_id"@, ParamModel::Text(client_id@)),
                ("timestamp"@, ParamModel::Unsigned(timestamp)),
                ("nonce"@, ParamModel::Text(nonce@)),
                ("data"@, ParamModel::Text(data@)),
                ("signature"@, ParamModel::Text(signature@)),
            ],
            Params::Refresh { grant_type, refresh_token } => seq![
                ("grant_type"@, ParamModel::Text(grant_type@)),
                ("refresh_token"@, ParamModel::Text(refresh_token@)),
            ],
        }
    }

    /// The members of the JSON object that is sent.
    pub fn into_members(self) -> (r: Vec<(&'static str, ParamValue)>)
        ensures
            members_of(r@) == self.object(),
    {
        let ghost whole = self;
        let mut r: Vec<(&'static str, ParamValue)> = Vec::new();
        match self {
            Params::Empty => {},
            Params::ExpectedResult { expected_result } => {
                r.push(("expected_result", ParamValue::Text(expected_result)));
            },
            Params::Channels { channels } => {
                r.push(("channels", ParamValue::Texts(channels)));
            },
            Params::Instrument { instrument_name } => {
                r.push(("instrument_name", ParamValue::Text(instrument_name)));
            },
            Params::Order { instrument_name, amount, order_type, price, post_only } => {
                r.push(("instrument_name", ParamValue::Text(instrument_name)));
                r.push(("amount", ParamValue::Number(amount)));
                r.push(("type", ParamValue::Text(order_type)));
                if let Some(p) = price {
                    r.push(("price", ParamValue::Number(p)));
                }
                if let Some(b) = post_only {
                    r.push(("post_only", ParamValue::Flag(b)));
                }
            },
            Params::Signature { grant_type, client_id, timestamp, nonce, data, signature } => {
                r.push(("grant_type", ParamValue::Text(grant_type)));
                r.push(("client_id", ParamValue::Text(client_id)));
                r.push(("timestamp", ParamValue::Unsigned(timestamp)));
                r.push(("nonce", ParamValue::Text(nonce)));
                r.push(("data", ParamValue::Text(data)));
                r.push(("signature", ParamValue::Text(signature)));
            },
            Params::Refresh { grant_type, refresh_token } => {
                r.push(("grant_type", ParamValue::Text(grant_type)));
                r.push(("refresh_token", ParamValue::Text(refresh_token)));
            },
        }
        assert(members_of(r@) =~= whole.object());
        r
    }
}

/// One JSON-RPC request.
#[derive(Debug)]
pub struct Request {
    pub jsonrpc: String,
    pub id: u64,
    pub method: String,
    pub params: Params,
}

impl Request {
    /// Whether this is a version 2.0 request with this id and method.
    pub open spec fn calls(&self, id: u64, method: Seq<char>) -> bool {
        &&& self.jsonrpc@ == "2.0"@
        &&& self.id == id
        &&& self.method@ == method
    }

    /// Whether this is the keep-alive probe.
    pub open spec fn is_probe(&self) -> bool {
        self.calls(8212, "public/test"@) && self.params is Empty
    }

    /// Whether this is the answer to a test request.
    pub open spec fn is_test_answer(&self) -> bool {
        &&& self.calls(8213, "public/test"@)
        &&& self.params matches Params::ExpectedResult { expected_result } && expected_result@
            == "test_request"@
    }

    /// Whether this subscribes to exactly these channels.
    pub open spec fn subscribes(&self, id: u64, method: Seq<char>, channels: Seq<Seq<char>>) -> bool {
        &&& self.calls(id, method)
        &&& self.params matches Params::Channels { channels: named } && seqs::texts(named@)
            == channels
    }

    /// Whether this asks about one instrument.
    pub open spec fn asks_about(&self, id: u64, method: Seq<char>, instrument: Seq<char>) -> bool {
        &&& self.calls(id, method)
        &&& self.params matches Params::Instrument { instrument_name } && instrument_name@
            == instrument
    }
}

/// A request with these parts.
pub fn request(id: u64, method: &str, params: Params) -> (r: Request)
    ensures
        r.calls(id, method@),
        r.jsonrpc@ == "2.0"@ && r.id == id && r.method@ == method@,
        r.params == params,
{
    Request { jsonrpc: "2.0".to_string(), id, method: method.to_string(), params }
}

/// The keep-alive probe.
pub fn probe() -> (r: Request)
    ensures
        r.is_probe(),
{
    request(8212, "public/test", Params::Empty)
}

/// The answer to a test request.
pub fn test_answer() -> (r: Request)
    ensures
        r.is_test_answer(),
{
    request(
        8213,
        "public/test",
        Params::ExpectedResult { expected_result: "test_request".to_string() },
    )
}

/// What the connection handed over when a reply was awaited.
#[derive(Debug)]
pub enum ReplyFrame {
    Text(String),
    /// A message that is no text, or a failure.
    Other,
    /// Nothing: the stream has ended.
    Ended,
}

/// How a request ended.
#[derive(Debug)]
pub enum Reply {
    /// The `result` of the reply.
    Result(Json),
    /// The `error` of a reply that has no `result`.
    Api(Json),
    /// A JSON reply with neither.
    InvalidFormat,
    /// A text that is no JSON.
    Malformed,
    UnexpectedMessage,
    NoResponse,
}

/// How a request ended, as mathematics.
pub enum ReplyModel {
    Result(JsonModel),
    Api(JsonModel),
    InvalidFormat,
    Malformed,
    UnexpectedMessage,
    NoResponse,
}

impl View for Reply {
    type V = ReplyModel;

    open spec fn view(&self) -> ReplyModel {
        match *self {
            Reply::Result(json) => ReplyModel::Result(json@),
            Reply::Api(json) => ReplyModel::Api(json@),
            Reply::InvalidFormat => ReplyModel::InvalidFormat,
            Reply::Malformed => ReplyModel::Malformed,
            Reply::UnexpectedMessage => ReplyModel::UnexpectedMessage,
            Reply::NoResponse => ReplyModel::NoResponse,
        }
    }
}

/// What a JSON reply says: its `result` before its `error`.
pub open spec fn reply_said(json: JsonModel) -> ReplyModel {
    match (json.member("result"@), json.member("error"@)) {
        (Some(result), _) => ReplyModel::Result(result),
        (None, Some(error)) => ReplyModel::Api(error),
        (None, None) => ReplyModel::InvalidFormat,
    }
}

/// How a request ended whose reply text held this.
pub open spec fn reply_to_call(held: Option<JsonModel>) -> ReplyModel {
    match held {
        Some(json) => reply_said(json),
        None => ReplyModel::Malformed,
    }
}

/// What a JSON reply says.
pub fn read_reply(json: Json) -> (r: Reply)
    ensures
        r@ == reply_said(json@),
{
    if json.member("result").is_some() {
        match json.into_member("result") {
            Some(result) => Reply::Result(result),
            None => Reply::InvalidFormat,
        }
    } else {
        match json.into_member("error") {
            Some(error) => Reply::Api(error),
            None => Reply::InvalidFormat,
        }
    }
}

/// How a request ended that was answered by this frame.
pub fn call_reply(frame: ReplyFrame) -> (r: Reply)
    ensures
        r@ == (match frame {
            ReplyFrame::Text(text) => reply_to_call(json::json_in(text@)),
            ReplyFrame::Other => ReplyModel::UnexpectedMessage,
            ReplyFrame::Ended => ReplyModel::NoResponse,
        }),
{
    match frame {
        ReplyFrame::Text(text) => match json::parse_json(text.as_str()) {
            Some(json) => read_reply(json),
            None => Reply::Malformed,
        },
        ReplyFrame::Other => Reply::UnexpectedMessage,
        ReplyFrame::Ended => Reply::NoResponse,
    }
}

/// A request of this id and method is one of the protocol's version 2.0.
pub proof fn law_calls(request: Request, id: u64, method: Seq<char>)
    ensures
        request.calls(id, method) <==> request.jsonrpc@ == "2.0"@ && request.id == id
            && request.method@ == method,
{
}

/// The probe and the answer to a test request call the same method; they differ in their ids, and
/// only the answer says what it answers.
pub proof fn law_probe_and_test_answer(request: Request)
    ensures
        request.is_probe() ==> request.jsonrpc@ == "2.0"@ && request.id == 8212 && request.method@
            == "public/test"@ && request.params is Empty,
        request.is_test_answer() ==> request.jsonrpc@ == "2.0"@ && request.id == 8213
            && request.method@ == "public/test"@ && request.params is ExpectedResult
            && request.params->expected_result@ == "test_request"@,
{
}

/// A subscription names its channels, and a question about an instrument its instrument.
pub proof fn law_subjects(
    request: Request,
    id: u64,
    method: Seq<char>,
    channels: Seq<Seq<char>>,
    instrument: Seq<char>,
)
    ensures
        request.subscribes(id, method, channels) ==> {
            &&& request.id == id
            &&& request.method@ == method
            &&& request.params is Channels
            &&& request.params->channels@.len() == channels.len()
            &&& forall|i: int|
                0 <= i < channels.len() ==> (#[trigger] request.params->channels@[i])@
                    == channels[i]
        },
        request.asks_about(id, method, instrument) ==> {
            &&& request.id == id
            &&& request.method@ == method
            &&& request.params is Instrument
            &&& request.params->Instrument_instrument_name@ == instrument
        },
{
    if request.subscribes(id, method, channels) {
        let named = request.params->channels@;
        assert forall|i: int| 0 <= i < channels.len() implies (#[trigger] named[i])@
            == channels[i] by {
            assert(seqs::texts(named)[i] == named[i]@);
        }
    }
}

/// An order is sent with its instrument, amount and type, each under its name, and then with the
/// price and the flag for resting only, as far as it has them.
pub proof fn law_order_members(
    instrument_name: String,
    amount: Binary64,
    order_type: String,
    price: Option<Binary64>,
    post_only: Option<bool>,
)
    ensures
        ({
            let members = (Params::Order { instrument_name, amount, order_type, price, post_only }).object();
            let n = 3 + (if price is Some { 1int } else { 0 }) + (if post_only is Some {
                1int
            } else {
                0
            });
            &&& members.len() == n
            &&& members[0] == ("instrument_name"@, ParamModel::Text(instrument_name@))
            &&& members[1] == ("amount"@, ParamModel::Number(amount))
            &&& members[2] == ("type"@, ParamModel::Text(order_type@))
            &&& price is Some ==> members[3] == ("price"@, ParamModel::Number(price->0))
            &&& post_only is Some ==> members[n - 1] == ("post_only"@, ParamModel::Flag(post_only->0))
        }),
{
}

/// The other parameters are sent each under its name.
pub proof fn law_members(params: Params)
    ensures
        ({
            let members = params.object();
            &&& params is Empty ==> members.len() == 0
            &&& params is ExpectedResult ==> members.len() == 1 && members[0] == (
                "expected_result"@,
                ParamModel::Text(params->expected_result@),
            )
            &&& params is Channels ==> members.len() == 1 && members[0] == (
                "channels"@,
                ParamModel::Texts(seqs::texts(params->channels@)),
            )
            &&& params is Instrument ==> members.len() == 1 && members[0] == (
                "instrument_name"@,
                ParamModel::Text(params->Instrument_instrument_name@),
            )
            &&& params is Signature ==> {
                &&& members.len() == 6
                &&& members[0] == (
                    "grant_type"@,
                    ParamModel::Text(params->Signature_grant_type@),
                )
                &&& members[1] == ("client_id"@, ParamModel::Text(params->client_id@))
                &&& members[2] == ("timestamp"@, ParamModel::Unsigned(params->timestamp))
                &&& members[3] == ("nonce"@, ParamModel::Text(params->nonce@))
                &&& members[4] == ("data"@, ParamModel::Text(params->data@))
                &&& members[5] == ("signature"@, ParamModel::Text(params->signature@))
            }
            &&& params is Refresh ==> {
                &&& members.len() == 2
                &&& members[0] == ("grant_type"@, ParamModel::Text(params->Refresh_grant_type@))
                &&& members[1] == ("refresh_token"@, ParamModel::Text(params->refresh_token@))
            }
        }),
{
}

/// A reply says its `result`, whatever its `error`; without one its `error`; and without both it
/// has no valid format. A text that is no JSON is malformed.
pub proof fn law_reply(json: JsonModel)
    ensures
        json.member("result"@) is Some ==> reply_to_call(Some(json)) == ReplyModel::Result(
            json.member("result"@)->0,
        ),
        json.member("result"@) is None && json.member("error"@) is Some ==> reply_to_call(Some(json))
            == ReplyModel::Api(json.member("error"@)->0),
        json.member("result"@) is None && json.member("error"@) is None ==> reply_to_call(
            Some(json),
        ) is InvalidFormat,
        reply_to_call(None) is Malformed,
{
}

} // verus!

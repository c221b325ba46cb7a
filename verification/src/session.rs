//! Sessions with the exchange: what is done about each thing that can happen on a connection.

use vstd::prelude::*;

use crate::rpc;
use crate::rpc::Request;
use crate::text::same_text;

verus! {

/// A message from the exchange, sorted by its shape. `D` is what a subscription delivers.
#[derive(Debug)]
pub enum Inbound<D> {
    Subscription { channel: String, data: D },
    Response,
    Heartbeat { kind: String },
    TestRequest { kind: String },
    /// A text that is none of these.
    Malformed,
}

/// What can happen on a connection that feeds subscriptions.
#[derive(Debug)]
pub enum Signal<D> {
    /// It is time for a keep-alive probe.
    ProbeDue,
    /// It is time to renew the login.
    RefreshDue,
    Text(Inbound<D>),
    Ping(Vec<u8>),
    Pong,
    Close,
    /// The connection failed.
    Failed,
    /// Any other message.
    Other,
    /// The stream has ended.
    Ended,
}

/// What is to be done. `T` is what becomes of the data of a subscription.
#[derive(Debug)]
pub enum Reaction<T> {
    Nothing,
    Send(Request),
    Pong(Vec<u8>),
    RefreshLogin,
    Deliver(T),
    /// End the session well.
    Finish,
    /// End the session with an error.
    Abort,
}

/// Whether this answers a heartbeat message of this kind: a probe for a heartbeat, the expected
/// answer for a test request, and nothing else.
pub open spec fn answers_heartbeat(answer: Option<Request>, kind: Seq<char>) -> bool {
    match answer {
        Some(request) => {
            ||| kind == "heartbeat"@ && request.is_probe()
            ||| kind == "test_request"@ && request.is_test_answer()
        },
        None => kind != "heartbeat"@ && kind != "test_request"@,
    }
}

/// The answer to a heartbeat message of this kind.
pub fn handle_heartbeat(kind: &str) -> (r: Option<Request>)
    ensures
        answers_heartbeat(r, kind@),
        kind@ == "heartbeat"@ ==> r is Some && r->0.is_probe(),
        kind@ == "test_request"@ ==> r is Some && r->0.is_test_answer(),
        kind@ != "heartbeat"@ && kind@ != "test_request"@ ==> r is None,
{
    proof {
        reveal_strlit("heartbeat");
        reveal_strlit("test_request");
        assert("heartbeat"@.len() != "test_request"@.len());
    }
    if same_text(kind, "heartbeat") {
        Some(rpc::probe())
    } else if same_text(kind, "test_request") {
        Some(rpc::test_answer())
    } else {
        None
    }
}

/// Whether this is what is to be done about a heartbeat message of this kind.
pub open spec fn reacts_to_heartbeat<T>(reaction: Reaction<T>, kind: Seq<char>) -> bool {
    match reaction {
        Reaction::Send(request) => answers_heartbeat(Some(request), kind),
        Reaction::Nothing => answers_heartbeat(None, kind),
        _ => false,
    }
}

/// Whether this is what is to be done about the signal, whatever becomes of the data of a
/// subscription.
pub open spec fn reacts<D, T>(reaction: Reaction<T>, signal: Signal<D>) -> bool {
    match signal {
        Signal::ProbeDue => reaction matches Reaction::Send(request) && request.is_probe(),
        Signal::RefreshDue => reaction is RefreshLogin,
        Signal::Text(Inbound::Subscription { channel, data }) => reaction is Deliver,
        Signal::Text(Inbound::Heartbeat { kind }) => reacts_to_heartbeat(reaction, kind@),
        Signal::Text(Inbound::TestRequest { kind }) => reacts_to_heartbeat(reaction, kind@),
        Signal::Text(Inbound::Response) => reaction is Nothing,
        Signal::Text(Inbound::Malformed) => reaction is Nothing,
        Signal::Ping(payload) => reaction == Reaction::<T>::Pong(payload),
        Signal::Pong => reaction is Nothing,
        Signal::Other => reaction is Nothing,
        Signal::Close => reaction is Finish,
        Signal::Ended => reaction is Finish,
        Signal::Failed => reaction is Abort,
    }
}

/// The channel and the data that a signal brings, if it brings any.
pub open spec fn delivery<D>(signal: Signal<D>) -> Option<(String, D)> {
    match signal {
        Signal::Text(Inbound::Subscription { channel, data }) => Some((channel, data)),
        _ => None,
    }
}

fn react_to_heartbeat<T>(kind: &str) -> (r: Reaction<T>)
    ensures
        reacts_to_heartbeat(r, kind@),
{
    match handle_heartbeat(kind) {
        Some(request) => Reaction::Send(request),
        None => Reaction::Nothing,
    }
}

/// What is to be done about a signal. The data of a subscription is handed on with its channel.
pub fn react<D>(signal: Signal<D>) -> (r: Reaction<(String, D)>)
    ensures
        reacts(r, signal),
        delivery(signal) matches Some(delivered) ==> r == Reaction::Deliver(delivered),
{
    match signal {
        Signal::ProbeDue => Reaction::Send(rpc::probe()),
        Signal::RefreshDue => Reaction::RefreshLogin,
        Signal::Text(Inbound::Subscription { channel, data }) => Reaction::Deliver((channel, data)),
        Signal::Text(Inbound::Heartbeat { kind }) => react_to_heartbeat(kind.as_str()),
        Signal::Text(Inbound::TestRequest { kind }) => react_to_heartbeat(kind.as_str()),
        Signal::Text(Inbound::Response) => Reaction::Nothing,
        Signal::Text(Inbound::Malformed) => Reaction::Nothing,
        Signal::Ping(payload) => Reaction::Pong(payload),
        Signal::Pong => Reaction::Nothing,
        Signal::Other => Reaction::Nothing,
        Signal::Close => Reaction::Finish,
        Signal::Ended => Reaction::Finish,
        Signal::Failed => Reaction::Abort,
    }
}

/// What a manager is doing with its connection.
#[derive(Clone, Copy, Debug, PartialEq, Eq, Structural)]
pub enum LinkStep {
    /// Running a session.
    Listen,
    /// Pausing, then opening a new connection.
    Reconnect,
    /// Logging in on the new connection.
    Authenticate,
    Finished,
}

/// The step after one that went well or did not. A session that went well is the last one; after
/// one that did not a new connection is tried, and whatever comes of it the next session begins.
pub open spec fn step_after(step: LinkStep, well: bool) -> LinkStep {
    match step {
        LinkStep::Listen => if well {
            LinkStep::Finished
        } else {
            LinkStep::Reconnect
        },
        LinkStep::Reconnect => if well {
            LinkStep::Authenticate
        } else {
            LinkStep::Listen
        },
        LinkStep::Authenticate => LinkStep::Listen,
        LinkStep::Finished => LinkStep::Finished,
    }
}

/// The step after one that went well or did not.
pub fn next_step(step: LinkStep, well: bool) -> (r: LinkStep)
    ensures
        r == step_after(step, well),
{
    match step {
        LinkStep::Listen => if well {
            LinkStep::Finished
        } else {
            LinkStep::Reconnect
        },
        LinkStep::Reconnect => if well {
            LinkStep::Authenticate
        } else {
            LinkStep::Listen
        },
        LinkStep::Authenticate => LinkStep::Listen,
        LinkStep::Finished => LinkStep::Finished,
    }
}

/// A manager finishes only after a session that went well.
pub proof fn law_finishes_after_good_session(step: LinkStep, well: bool)
    ensures
        step_after(step, well) is Finished <==> step is Finished || (step is Listen && well),
{
}

/// After a session that failed the next one begins within two steps, whatever comes of them.
pub proof fn law_failed_session_is_followed_by_another(reconnected: bool, authenticated: bool)
    ensures
        ({
            let retry = step_after(LinkStep::Listen, false);
            let connected = step_after(retry, reconnected);
            connected is Listen || step_after(connected, authenticated) is Listen
        }),
{
}

/// A new connection is logged in on before it is listened to; it is opened after a session that
/// failed, and only then; and after a failure to open it, and after any login, the next session
/// begins.
pub proof fn law_steps(step: LinkStep, well: bool)
    ensures
        step_after(step, well) is Authenticate <==> step is Reconnect && well,
        step_after(step, well) is Reconnect <==> step is Listen && !well,
        step_after(step, well) is Listen <==> step is Authenticate || (step is Reconnect && !well),
{
}

/// A heartbeat is answered by the probe, a test request by the expected answer, and nothing else is
/// answered.
pub proof fn law_heartbeats(answer: Option<Request>, kind: Seq<char>)
    requires
        answers_heartbeat(answer, kind),
    ensures
        kind == "heartbeat"@ ==> answer is Some && answer->0.id == 8212 && answer->0.method@
            == "public/test"@ && answer->0.params is Empty,
        kind == "test_request"@ ==> answer is Some && answer->0.id == 8213 && answer->0.method@
            == "public/test"@ && answer->0.params is ExpectedResult
            && answer->0.params->expected_result@ == "test_request"@,
        kind != "heartbeat"@ && kind != "test_request"@ ==> answer is None,
{
    reveal_strlit("heartbeat");
    reveal_strlit("test_request");
    assert("heartbeat"@.len() != "test_request"@.len());
}

/// What is done on a connection that feeds subscriptions. Data is delivered, and nothing else is; a
/// heartbeat message is answered by its kind; a probe is sent when it is due, and a login renewed
/// when that is due; a ping is answered by its payload; the end of the connection ends the session,
/// and a failure does so with an error; the rest is passed over.
pub proof fn law_reactions<D, T>(reaction: Reaction<T>, signal: Signal<D>)
    requires
        reacts(reaction, signal),
    ensures
        signal is Text && signal->Text_0 is Subscription <==> reaction is Deliver,
        signal is Text && signal->Text_0 is Heartbeat ==> answers_heartbeat(
            if reaction is Send { Some(reaction->Send_0) } else { None },
            signal->Text_0->Heartbeat_kind@,
        ) && (reaction is Send || reaction is Nothing),
        signal is Text && signal->Text_0 is TestRequest ==> answers_heartbeat(
            if reaction is Send { Some(reaction->Send_0) } else { None },
            signal->Text_0->TestRequest_kind@,
        ) && (reaction is Send || reaction is Nothing),
        signal is Text && (signal->Text_0 is Response || signal->Text_0 is Malformed)
            ==> reaction is Nothing,
        signal is ProbeDue ==> reaction is Send && reaction->Send_0.id == 8212
            && reaction->Send_0.method@ == "public/test"@ && reaction->Send_0.params is Empty,
        signal is RefreshDue <==> reaction is RefreshLogin,
        signal is Ping ==> reaction is Pong && reaction->Pong_0 == signal->Ping_0,
        signal is Pong || signal is Other ==> reaction is Nothing,
        signal is Close || signal is Ended <==> reaction is Finish,
        signal is Failed <==> reaction is Abort,
{
}

/// What is delivered is the channel and the data of a subscription.
pub proof fn law_delivery<D>(signal: Signal<D>, channel: String, data: D)
    ensures
        delivery(Signal::Text(Inbound::Subscription { channel, data })) == Some((channel, data)),
        !(signal is Text && signal->Text_0 is Subscription) ==> delivery(signal) is None,
{
}

} // verus!

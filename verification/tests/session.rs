use market_maker::rpc::{Params, Request};
use market_maker::session::{handle_heartbeat, next_step, react, Inbound, LinkStep, Reaction, Signal};

fn is_probe(r: &Request) -> bool {
    r.id == 8212 && r.method == "public/test" && matches!(r.params, Params::Empty)
}

fn is_answer(r: &Request) -> bool {
    r.id == 8213 && matches!(&r.params, Params::ExpectedResult { expected_result } if expected_result == "test_request")
}

fn heartbeat(kind: &str) -> Signal<u8> {
    Signal::Text(Inbound::Heartbeat { kind: kind.to_string() })
}

#[test]
fn heartbeats_are_answered_by_kind() {
    assert!(handle_heartbeat("heartbeat").map(|r| is_probe(&r)).unwrap_or(false));
    assert!(handle_heartbeat("test_request").map(|r| is_answer(&r)).unwrap_or(false));
    assert!(handle_heartbeat("other").is_none());
    assert!(matches!(react(heartbeat("heartbeat")), Reaction::Send(r) if is_probe(&r)));
    assert!(matches!(react(heartbeat("test_request")), Reaction::Send(r) if is_answer(&r)));
    assert!(matches!(react(heartbeat("")), Reaction::Nothing));
    let request: Signal<u8> = Signal::Text(Inbound::TestRequest { kind: "test_request".to_string() });
    assert!(matches!(react(request), Reaction::Send(r) if is_answer(&r)));
}

#[test]
fn every_signal_has_its_reaction() {
    assert!(matches!(react::<u8>(Signal::ProbeDue), Reaction::Send(r) if is_probe(&r)));
    assert!(matches!(react::<u8>(Signal::RefreshDue), Reaction::RefreshLogin));
    let news = Signal::Text(Inbound::Subscription { channel: "book.x".to_string(), data: 7u8 });
    assert!(matches!(react(news), Reaction::Deliver((channel, 7)) if channel == "book.x"));
    assert!(matches!(react::<u8>(Signal::Text(Inbound::Response)), Reaction::Nothing));
    assert!(matches!(react::<u8>(Signal::Text(Inbound::Malformed)), Reaction::Nothing));
    assert!(matches!(react::<u8>(Signal::Ping(vec![1, 2])), Reaction::Pong(p) if p == vec![1, 2]));
    assert!(matches!(react::<u8>(Signal::Pong), Reaction::Nothing));
    assert!(matches!(react::<u8>(Signal::Other), Reaction::Nothing));
    assert!(matches!(react::<u8>(Signal::Close), Reaction::Finish));
    assert!(matches!(react::<u8>(Signal::Ended), Reaction::Finish));
    assert!(matches!(react::<u8>(Signal::Failed), Reaction::Abort));
}

#[test]
fn a_good_session_is_the_last_one() {
    assert_eq!(next_step(LinkStep::Listen, true), LinkStep::Finished);
    assert_eq!(next_step(LinkStep::Finished, false), LinkStep::Finished);
}

#[test]
fn a_failed_session_is_followed_by_another() {
    assert_eq!(next_step(LinkStep::Listen, false), LinkStep::Reconnect);
    assert_eq!(next_step(LinkStep::Reconnect, true), LinkStep::Authenticate);
    assert_eq!(next_step(LinkStep::Reconnect, false), LinkStep::Listen);
    assert_eq!(next_step(LinkStep::Authenticate, true), LinkStep::Listen);
    assert_eq!(next_step(LinkStep::Authenticate, false), LinkStep::Listen);
}

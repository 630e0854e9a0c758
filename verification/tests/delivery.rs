use issue_relay::delivery::{
    judge, replay, DeliveryAction, DeliveryEvent, DeliveryState, DeliveryTrace, PostOutcome, Reply,
};
use issue_relay::error::DeliveryError;
use issue_relay::retry_after::RetryAfter;

fn plain(status: u16) -> PostOutcome {
    PostOutcome::Replied(Reply { status, retry_after: None })
}

fn limited(status: u16, header: &str) -> PostOutcome {
    let number: f64 = header.parse().unwrap();
    PostOutcome::Replied(Reply { status, retry_after: Some(RetryAfter::from_bits(number.to_bits())) })
}

#[test]
fn success_after_one_call() {
    assert_eq!(
        replay(&vec![plain(200)]),
        DeliveryTrace { state: DeliveryState::Accepted, calls: 1, sleeps: vec![] }
    );
    assert_eq!(
        replay(&vec![plain(204), plain(500)]),
        DeliveryTrace { state: DeliveryState::Accepted, calls: 1, sleeps: vec![] }
    );
    assert_eq!(DeliveryState::Accepted.outcome(), Some(Ok(())));
}

#[test]
fn rate_limited_then_success_after_two_calls() {
    assert_eq!(
        replay(&vec![limited(429, "250"), plain(200)]),
        DeliveryTrace { state: DeliveryState::Accepted, calls: 2, sleeps: vec![250] }
    );
}

#[test]
fn failure_without_retry_after_fails_at_once() {
    let trace = replay(&vec![plain(500), plain(200)]);
    assert_eq!(
        trace,
        DeliveryTrace {
            state: DeliveryState::Failed(DeliveryError::ProtocolError(500)),
            calls: 1,
            sleeps: vec![],
        }
    );
    assert_eq!(trace.state.outcome(), Some(Err(DeliveryError::ProtocolError(500))));
}

#[test]
fn rate_limit_without_header_is_a_protocol_error() {
    assert_eq!(
        replay(&vec![plain(429)]).state,
        DeliveryState::Failed(DeliveryError::ProtocolError(429))
    );
}

#[test]
fn unusable_header_is_a_protocol_error() {
    for header in ["NaN", "-1", "-0.5", "-inf"] {
        assert_eq!(
            replay(&vec![limited(429, header), plain(200)]),
            DeliveryTrace {
                state: DeliveryState::Failed(DeliveryError::ProtocolError(429)),
                calls: 1,
                sleeps: vec![],
            }
        );
    }
}

#[test]
fn success_status_wins_over_retry_after() {
    assert_eq!(judge(limited(200, "250")), DeliveryState::Accepted);
    assert_eq!(judge(limited(299, "250")), DeliveryState::Accepted);
}

#[test]
fn status_classes() {
    assert_eq!(judge(plain(199)), DeliveryState::Failed(DeliveryError::ProtocolError(199)));
    assert_eq!(judge(plain(200)), DeliveryState::Accepted);
    assert_eq!(judge(plain(299)), DeliveryState::Accepted);
    assert_eq!(judge(plain(300)), DeliveryState::Failed(DeliveryError::ProtocolError(300)));
    assert_eq!(judge(plain(404)), DeliveryState::Failed(DeliveryError::ProtocolError(404)));
    assert_eq!(judge(plain(0)), DeliveryState::Failed(DeliveryError::ProtocolError(0)));
    assert_eq!(judge(limited(503, "1.5")), DeliveryState::Sleeping(2));
    assert_eq!(judge(limited(301, "0")), DeliveryState::Sleeping(0));
}

#[test]
fn transport_failure_ends_the_delivery() {
    assert_eq!(
        replay(&vec![PostOutcome::TransportFailed, plain(200)]),
        DeliveryTrace {
            state: DeliveryState::Failed(DeliveryError::TransportError),
            calls: 1,
            sleeps: vec![],
        }
    );
    assert_eq!(
        replay(&vec![limited(429, "10"), PostOutcome::TransportFailed]),
        DeliveryTrace {
            state: DeliveryState::Failed(DeliveryError::TransportError),
            calls: 2,
            sleeps: vec![10],
        }
    );
}

#[test]
fn delivery_retries_as_long_as_it_is_told_to_wait() {
    let mut script = Vec::new();
    let mut sleeps = Vec::new();
    for i in 0..200u64 {
        script.push(limited(429, &format!("{}.25", i)));
        sleeps.push(i + 1);
    }
    script.push(plain(204));
    assert_eq!(
        replay(&script),
        DeliveryTrace { state: DeliveryState::Accepted, calls: 201, sleeps: sleeps.clone() }
    );
    script.pop();
    assert_eq!(replay(&script), DeliveryTrace { state: DeliveryState::Sending, calls: 200, sleeps });
}

#[test]
fn empty_script_leaves_the_delivery_at_its_start() {
    assert_eq!(
        replay(&vec![]),
        DeliveryTrace { state: DeliveryState::Sending, calls: 0, sleeps: vec![] }
    );
    assert_eq!(DeliveryState::start(), DeliveryState::Sending);
    assert_eq!(DeliveryState::start().action(), DeliveryAction::Post);
    assert_eq!(DeliveryState::start().outcome(), None);
}

#[test]
fn machine_goes_from_sending_to_sleeping_and_back() {
    let state = DeliveryState::start();
    let state = state.advance(DeliveryEvent::Posted(limited(429, "250")));
    assert_eq!(state, DeliveryState::Sleeping(250));
    assert_eq!(state.action(), DeliveryAction::Sleep(250));
    assert_eq!(state.outcome(), None);
    let state = state.advance(DeliveryEvent::Woke);
    assert_eq!(state, DeliveryState::Sending);
    assert_eq!(state.action(), DeliveryAction::Post);
    let state = state.advance(DeliveryEvent::Posted(plain(200)));
    assert_eq!(state, DeliveryState::Accepted);
    assert_eq!(state.action(), DeliveryAction::Finish(Ok(())));
}

#[test]
fn events_that_answer_nothing_change_nothing() {
    assert_eq!(DeliveryState::Sending.advance(DeliveryEvent::Woke), DeliveryState::Sending);
    assert_eq!(
        DeliveryState::Sleeping(7).advance(DeliveryEvent::Posted(plain(200))),
        DeliveryState::Sleeping(7)
    );
    for event in [DeliveryEvent::Woke, DeliveryEvent::Posted(plain(200)), DeliveryEvent::Posted(plain(500))] {
        assert_eq!(DeliveryState::Accepted.advance(event), DeliveryState::Accepted);
        let failed = DeliveryState::Failed(DeliveryError::ProtocolError(500));
        assert_eq!(failed.advance(event), failed);
        assert_eq!(
            failed.action(),
            DeliveryAction::Finish(Err(DeliveryError::ProtocolError(500)))
        );
    }
}

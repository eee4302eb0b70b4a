use udp_auth::check::AuthError;
use udp_auth::exchange::{Action, Event, RetryingExchange, MAX_RESPONSE_ATTEMPTS};

/// Runs an exchange against a transport whose receive succeeds on the sends listed in
/// `delivered`; returns the sends made and how it ended.
fn drive(delivered: &[bool]) -> (usize, Result<(), AuthError>) {
    let mut ex = RetryingExchange::new();
    let mut action = ex.begin();
    let mut sends = 0usize;
    loop {
        match action {
            Action::Send => {}
            Action::Deliver => return (sends, Ok(())),
            Action::Fail(e) => return (sends, Err(e)),
        }
        sends += 1;
        let event = if delivered.get(sends - 1).copied().unwrap_or(false) {
            Event::Replied
        } else {
            Event::ReceiveFailed
        };
        action = ex.on_event(event);
    }
}

#[test]
fn two_failures_then_success() {
    assert_eq!(drive(&[false, false, true]), (3, Ok(())));
}

#[test]
fn always_failing_transport_is_exhausted() {
    assert_eq!(drive(&[false, false, false, true]), (3, Err(AuthError::TransportExhausted)));
    assert_eq!(drive(&[]), (3, Err(AuthError::TransportExhausted)));
}

#[test]
fn first_reply_ends_exchange() {
    assert_eq!(drive(&[true]), (1, Ok(())));
    assert_eq!(drive(&[false, true]), (2, Ok(())));
}

#[test]
fn failed_sends_are_retried_too() {
    let mut ex = RetryingExchange::new();
    assert_eq!(ex.begin(), Action::Send);
    assert_eq!(ex.on_event(Event::SendFailed), Action::Send);
    assert_eq!(ex.on_event(Event::ReceiveFailed), Action::Send);
    assert_eq!(ex.on_event(Event::SendFailed), Action::Fail(AuthError::TransportExhausted));
}

#[test]
fn attempts_are_counted() {
    let mut ex = RetryingExchange::new();
    assert_eq!(ex.attempts(), 0);
    assert_eq!(ex.begin(), Action::Send);
    assert_eq!(ex.attempts(), 1);
    for i in 2..=MAX_RESPONSE_ATTEMPTS {
        assert_eq!(ex.on_event(Event::ReceiveFailed), Action::Send);
        assert_eq!(ex.attempts(), i);
    }
    assert_eq!(ex.on_event(Event::Replied), Action::Deliver);
    assert_eq!(ex.attempts(), 3);
    assert_eq!(ex.on_event(Event::ReceiveFailed), Action::Fail(AuthError::TransportExhausted));
}

use discord_recon::http::{next_user_agent, throttle_wait, AttemptOutcome, RetryAction, RetryLoop};

#[test]
fn user_agents_rotate() {
    let mut counter = 0usize;
    let a = next_user_agent(&mut counter);
    let b = next_user_agent(&mut counter);
    let c = next_user_agent(&mut counter);
    let d = next_user_agent(&mut counter);
    assert_eq!(counter, 4);
    assert!(a.contains("Chrome/126"));
    assert!(b.contains("Safari/605"));
    assert!(c.contains("Firefox/127"));
    assert_eq!(a, d);
}

#[test]
fn throttle_waits_out_the_interval() {
    assert_eq!(throttle_wait(None, 1_000_000_000), 0);
    assert_eq!(throttle_wait(Some(250_000_000), 1_000_000_000), 750_000_000);
    assert_eq!(throttle_wait(Some(2_000_000_000), 1_000_000_000), 0);
    assert_eq!(throttle_wait(Some(5), 0), 0);
}

#[test]
fn rate_limits_wait_and_are_capped() {
    let mut r = RetryLoop::new(2);
    let limited = |ra| AttemptOutcome::Response {
        status: 429,
        retry_after: ra,
    };
    assert_eq!(r.on_outcome(limited(Some(3))), RetryAction::RateLimitWait { secs: 3 });
    assert_eq!(r.on_outcome(limited(Some(120))), RetryAction::RateLimitWait { secs: 30 });
    // Out of retries: the 429 response itself is handed back.
    assert_eq!(r.on_outcome(limited(None)), RetryAction::Deliver);
    assert_eq!(r.attempt, 2);

    let mut r = RetryLoop::new(1);
    assert_eq!(r.on_outcome(limited(None)), RetryAction::RateLimitWait { secs: 5 });
}

#[test]
fn transport_errors_back_off_then_give_up() {
    let mut r = RetryLoop::new(3);
    assert_eq!(r.on_outcome(AttemptOutcome::TransportError), RetryAction::Backoff { secs: 1 });
    assert_eq!(r.on_outcome(AttemptOutcome::TransportError), RetryAction::Backoff { secs: 2 });
    assert_eq!(r.on_outcome(AttemptOutcome::TransportError), RetryAction::Backoff { secs: 4 });
    assert_eq!(r.on_outcome(AttemptOutcome::TransportError), RetryAction::GiveUp);

    let mut r = RetryLoop::new(0);
    assert_eq!(r.on_outcome(AttemptOutcome::TransportError), RetryAction::GiveUp);
    let mut r = RetryLoop::new(0);
    assert_eq!(
        r.on_outcome(AttemptOutcome::Response {
            status: 200,
            retry_after: None
        }),
        RetryAction::Deliver
    );
}

use playlog::event::{Event, EventConfigChanged, EventStart, EventStop};
use playlog::json::to_json;
use playlog::publisher::{Action, Input, Payload, Publisher};
use playlog::signer::Signer;
use playlog::track::TrackInfo;

fn track(title: &str) -> TrackInfo {
    TrackInfo {
        artist: "A".to_string(),
        album_artist: None,
        album: "B".to_string(),
        title: title.to_string(),
        year: None,
        disc_number: None,
        total_discs: None,
        track_number: None,
        total_tracks: None,
        duration_millis: 180_000,
    }
}

fn start_event(title: &str) -> Event {
    Event::Start(EventStart { track_info: track(title) })
}

fn new_publisher() -> Publisher {
    Publisher::new("http://collector".to_string(), "secret".to_string()).unwrap()
}

/// Feeds one event whose deliveries all fail; returns the posted bodies and
/// the requested sleep delays, leaving the worker idle again.
fn feed_always_failing(p: &mut Publisher, event: Event) -> (Vec<String>, Vec<u64>) {
    let mut bodies = Vec::new();
    let mut delays = Vec::new();
    let mut action = p.step(Input::Payload(Payload::Event(event)));
    loop {
        match action {
            Action::Post { body, .. } => {
                bodies.push(body);
                action = p.step(Input::PostResult(false));
            }
            Action::Sleep { millis } => {
                delays.push(millis);
                action = p.step(Input::Slept);
            }
            Action::Receive => return (bodies, delays),
            Action::Done => panic!("worker terminated unexpectedly"),
        }
    }
}

#[test]
fn successful_delivery_start_to_finish() {
    let mut p = new_publisher();
    let event = start_event("C");
    let expected_body = to_json(&event);
    let expected_sig = Signer::new("secret".to_string()).unwrap().sign_hex(&expected_body);

    let action = p.step(Input::Payload(Payload::Event(event)));
    match action {
        Action::Post { url, body, signature } => {
            assert_eq!(url, "http://collector");
            assert_eq!(body, expected_body);
            assert_eq!(signature, expected_sig);
        }
        other => panic!("expected a post, got {:?}", other),
    }
    match p.step(Input::PostResult(true)) {
        Action::Receive => {}
        other => panic!("expected receive, got {:?}", other),
    }
    assert_eq!(p.backlog_len(), 0);
    assert!(!p.is_terminated());

    match p.step(Input::Payload(Payload::Stop)) {
        Action::Done => {}
        other => panic!("expected done, got {:?}", other),
    }
    assert!(p.is_terminated());
}

#[test]
fn success_short_circuit_never_retries() {
    let mut p = new_publisher();
    let action = p.step(Input::Payload(Payload::Event(start_event("C"))));
    assert!(matches!(action, Action::Post { .. }));
    let action = p.step(Input::PostResult(true));
    assert!(matches!(action, Action::Receive));
    assert_eq!(p.backlog_len(), 0);
}

#[test]
fn failing_event_attempted_six_times_with_linear_backoff() {
    let mut p = new_publisher();
    let event = start_event("doomed");
    let expected_body = to_json(&event);
    let (bodies, delays) = feed_always_failing(&mut p, event);
    assert_eq!(bodies.len(), 6);
    for body in &bodies {
        assert_eq!(body, &expected_body);
    }
    assert_eq!(delays, vec![0, 100, 200, 300, 400]);
    assert_eq!(p.backlog_len(), 1);
    assert!(!p.is_terminated());
}

#[test]
fn drain_posts_each_backlog_entry_once_in_order() {
    let mut p = new_publisher();
    let e1 = start_event("one");
    let e2 = start_event("two");
    let body1 = to_json(&e1);
    let body2 = to_json(&e2);
    feed_always_failing(&mut p, e1);
    feed_always_failing(&mut p, e2);
    assert_eq!(p.backlog_len(), 2);

    let action = p.step(Input::Payload(Payload::Stop));
    match action {
        Action::Post { body, .. } => assert_eq!(body, body1),
        other => panic!("expected drain post, got {:?}", other),
    }
    // A drain failure gets no retry; the next entry follows immediately.
    let action = p.step(Input::PostResult(false));
    match action {
        Action::Post { body, .. } => assert_eq!(body, body2),
        other => panic!("expected drain post, got {:?}", other),
    }
    let action = p.step(Input::PostResult(true));
    assert!(matches!(action, Action::Done));
    assert!(p.is_terminated());
}

#[test]
fn stop_worthy_event_failing_five_hundreds_then_shutdown() {
    let mut p = new_publisher();
    let event = Event::Stop(EventStop {
        track_info: track("C"),
        play_time_millis: 120_400,
        started_at: 1_690_000_000,
    });
    let expected_body = to_json(&event);
    let (bodies, _) = feed_always_failing(&mut p, event);
    assert_eq!(bodies.len(), 6);
    assert_eq!(p.backlog_len(), 1);

    // The drain pass gives the event exactly one more attempt, no retry.
    let action = p.step(Input::Payload(Payload::Stop));
    match action {
        Action::Post { body, .. } => assert_eq!(body, expected_body),
        other => panic!("expected drain post, got {:?}", other),
    }
    let action = p.step(Input::PostResult(false));
    assert!(matches!(action, Action::Done));
    assert!(p.is_terminated());
}

#[test]
fn reconfiguration_replaces_url_and_keeps_key_on_bad_secret() {
    let mut p = new_publisher();
    let action = p.step(Input::Payload(Payload::Event(Event::ConfigChanged(
        EventConfigChanged { url: "http://b".to_string(), secret: String::new() },
    ))));
    assert!(matches!(action, Action::Receive));
    assert_eq!(p.current_url(), "http://b");

    // The next post goes to the new URL but is still signed with the old key.
    let event = start_event("C");
    let body = to_json(&event);
    let old_key_sig = Signer::new("secret".to_string()).unwrap().sign_hex(&body);
    match p.step(Input::Payload(Payload::Event(event))) {
        Action::Post { url, signature, .. } => {
            assert_eq!(url, "http://b");
            assert_eq!(signature, old_key_sig);
        }
        other => panic!("expected post, got {:?}", other),
    }
}

#[test]
fn reconfiguration_with_valid_secret_replaces_key() {
    let mut p = new_publisher();
    let action = p.step(Input::Payload(Payload::Event(Event::ConfigChanged(
        EventConfigChanged { url: "http://b".to_string(), secret: "fresh".to_string() },
    ))));
    assert!(matches!(action, Action::Receive));

    let event = start_event("C");
    let body = to_json(&event);
    let new_key_sig = Signer::new("fresh".to_string()).unwrap().sign_hex(&body);
    match p.step(Input::Payload(Payload::Event(event))) {
        Action::Post { signature, .. } => assert_eq!(signature, new_key_sig),
        other => panic!("expected post, got {:?}", other),
    }
}

#[test]
fn channel_fault_is_survived() {
    let mut p = new_publisher();
    assert!(matches!(p.step(Input::ChannelError), Action::Receive));
    assert!(matches!(
        p.step(Input::Payload(Payload::Event(start_event("C")))),
        Action::Post { .. }
    ));
}

#[test]
fn stop_with_empty_backlog_terminates_at_once() {
    let mut p = new_publisher();
    assert!(matches!(p.step(Input::Payload(Payload::Stop)), Action::Done));
    assert!(p.is_terminated());
}

#[test]
fn payloads_processed_in_fifo_order() {
    let mut p = new_publisher();
    let e1 = start_event("one");
    let e2 = start_event("two");
    let e3 = start_event("three");
    let (b1, b2, b3) = (to_json(&e1), to_json(&e2), to_json(&e3));

    let mut attempted: Vec<String> = Vec::new();
    // e1 succeeds at once, e2 exhausts its retries, e3 succeeds at once.
    let mut action = p.step(Input::Payload(Payload::Event(e1)));
    match action {
        Action::Post { body, .. } => {
            attempted.push(body);
            action = p.step(Input::PostResult(true));
        }
        other => panic!("expected post, got {:?}", other),
    }
    assert!(matches!(action, Action::Receive));
    let (bodies, _) = feed_always_failing(&mut p, e2);
    attempted.extend(bodies);
    match p.step(Input::Payload(Payload::Event(e3))) {
        Action::Post { body, .. } => {
            attempted.push(body);
            assert!(matches!(p.step(Input::PostResult(true)), Action::Receive));
        }
        other => panic!("expected post, got {:?}", other),
    }

    // The sentinel, sent after the three events, is processed only after all
    // of their attempts: one for e1, six for e2, one for e3, in that order.
    let mut expected = vec![b1];
    expected.extend(std::iter::repeat(b2.clone()).take(6));
    expected.push(b3);
    assert_eq!(attempted, expected);

    match p.step(Input::Payload(Payload::Stop)) {
        Action::Post { body, .. } => assert_eq!(body, b2),
        other => panic!("expected drain post, got {:?}", other),
    }
    assert!(matches!(p.step(Input::PostResult(true)), Action::Done));
    assert!(p.is_terminated());
}

#[test]
fn empty_secret_aborts_construction() {
    assert!(Publisher::new("http://collector".to_string(), String::new()).is_err());
}

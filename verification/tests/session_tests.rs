use reswarm_dispatch::dispatch::DispatchState;
use reswarm_dispatch::handlers::{build_plan, logs_plan, stream_had_error};
use reswarm_dispatch::msg::Msg;
use reswarm_dispatch::session::{ClientError, ClientConfig, RouteAction, SessionState};
use reswarm_dispatch::value::Value;

#[test]
fn handshake_establishes_session() {
    let (mut st, hello) = SessionState::connect(b"realm1".to_vec());
    assert_eq!(hello, Msg::Hello { realm: b"realm1".to_vec() });
    let act = st.on_message(Msg::Welcome { session_id: 404 });
    assert!(matches!(act, RouteAction::Established { session_id: 404 }));
    // A second Welcome is a duplicate and is dropped.
    let act = st.on_message(Msg::Welcome { session_id: 405 });
    assert!(matches!(act, RouteAction::Dropped));
}

#[test]
fn abort_is_fatal() {
    let (mut st, _) = SessionState::connect(b"realm1".to_vec());
    let act = st.on_message(Msg::Abort { reason: b"wamp.error.no_such_realm".to_vec() });
    match act {
        RouteAction::Aborted { reason } => assert_eq!(reason, b"wamp.error.no_such_realm".to_vec()),
        other => panic!("expected Aborted, got {other:?}", other = kind_name(&other)),
    }
    // Nothing works on a closed session.
    assert_eq!(st.subscribe(b"t".to_vec()).unwrap_err(), ClientError::InvalidState);
}

fn kind_name(a: &RouteAction) -> &'static str {
    match a {
        RouteAction::Established { .. } => "Established",
        RouteAction::Aborted { .. } => "Aborted",
        RouteAction::SubscriptionOpened { .. } => "SubscriptionOpened",
        RouteAction::SubscriptionClosed { .. } => "SubscriptionClosed",
        RouteAction::RequestCompleted { .. } => "RequestCompleted",
        RouteAction::RequestFailed { .. } => "RequestFailed",
        RouteAction::Deliver { .. } => "Deliver",
        RouteAction::Dropped => "Dropped",
    }
}

#[test]
fn subscribe_before_welcome_is_invalid() {
    let (mut st, _) = SessionState::connect(b"realm1".to_vec());
    assert_eq!(st.subscribe(b"t".to_vec()).unwrap_err(), ClientError::InvalidState);
}

/// connect, join realm "realm1", subscribe, then one publication: the
/// handler path observes exactly the published args/kwargs pair, once.
#[test]
fn helloworld_event_reaches_its_subscription_once() {
    let (mut st, _hello) = SessionState::connect(b"realm1".to_vec());
    st.on_message(Msg::Welcome { session_id: 1 });

    let sub = st.subscribe(b"reswarm.containers.helloworld".to_vec()).unwrap();
    let request_id = match sub {
        Msg::Subscribe { request_id, ref topic } => {
            assert_eq!(topic, &b"reswarm.containers.helloworld".to_vec());
            request_id
        }
        _ => panic!("subscribe must build a Subscribe message"),
    };

    let act = st.on_message(Msg::Subscribed { request_id, subscription_id: 88 });
    assert!(matches!(act, RouteAction::SubscriptionOpened { subscription_id: 88, .. }));

    let mut deliveries = 0;
    let act = st.on_message(Msg::Event {
        subscription_id: 88,
        publication_id: 500,
        args: vec![Value::Text(b"x".to_vec())],
        kwargs: vec![(b"k".to_vec(), Value::Text(b"v".to_vec()))],
    });
    match act {
        RouteAction::Deliver { subscription_id, publication_id, args, kwargs } => {
            deliveries += 1;
            assert_eq!(subscription_id, 88);
            assert_eq!(publication_id, 500);
            assert_eq!(args, vec![Value::Text(b"x".to_vec())]);
            assert_eq!(kwargs, vec![(b"k".to_vec(), Value::Text(b"v".to_vec()))]);
        }
        _ => panic!("an event for an active subscription must be delivered"),
    }
    assert_eq!(deliveries, 1);

    // An event for an unknown subscription id is dropped, never fatal.
    let act = st.on_message(Msg::Event {
        subscription_id: 99,
        publication_id: 501,
        args: Vec::new(),
        kwargs: Vec::new(),
    });
    assert!(matches!(act, RouteAction::Dropped));
}

#[test]
fn interleaved_publications_keep_per_subscription_order() {
    let (mut st, _) = SessionState::connect(b"realm1".to_vec());
    st.on_message(Msg::Welcome { session_id: 1 });
    for (topic, sid) in [(&b"reswarm.containers.build"[..], 10u64), (&b"reswarm.containers.run"[..], 20u64)] {
        let m = st.subscribe(topic.to_vec()).unwrap();
        let rid = match m {
            Msg::Subscribe { request_id, .. } => request_id,
            _ => unreachable!(),
        };
        st.on_message(Msg::Subscribed { request_id: rid, subscription_id: sid });
    }
    let mut seen_a = Vec::new();
    let mut seen_b = Vec::new();
    for (sid, pid) in [(10u64, 1u64), (20, 2), (10, 3), (20, 4), (10, 5)] {
        match st.on_message(Msg::Event {
            subscription_id: sid,
            publication_id: pid,
            args: Vec::new(),
            kwargs: Vec::new(),
        }) {
            RouteAction::Deliver { subscription_id, publication_id, .. } => {
                if subscription_id == 10 {
                    seen_a.push(publication_id);
                } else {
                    seen_b.push(publication_id);
                }
            }
            _ => panic!("events for active subscriptions must be delivered"),
        }
    }
    assert_eq!(seen_a, vec![1, 3, 5]);
    assert_eq!(seen_b, vec![2, 4]);
}

#[test]
fn unsubscribe_twice_is_invalid_state() {
    let (mut st, _) = SessionState::connect(b"realm1".to_vec());
    st.on_message(Msg::Welcome { session_id: 1 });
    let m = st.subscribe(b"t".to_vec()).unwrap();
    let rid = match m {
        Msg::Subscribe { request_id, .. } => request_id,
        _ => unreachable!(),
    };
    st.on_message(Msg::Subscribed { request_id: rid, subscription_id: 7 });
    assert!(st.unsubscribe(7).is_ok());
    // The first unsubscribe is still outstanding: asking again fails.
    assert_eq!(st.unsubscribe(7).unwrap_err(), ClientError::InvalidState);
    // An unknown subscription id fails too.
    assert_eq!(st.unsubscribe(8).unwrap_err(), ClientError::InvalidState);
}

#[test]
fn error_reply_fails_only_the_matching_request() {
    let (mut st, _) = SessionState::connect(b"realm1".to_vec());
    st.on_message(Msg::Welcome { session_id: 1 });
    let m1 = st.publish(b"a".to_vec(), Vec::new(), Vec::new()).unwrap();
    let _m2 = st.publish(b"b".to_vec(), Vec::new(), Vec::new()).unwrap();
    let rid1 = match m1 {
        Msg::Publish { request_id, .. } => request_id,
        _ => unreachable!(),
    };
    let act = st.on_message(Msg::ErrorReply {
        request_id: rid1,
        reason: b"wamp.error.not_authorized".to_vec(),
    });
    assert!(matches!(act, RouteAction::RequestFailed { .. }));
    // A duplicate reply to the same request is discarded.
    let act = st.on_message(Msg::ErrorReply { request_id: rid1, reason: b"again".to_vec() });
    assert!(matches!(act, RouteAction::Dropped));
}

/// The dispatch loop: one handler invocation per event, failures isolated,
/// and exactly one closed notification.
#[test]
fn dispatch_loop_invokes_per_event_and_closes_once() {
    let mut d = DispatchState::new();
    for _ in 0..3 {
        assert!(d.on_event());
    }
    assert_eq!(d.handled, 3);
    // A failing handler is recorded and the loop stays open.
    d.on_handler_outcome(false);
    assert!(d.open);
    assert!(d.on_event());
    assert_eq!(d.handled, 4);
    assert_eq!(d.failed, 1);
    // Closing notifies exactly once.
    assert!(d.on_closed());
    assert!(!d.on_closed());
    assert_eq!(d.handled, 4);
}

/// Subscribe to the build topic, a publication triggers the handler: it
/// builds with the configured build-file path and tag, and a stream holding
/// an error element is reported without stopping the loop.
#[test]
fn build_handler_plan_and_error_stream() {
    let (mut st, _) = SessionState::connect(b"realm1".to_vec());
    st.on_message(Msg::Welcome { session_id: 1 });
    let m = st.subscribe(b"reswarm.containers.build".to_vec()).unwrap();
    let rid = match m {
        Msg::Subscribe { request_id, .. } => request_id,
        _ => unreachable!(),
    };
    st.on_message(Msg::Subscribed { request_id: rid, subscription_id: 30 });
    let act = st.on_message(Msg::Event {
        subscription_id: 30,
        publication_id: 1,
        args: Vec::new(),
        kwargs: Vec::new(),
    });
    assert!(matches!(act, RouteAction::Deliver { subscription_id: 30, .. }));

    let mut d = DispatchState::new();
    assert!(d.on_event());
    let plan = build_plan(b"Dockerfile".to_vec(), b"rust_container_test:latest".to_vec());
    assert_eq!(plan.dockerfile, b"Dockerfile".to_vec());
    assert_eq!(plan.tag, b"rust_container_test:latest".to_vec());
    assert!(plan.pull && plan.rm && plan.forcerm);
    // The runtime answered with a stream holding one error element.
    let had_error = stream_had_error(&vec![true, false, true]);
    assert!(had_error);
    d.on_handler_outcome(!had_error);
    // The loop keeps running: the failure is logged, not escalated.
    assert!(d.open);
    assert!(d.on_event());
}

#[test]
fn logs_plan_follows_stdout_with_timestamps() {
    let p = logs_plan();
    assert!(p.stdout && p.follow && p.timestamps);
}

#[test]
fn client_config_toggles_ssl_verification() {
    let c = ClientConfig::new();
    assert!(c.ssl_verify);
    let c = c.set_ssl_verify(false);
    assert!(!c.ssl_verify);
    assert_eq!(c.serializers.len(), 1);
}

use room_relay::client::{compose, compose_trimmed, debounce_accepts, history_line};
use room_relay::envelope::Envelope;
use room_relay::hub::Hub;
use room_relay::session::{next_phase, room_from_path, Outbound, Phase, Session, SessionEvent};
use room_relay::topic::{Delivery, Topic, DEFAULT_CAPACITY};

fn env(id: &str, name: &str, body: &str) -> Envelope {
    Envelope { sender_id: id.to_string(), sender_name: name.to_string(), body: body.to_string() }
}

fn message_body(d: &Delivery) -> Option<(u64, String)> {
    match d {
        Delivery::Message { seq, envelope } => Some((*seq, envelope.body.clone())),
        _ => None,
    }
}

fn sent(o: &Outbound) -> Option<String> {
    match o {
        Outbound::Send(f) => Some(f.clone()),
        _ => None,
    }
}

#[test]
fn parse_splits_on_first_two_delimiters() {
    let e = Envelope::parse("id1:bob:hi: there:again").unwrap();
    assert_eq!(e.sender_id, "id1");
    assert_eq!(e.sender_name, "bob");
    assert_eq!(e.body, "hi: there:again");
}

#[test]
fn parse_allows_empty_fields() {
    let e = Envelope::parse("::").unwrap();
    assert_eq!(e.sender_id, "");
    assert_eq!(e.sender_name, "");
    assert_eq!(e.body, "");
}

#[test]
fn parse_rejects_malformed_frames() {
    assert!(Envelope::parse("").is_none());
    assert!(Envelope::parse("hello").is_none());
    assert!(Envelope::parse("id:hello").is_none());
}

#[test]
fn parse_handles_non_ascii_text() {
    let e = Envelope::parse("é:名前:ça va").unwrap();
    assert_eq!(e.sender_id, "é");
    assert_eq!(e.sender_name, "名前");
    assert_eq!(e.body, "ça va");
}

#[test]
fn encode_joins_fields() {
    assert_eq!(env("a", "b", "c:d").encode(), "a:b:c:d");
}

#[test]
fn encode_then_parse_round_trips() {
    let e = env("42", "carol", "x:y");
    let back = Envelope::parse(&e.encode()).unwrap();
    assert_eq!(back.sender_id, "42");
    assert_eq!(back.sender_name, "carol");
    assert_eq!(back.body, "x:y");
}

#[test]
fn duplicate_copies_every_field() {
    let d = env("1", "n", "b").duplicate();
    assert_eq!(d.encode(), "1:n:b");
}

#[test]
fn publish_without_subscribers_is_fine() {
    let mut t = Topic::new(DEFAULT_CAPACITY);
    t.publish(env("a", "a", "lost"));
    assert_eq!(t.published_count(), 1);
}

#[test]
fn late_subscriber_gets_no_backlog() {
    let mut t = Topic::new(DEFAULT_CAPACITY);
    t.publish(env("a", "a", "x"));
    let b = t.subscribe().unwrap();
    assert!(matches!(t.receive(b), Delivery::Empty));
    t.publish(env("a", "a", "y"));
    assert_eq!(message_body(&t.receive(b)), Some((1, "y".to_string())));
    assert!(matches!(t.receive(b), Delivery::Empty));
}

#[test]
fn one_publisher_order_is_kept() {
    let mut t = Topic::new(DEFAULT_CAPACITY);
    let b = t.subscribe().unwrap();
    let c = t.subscribe().unwrap();
    t.publish(env("a", "a", "m1"));
    t.publish(env("a", "a", "m2"));
    for s in [b, c] {
        assert_eq!(message_body(&t.receive(s)), Some((0, "m1".to_string())));
        assert_eq!(message_body(&t.receive(s)), Some((1, "m2".to_string())));
    }
}

#[test]
fn slow_subscriber_sees_gap_then_newest() {
    let mut t = Topic::new(2);
    let s = t.subscribe().unwrap();
    for body in ["m0", "m1", "m2", "m3", "m4"] {
        t.publish(env("a", "a", body));
    }
    assert!(matches!(t.receive(s), Delivery::Lagged { skipped: 3 }));
    assert_eq!(message_body(&t.receive(s)), Some((3, "m3".to_string())));
    assert_eq!(message_body(&t.receive(s)), Some((4, "m4".to_string())));
    assert!(matches!(t.receive(s), Delivery::Empty));
}

#[test]
fn released_subscription_is_closed() {
    let mut t = Topic::new(DEFAULT_CAPACITY);
    let s = t.subscribe().unwrap();
    t.publish(env("a", "a", "m"));
    t.release(s);
    assert!(matches!(t.receive(s), Delivery::Closed));
    assert!(matches!(t.receive(s + 1), Delivery::Closed));
}

#[test]
fn same_room_name_gives_one_topic() {
    let mut hub = Hub::new(DEFAULT_CAPACITY);
    let first = hub.join("lobby");
    let second = hub.join("lobby");
    assert_eq!(first, second);
    assert_eq!(hub.room_count(), 1);
    let sub = hub.subscribe(second).unwrap();
    hub.publish(first, env("a", "a", "shared"));
    assert_eq!(message_body(&hub.receive(second, sub)), Some((0, "shared".to_string())));
}

#[test]
fn rooms_are_isolated() {
    let mut hub = Hub::new(DEFAULT_CAPACITY);
    let lobby = hub.join("lobby");
    let other = hub.join("other");
    assert_ne!(lobby, other);
    let d = hub.subscribe(other).unwrap();
    hub.publish(lobby, env("a", "a", "hi"));
    assert!(matches!(hub.receive(other, d), Delivery::Empty));
    assert_eq!(hub.published_count(other), 0);
    assert_eq!(hub.published_count(lobby), 1);
}

#[test]
fn connect_assigns_distinct_uuid_identifiers() {
    let mut hub = Hub::new(DEFAULT_CAPACITY);
    let a = Session::connect(&mut hub, "lobby").unwrap();
    let b = Session::connect(&mut hub, "lobby").unwrap();
    assert_eq!(a.client_id.len(), 36);
    assert_eq!(a.client_id.matches('-').count(), 4);
    assert!(!a.client_id.contains(':'));
    assert_ne!(a.client_id, b.client_id);
    assert_eq!(a.slot, b.slot);
    assert_ne!(a.subscription, b.subscription);
    assert_eq!(a.phase, Phase::Joined);
}

#[test]
fn inbound_stamps_session_identity() {
    let mut hub = Hub::new(DEFAULT_CAPACITY);
    let a = Session::connect(&mut hub, "lobby").unwrap();
    let e = a.inbound("forged-id:alice:hello: world").unwrap();
    assert_eq!(e.sender_id, a.client_id);
    assert_eq!(e.sender_name, "alice");
    assert_eq!(e.body, "hello: world");
    assert!(a.inbound("no delimiters here").is_none());
}

#[test]
fn three_clients_in_lobby_without_echo() {
    let mut hub = Hub::new(DEFAULT_CAPACITY);
    let a = Session::connect(&mut hub, "lobby").unwrap();
    let b = Session::connect(&mut hub, "lobby").unwrap();
    let c = Session::connect(&mut hub, "lobby").unwrap();
    let e = a.inbound("x:alice:hello").unwrap();
    hub.publish(a.slot, e);
    let expected = format!("{}:alice:hello", a.client_id);
    for s in [&b, &c] {
        let d = hub.receive(s.slot, s.subscription);
        let frame = sent(&s.outbound(&d)).unwrap();
        assert_eq!(frame, expected);
        let back = Envelope::parse(&frame).unwrap();
        assert_eq!(back.body, "hello");
        assert_eq!(back.sender_id, a.client_id);
    }
    let own = hub.receive(a.slot, a.subscription);
    assert!(matches!(a.outbound(&own), Outbound::Skip));
    let after = hub.receive(a.slot, a.subscription);
    assert!(matches!(a.outbound(&after), Outbound::Wait));
}

#[test]
fn other_room_receives_nothing() {
    let mut hub = Hub::new(DEFAULT_CAPACITY);
    let a = Session::connect(&mut hub, "lobby").unwrap();
    let d = Session::connect(&mut hub, "other").unwrap();
    let e = a.inbound("x:alice:hi").unwrap();
    hub.publish(a.slot, e);
    let got = hub.receive(d.slot, d.subscription);
    assert!(matches!(d.outbound(&got), Outbound::Wait));
}

#[test]
fn lagging_session_is_sent_a_gap_notice() {
    let mut hub = Hub::new(1);
    let a = Session::connect(&mut hub, "lobby").unwrap();
    let b = Session::connect(&mut hub, "lobby").unwrap();
    hub.publish(a.slot, a.inbound("x:alice:one").unwrap());
    hub.publish(a.slot, a.inbound("x:alice:two").unwrap());
    let d = hub.receive(b.slot, b.subscription);
    let notice = sent(&b.outbound(&d)).unwrap();
    assert_eq!(notice, "server:server:some messages were dropped because you fell behind");
    let d = hub.receive(b.slot, b.subscription);
    assert_eq!(sent(&b.outbound(&d)).unwrap(), format!("{}:alice:two", a.client_id));
}

#[test]
fn leaving_stops_delivery() {
    let mut hub = Hub::new(DEFAULT_CAPACITY);
    let a = Session::connect(&mut hub, "lobby").unwrap();
    a.leave(&mut hub);
    hub.publish(a.slot, env("z", "z", "late"));
    let d = hub.receive(a.slot, a.subscription);
    assert!(matches!(a.outbound(&d), Outbound::Stop));
}

#[test]
fn phases_follow_the_connection() {
    let mut p = Phase::Connecting;
    p = next_phase(p, SessionEvent::DutiesStarted);
    assert_eq!(p, Phase::Connecting);
    p = next_phase(p, SessionEvent::Upgraded);
    assert_eq!(p, Phase::Joined);
    p = next_phase(p, SessionEvent::DutiesStarted);
    assert_eq!(p, Phase::Streaming);
    p = next_phase(p, SessionEvent::DutyEnded);
    assert_eq!(p, Phase::Closing);
    p = next_phase(p, SessionEvent::TornDown);
    assert_eq!(p, Phase::Closed);
    for ev in [
        SessionEvent::Upgraded,
        SessionEvent::UpgradeFailed,
        SessionEvent::DutiesStarted,
        SessionEvent::DutyEnded,
        SessionEvent::TornDown,
    ] {
        assert_eq!(next_phase(Phase::Closed, ev), Phase::Closed);
    }
    assert_eq!(next_phase(Phase::Connecting, SessionEvent::UpgradeFailed), Phase::Closed);
}

#[test]
fn session_advance_updates_phase() {
    let mut hub = Hub::new(DEFAULT_CAPACITY);
    let mut a = Session::connect(&mut hub, "lobby").unwrap();
    a.advance(SessionEvent::DutiesStarted);
    assert_eq!(a.phase, Phase::Streaming);
    a.advance(SessionEvent::DutyEnded);
    assert_eq!(a.phase, Phase::Closing);
}

#[test]
fn debounce_window() {
    assert!(debounce_accepts(None, 0));
    assert!(!debounce_accepts(Some(100), 150));
    assert!(debounce_accepts(Some(100), 151));
    assert!(!debounce_accepts(Some(100), 20));
}

#[test]
fn compose_skips_blank_lines() {
    assert_eq!(compose("id", "me", "  hi  "), Some("id:me:  hi  ".to_string()));
    assert_eq!(compose("id", "me", "   \t"), None);
    assert_eq!(compose("id", "me", ""), None);
}

#[test]
fn history_line_filters_own_and_malformed() {
    assert_eq!(history_line("me", "you:bob:hi: all"), Some("bob: hi: all".to_string()));
    assert_eq!(history_line("me", "me:self:hi"), None);
    assert_eq!(history_line("me", "plain text"), None);
}

#[test]
fn compose_trimmed_decides_on_the_trimmed_text() {
    assert_eq!(compose_trimmed("id", "me", " x ", "x"), Some("id:me: x ".to_string()));
    assert_eq!(compose_trimmed("id", "me", "  ", ""), None);
}

#[test]
fn connect_as_keeps_the_given_identifier() {
    let mut hub = Hub::new(DEFAULT_CAPACITY);
    let a = Session::connect_as(&mut hub, "lobby", "client-a".to_string()).unwrap();
    let b = Session::connect_as(&mut hub, "lobby", "client-b".to_string()).unwrap();
    assert_eq!(a.client_id, "client-a");
    hub.publish(a.slot, a.inbound("?:alice:hey").unwrap());
    let d = hub.receive(b.slot, b.subscription);
    assert_eq!(sent(&b.outbound(&d)), Some("client-a:alice:hey".to_string()));
}

#[test]
fn subscriber_count_tracks_live_sessions() {
    let mut hub = Hub::new(DEFAULT_CAPACITY);
    let a = Session::connect(&mut hub, "lobby").unwrap();
    let b = Session::connect(&mut hub, "lobby").unwrap();
    let c = Session::connect(&mut hub, "other").unwrap();
    assert_eq!(hub.subscriber_count(a.slot), 2);
    assert_eq!(hub.subscriber_count(c.slot), 1);
    b.leave(&mut hub);
    assert_eq!(hub.subscriber_count(a.slot), 1);
    a.leave(&mut hub);
    assert_eq!(hub.subscriber_count(a.slot), 0);
    assert_eq!(hub.room_count(), 2);
}

#[test]
fn room_comes_from_the_request_path() {
    assert_eq!(room_from_path("/lobby"), "lobby");
    assert_eq!(room_from_path("//lobby/x"), "lobby/x");
    assert_eq!(room_from_path("/"), "default");
    assert_eq!(room_from_path(""), "default");
    assert_eq!(room_from_path("other"), "other");
}

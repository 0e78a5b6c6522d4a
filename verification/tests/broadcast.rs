use roomcast::events::{DomainEvent, TrackPayload};
use roomcast::registry::Registry;
use roomcast::sse::{decode_event, Broadcaster, SendOutcome};
use roomcast::x_accept::ContentType;

fn sample_track() -> TrackPayload {
    TrackPayload {
        track_uuid: String::from("t-1"),
        track_name: String::from("One More Time"),
        artist_name: String::from("Daft Punk"),
        track_duration: 320,
        thumbnail_url: String::from("https://example.test/omt.jpg"),
        track_idx: 1,
    }
}

fn expect_status(ev: &DomainEvent, expect: &str) {
    match ev {
        DomainEvent::Status(s) => assert_eq!(s, expect),
        DomainEvent::Track(_) => panic!("expected a status event"),
    }
}

#[test]
fn new_client_receives_connected_signal() {
    let mut b = Broadcaster::new(1);
    let mut rx = b.new_client(ContentType::Json).expect("subscribed");
    let frame = rx.try_next().expect("connected frame waiting");
    let ev = decode_event(&frame, ContentType::Json).expect("decodes");
    expect_status(&ev, "Connected");
    assert!(rx.try_next().is_none());
    assert_eq!(b.client_count(), 1);
}

#[test]
fn fanout_reaches_all_clients_in_their_encoding() {
    let mut b = Broadcaster::new(2);
    let mut rx1 = b.new_client(ContentType::Json).expect("subscribed");
    let mut rx2 = b.new_client(ContentType::Json).expect("subscribed");
    let mut rx3 = b.new_client(ContentType::Protobuf).expect("subscribed");
    let outcomes = b.send(&DomainEvent::Track(sample_track()));
    assert_eq!(outcomes.len(), 3);
    assert!(outcomes.iter().all(|o| matches!(o, SendOutcome::Sent)));

    for (rx, ct) in [
        (&mut rx1, ContentType::Json),
        (&mut rx2, ContentType::Json),
        (&mut rx3, ContentType::Protobuf),
    ] {
        let connected = rx.try_next().expect("connected frame");
        let ev = decode_event(&connected, ct).expect("decodes");
        expect_status(&ev, "Connected");
        let frame = rx.try_next().expect("published frame");
        let ev = decode_event(&frame, ct).expect("decodes");
        match ev {
            DomainEvent::Track(t) => {
                assert_eq!(t.track_name, "One More Time");
                assert_eq!(t.track_idx, 1);
                assert_eq!(t.track_duration, 320);
            },
            DomainEvent::Status(_) => panic!("expected the track event"),
        }
        // exactly one frame per publish
        assert!(rx.try_next().is_none());
    }
}

#[test]
fn stale_client_is_reaped_on_heartbeat() {
    let mut b = Broadcaster::new(3);
    let rx = b.new_client(ContentType::Json).expect("subscribed");
    assert_eq!(b.client_count(), 1);
    drop(rx);
    let kept = b.remove_stale_clients();
    assert_eq!(kept, vec![false]);
    assert_eq!(b.client_count(), 0);
    // subsequent publishes reach nobody
    let outcomes = b.send(&DomainEvent::Status(String::from("Ping")));
    assert!(outcomes.is_empty());
}

#[test]
fn live_client_survives_heartbeat_and_gets_ping() {
    let mut b = Broadcaster::new(4);
    let mut rx = b.new_client(ContentType::Protobuf).expect("subscribed");
    let kept = b.remove_stale_clients();
    assert_eq!(kept, vec![true]);
    assert_eq!(b.client_count(), 1);
    let connected = rx.try_next().expect("connected frame");
    let ev = decode_event(&connected, ContentType::Protobuf).expect("decodes");
    expect_status(&ev, "Connected");
    let ping = rx.try_next().expect("ping frame");
    let ev = decode_event(&ping, ContentType::Protobuf).expect("decodes");
    expect_status(&ev, "Ping");
}

#[test]
fn full_channel_never_blocks_or_fails_publish() {
    let mut b = Broadcaster::new(5);
    let slow = b.new_client(ContentType::Json).expect("subscribed");
    let mut fast = b.new_client(ContentType::Json).expect("subscribed");
    // fill the slow client's channel: it holds 100 frames and the
    // connect signal took one slot already
    for _ in 0..99 {
        let outcomes = b.send(&DomainEvent::Status(String::from("Ping")));
        assert_eq!(outcomes.len(), 2);
        // drain the fast client so only the slow one backs up
        while fast.try_next().is_some() {}
    }
    let outcomes = b.send(&DomainEvent::Status(String::from("Ping")));
    assert_eq!(outcomes.len(), 2);
    assert!(matches!(outcomes[0], SendOutcome::Full));
    assert!(matches!(outcomes[1], SendOutcome::Sent));
    // the slow client lost the frame; the fast one still received it
    assert!(fast.try_next().is_some());
    assert_eq!(b.client_count(), 2);
    drop(slow);
}

#[test]
fn registry_creates_one_broadcaster_per_room() {
    let mut reg = Registry::new();
    let mut rx_a = reg.subscribe(10, ContentType::Json).expect("subscribed");
    let _rx_b = reg.subscribe(10, ContentType::Protobuf).expect("subscribed");
    let _rx_c = reg.subscribe(20, ContentType::Json).expect("subscribed");
    assert_eq!(reg.client_count(10), Some(2));
    assert_eq!(reg.client_count(20), Some(1));
    assert_eq!(reg.client_count(30), None);

    let outcomes = reg.publish(10, &DomainEvent::Status(String::from("hello"))).expect("room 10");
    assert_eq!(outcomes.len(), 2);
    // events stay inside their room
    let connected = rx_a.try_next().expect("connected");
    let ev = decode_event(&connected, ContentType::Json).expect("decodes");
    expect_status(&ev, "Connected");
    let hello = rx_a.try_next().expect("published frame");
    let ev = decode_event(&hello, ContentType::Json).expect("decodes");
    expect_status(&ev, "hello");
}

#[test]
fn registry_publish_without_broadcaster_is_reported() {
    let reg = Registry::new();
    assert!(reg.publish(99, &DomainEvent::Status(String::from("x"))).is_none());
}

#[test]
fn registry_heartbeat_reaps_only_that_room() {
    let mut reg = Registry::new();
    let gone = reg.subscribe(1, ContentType::Json).expect("subscribed");
    let _live = reg.subscribe(2, ContentType::Json).expect("subscribed");
    drop(gone);
    let kept = reg.remove_stale(1).expect("room 1 exists");
    assert_eq!(kept, vec![false]);
    assert_eq!(reg.client_count(1), Some(0));
    assert_eq!(reg.client_count(2), Some(1));
    assert!(reg.remove_stale(42).is_none());
}

#[test]
fn frames_arrive_in_publish_order() {
    let mut b = Broadcaster::new(6);
    let mut rx = b.new_client(ContentType::Json).expect("subscribed");
    b.send(&DomainEvent::Status(String::from("first")));
    b.send(&DomainEvent::Status(String::from("second")));
    let connected = rx.try_next().expect("connected");
    expect_status(
        &decode_event(&connected, ContentType::Json).expect("decodes"),
        "Connected",
    );
    let one = rx.try_next().expect("first frame");
    expect_status(&decode_event(&one, ContentType::Json).expect("decodes"), "first");
    let two = rx.try_next().expect("second frame");
    expect_status(&decode_event(&two, ContentType::Json).expect("decodes"), "second");
    assert!(rx.try_next().is_none());
}

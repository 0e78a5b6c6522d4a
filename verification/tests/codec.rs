use roomcast::events::{DomainEvent, SsePacketEvent, TrackPayload};
use roomcast::sse::{decode_event, encode_event};
use roomcast::varint::{decode_varint, encode_varint};
use roomcast::wire::{decode_frame, encode_frame};
use roomcast::x_accept::ContentType;

fn sample_track() -> TrackPayload {
    TrackPayload {
        track_uuid: String::from("a1b2c3"),
        track_name: String::from("Night Drive \"live\""),
        artist_name: String::from("Söme Ärtist"),
        track_duration: 245,
        thumbnail_url: String::from("https://example.test/t.jpg"),
        track_idx: 3,
    }
}

fn assert_status(ev: &DomainEvent, expect: &str) {
    match ev {
        DomainEvent::Status(s) => assert_eq!(s, expect),
        DomainEvent::Track(_) => panic!("expected a status event"),
    }
}

fn assert_same_track(ev: &DomainEvent, t: &TrackPayload) {
    match ev {
        DomainEvent::Track(d) => {
            assert_eq!(d.track_uuid, t.track_uuid);
            assert_eq!(d.track_name, t.track_name);
            assert_eq!(d.artist_name, t.artist_name);
            assert_eq!(d.track_duration, t.track_duration);
            assert_eq!(d.thumbnail_url, t.thumbnail_url);
            assert_eq!(d.track_idx, t.track_idx);
        },
        DomainEvent::Status(_) => panic!("expected a track event"),
    }
}

#[test]
fn varint_exact_bytes() {
    let mut out: Vec<u8> = Vec::new();
    encode_varint(&mut out, 300);
    assert_eq!(out, vec![0xac, 0x02]);
    let mut small: Vec<u8> = Vec::new();
    encode_varint(&mut small, 1);
    assert_eq!(small, vec![0x01]);
}

#[test]
fn varint_exec_roundtrip() {
    for n in [0u64, 1, 127, 128, 300, 1 << 20, u64::MAX] {
        let mut out: Vec<u8> = Vec::new();
        encode_varint(&mut out, n);
        let (v, j) = decode_varint(&out, 0).expect("decodes");
        assert_eq!(v, n);
        assert_eq!(j, out.len());
    }
}

#[test]
fn binary_status_frame_exact_bytes() {
    let ev = DomainEvent::Status(String::from("Ping"));
    let frame = encode_event(&ev, ContentType::Protobuf);
    // kind 0 is omitted; field 2 is length-delimited "Ping"
    assert_eq!(frame, vec![0x12, 0x04, b'P', b'i', b'n', b'g']);
}

#[test]
fn json_status_frame_exact_text() {
    let ev = DomainEvent::Status(String::from("Connected"));
    let frame = encode_event(&ev, ContentType::Json);
    assert_eq!(
        String::from_utf8(frame).unwrap(),
        "{\"event\":\"InternalStatus\",\"data\":\"Connected\"}"
    );
}

#[test]
fn roundtrip_status_both_encodings() {
    for ct in [ContentType::Json, ContentType::Protobuf] {
        let ev = DomainEvent::Status(String::from("Ping"));
        let frame = encode_event(&ev, ct);
        let back = decode_event(&frame, ct).expect("decodes");
        assert_status(&back, "Ping");
    }
}

#[test]
fn roundtrip_track_both_encodings() {
    let t = sample_track();
    for ct in [ContentType::Json, ContentType::Protobuf] {
        let ev = DomainEvent::Track(sample_track());
        let frame = encode_event(&ev, ct);
        let back = decode_event(&frame, ct).expect("decodes");
        assert_same_track(&back, &t);
    }
}

#[test]
fn roundtrip_awkward_strings() {
    let t = TrackPayload {
        track_uuid: String::new(),
        track_name: String::from("quote \" backslash \\ tab \t newline \n"),
        artist_name: String::from("控制字符 \u{1} ок"),
        track_duration: -61,
        thumbnail_url: String::new(),
        track_idx: i64::MIN,
    };
    for ct in [ContentType::Json, ContentType::Protobuf] {
        let ev = DomainEvent::Track(TrackPayload {
            track_uuid: t.track_uuid.clone(),
            track_name: t.track_name.clone(),
            artist_name: t.artist_name.clone(),
            track_duration: t.track_duration,
            thumbnail_url: t.thumbnail_url.clone(),
            track_idx: t.track_idx,
        });
        let frame = encode_event(&ev, ct);
        let back = decode_event(&frame, ct).expect("decodes");
        assert_same_track(&back, &t);
    }
}

#[test]
fn json_matches_general_json_parser() {
    let ev = DomainEvent::Track(sample_track());
    let frame = encode_event(&ev, ContentType::Json);
    let v: serde_json::Value = serde_json::from_slice(&frame).expect("well-formed JSON");
    assert_eq!(v["event"], "Data");
    assert_eq!(v["data"]["track_name"], "Night Drive \"live\"");
    assert_eq!(v["data"]["artist_name"], "Söme Ärtist");
    assert_eq!(v["data"]["track_duration"], 245);
    assert_eq!(v["data"]["track_idx"], 3);
}

#[test]
fn frame_layer_roundtrip() {
    let data = vec![1u8, 2, 3, 255, 0];
    let frame = encode_frame(SsePacketEvent::Data, &data);
    let packet = decode_frame(&frame).expect("decodes");
    assert!(matches!(packet.event, SsePacketEvent::Data));
    assert_eq!(packet.data, data);
}

#[test]
fn empty_status_payload_roundtrip() {
    for ct in [ContentType::Json, ContentType::Protobuf] {
        let ev = DomainEvent::Status(String::new());
        let frame = encode_event(&ev, ct);
        let back = decode_event(&frame, ct).expect("decodes");
        assert_status(&back, "");
    }
}

#[test]
fn garbage_is_rejected() {
    let garbage = vec![0xffu8, 0x00, 0x99];
    assert!(decode_event(&garbage, ContentType::Json).is_none());
    assert!(decode_event(&garbage, ContentType::Protobuf).is_none());
}

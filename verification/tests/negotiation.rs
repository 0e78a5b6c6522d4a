use roomcast::error::Error;
use roomcast::payload::ContentType as BodyType;
use roomcast::x_accept::{get_content_type_x_accept, xaccept_from_header, ContentType};

#[test]
fn x_accept_matches_case_insensitive_prefix() {
    assert_eq!(
        get_content_type_x_accept(b"application/json"),
        Some(ContentType::Json)
    );
    assert_eq!(
        get_content_type_x_accept(b"Application/JSON; charset=utf-8"),
        Some(ContentType::Json)
    );
    assert_eq!(
        get_content_type_x_accept(b"application/protobuf"),
        Some(ContentType::Protobuf)
    );
    assert_eq!(get_content_type_x_accept(b"text/plain"), None);
    assert_eq!(get_content_type_x_accept(b""), None);
}

#[test]
fn x_accept_wrapper_rejects_unsupported() {
    assert!(xaccept_from_header(b"application/xml").is_none());
    let xa = xaccept_from_header(b"APPLICATION/PROTOBUF").expect("supported");
    assert_eq!(xa.content_type(), ContentType::Protobuf);
}

#[test]
fn body_type_is_exact_match_only() {
    assert_eq!(
        BodyType::from_request_content_type("application/json"),
        BodyType::Json
    );
    assert_eq!(
        BodyType::from_request_content_type("application/protobuf"),
        BodyType::Protobuf
    );
    // unlike the stream negotiation, the body format match is exact
    assert_eq!(
        BodyType::from_request_content_type("application/json; charset=utf-8"),
        BodyType::Other
    );
    assert_eq!(BodyType::from_request_accepts("nonsense"), BodyType::Other);
    assert_eq!(
        BodyType::from_request_header("application/json"),
        BodyType::Json
    );
}

#[test]
fn response_format_prefers_accepts_then_request_then_json() {
    assert_eq!(
        BodyType::response_content_type(BodyType::Protobuf, BodyType::Json),
        BodyType::Protobuf
    );
    assert_eq!(
        BodyType::response_content_type(BodyType::Other, BodyType::Protobuf),
        BodyType::Protobuf
    );
    assert_eq!(
        BodyType::response_content_type(BodyType::Other, BodyType::Other),
        BodyType::Json
    );
}

#[test]
fn failure_classes_map_to_their_status_codes() {
    assert_eq!(Error::Dal(String::from("gone")).status_code(), 500);
    assert_eq!(Error::Conflict(String::from("owner missing")).status_code(), 409);
    assert_eq!(Error::NotFound("no such room").status_code(), 404);
    assert_eq!(Error::BadRequest("name too long").status_code(), 400);
    assert_eq!(Error::Uuid(String::from("not-a-uuid")).status_code(), 400);
    assert_eq!(Error::Forbidden("not a member").status_code(), 403);
    assert!(Error::NotFound("x").is_client_error());
    assert!(!Error::Dal(String::from("x")).is_client_error());
}

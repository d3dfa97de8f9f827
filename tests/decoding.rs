use token_manager::aggregate::Frame;
use token_manager::decode::{decode_list_frame, decode_text_frame, JsonValue};
use token_manager::enums::OpalResponse;

fn obj(fields: Vec<(&str, JsonValue)>) -> JsonValue {
    JsonValue::Object(fields.into_iter().map(|(k, v)| (k.to_string(), v)).collect())
}

fn text(s: &str) -> JsonValue {
    JsonValue::Text(s.to_string())
}

#[test]
fn decodes_success_text() {
    let v = obj(vec![("from", text("siteA")), ("body", obj(vec![("response", text("CREATED"))]))]);
    match decode_text_frame(Some(&v)) {
        Frame::Reply(r) => {
            assert_eq!(r.from, "siteA");
            match r.body {
                OpalResponse::Success { response } => assert_eq!(response, "CREATED"),
                _ => panic!("expected success"),
            }
        }
        _ => panic!("expected a reply"),
    }
}

#[test]
fn decodes_failure_text() {
    let v = obj(vec![
        ("from", text("siteB")),
        ("body", obj(vec![("status_code", JsonValue::Integer(503)), ("error_message", text("busy"))])),
    ]);
    match decode_text_frame(Some(&v)) {
        Frame::Reply(r) => match r.body {
            OpalResponse::Failure { status_code, error_message } => {
                assert_eq!(status_code, 503);
                assert_eq!(error_message, "busy");
            }
            _ => panic!("expected failure"),
        },
        _ => panic!("expected a reply"),
    }
}

#[test]
fn malformed_payloads() {
    assert!(matches!(decode_text_frame(None), Frame::Malformed(_)));
    let no_from = obj(vec![("body", obj(vec![("response", text("x"))]))]);
    assert!(matches!(decode_text_frame(Some(&no_from)), Frame::Malformed(_)));
    let big_code = obj(vec![
        ("from", text("s")),
        ("body", obj(vec![("status_code", JsonValue::Integer(1 << 40)), ("error_message", text("m"))])),
    ]);
    assert!(matches!(decode_text_frame(Some(&big_code)), Frame::Malformed(_)));
    let wrong_shape = obj(vec![("from", text("s")), ("body", obj(vec![("response", JsonValue::Integer(3))]))]);
    assert!(matches!(decode_text_frame(Some(&wrong_shape)), Frame::Malformed(_)));
}

#[test]
fn decodes_table_list() {
    let v = obj(vec![
        ("from", text("siteA")),
        ("body", obj(vec![("response", JsonValue::Array(vec![text("t1"), text("t2")]))])),
    ]);
    match decode_list_frame(Some(&v)) {
        Frame::Reply(r) => match r.body {
            OpalResponse::Success { response } => assert_eq!(response, vec!["t1", "t2"]),
            _ => panic!("expected success"),
        },
        _ => panic!("expected a reply"),
    }
    let mixed = obj(vec![
        ("from", text("siteA")),
        ("body", obj(vec![("response", JsonValue::Array(vec![text("t1"), JsonValue::Null]))])),
    ]);
    assert!(matches!(decode_list_frame(Some(&mixed)), Frame::Malformed(_)));
}

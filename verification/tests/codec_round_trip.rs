//! The envelope codec: round trips, canonical form, and rejected input.

use vortex::codec::{decode_init, decode_msg, encode_init, encode_msg};
use vortex::msg::{Body, InitPayload, Message, NodeKind, Payload};
use vortex::wire::DecodeError;

fn msg(src: &str, dest: &str, id: Option<u64>, irt: Option<u64>, payload: Payload) -> Message<Payload> {
    Message {
        src: src.to_string(),
        dest: dest.to_string(),
        body: Body { id, in_reply_to: irt, payload },
    }
}

#[test]
fn round_trip_echo_with_escapes() {
    let m = msg(
        "n1",
        "c1",
        Some(7),
        Some(3),
        Payload::Echo { echo: "say \"hi\"\\ \n\r\t \u{1} héllo ⍺".to_string() },
    );
    let line = encode_msg(&m);
    assert!(!line.contains('\n'));
    assert_eq!(decode_msg(NodeKind::Echo, &line), Ok(m));
}

#[test]
fn round_trip_optional_fields_absent() {
    let m = msg("a", "b", None, None, Payload::EchoOk { echo: String::new() });
    let line = encode_msg(&m);
    assert_eq!(decode_msg(NodeKind::Echo, &line), Ok(m));
}

#[test]
fn round_trip_init_message() {
    let m = Message {
        src: "c1".to_string(),
        dest: "n3".to_string(),
        body: Body {
            id: Some(1),
            in_reply_to: None,
            payload: InitPayload::Init {
                node_id: "n3".to_string(),
                node_ids: vec!["n1".to_string(), "n2".to_string(), "n3".to_string()],
            },
        },
    };
    let line = encode_init(&m);
    assert_eq!(decode_init(&line), Ok(m));
}

#[test]
fn round_trip_read_ok_arrays() {
    for messages in [vec![], vec![0], vec![5, 7, u64::MAX]] {
        let m = msg("n1", "c1", Some(2), Some(9), Payload::ReadOk { messages });
        let line = encode_msg(&m);
        assert_eq!(decode_msg(NodeKind::Broadcast, &line), Ok(m));
    }
}

#[test]
fn round_trip_topology() {
    for topology in [
        vec![],
        vec![("n1".to_string(), vec!["n2".to_string(), "n3".to_string()]), ("n2".to_string(), vec![])],
    ] {
        let m = msg("c1", "n1", Some(4), None, Payload::Topology { topology });
        let line = encode_msg(&m);
        assert_eq!(decode_msg(NodeKind::Broadcast, &line), Ok(m));
    }
}

#[test]
fn round_trip_generate_kinds() {
    let g = msg("c1", "n1", Some(2), None, Payload::Generate);
    assert_eq!(decode_msg(NodeKind::UniqueId, &encode_msg(&g)), Ok(g));
    let ok = msg("n1", "c1", Some(3), Some(2), Payload::GenerateOk { id: "01ARZ3NDEKTSV4RRFFQ69G5FAV".to_string() });
    assert_eq!(decode_msg(NodeKind::UniqueId, &encode_msg(&ok)), Ok(ok));
}

#[test]
fn encode_emits_canonical_form() {
    let m = msg("n1", "c1", Some(2), Some(2), Payload::EchoOk { echo: "hi".to_string() });
    assert_eq!(
        encode_msg(&m),
        "{\"src\":\"n1\",\"dest\":\"c1\",\"body\":{\"type\":\"echo_ok\",\"msg_id\":2,\"in_reply_to\":2,\"echo\":\"hi\"}}"
    );
}

#[test]
fn encoded_form_is_valid_json_with_flattened_payload() {
    let m = msg("n1", "c1", Some(6), None, Payload::Broadcast { message: 12 });
    let v: serde_json::Value = serde_json::from_str(&encode_msg(&m)).expect("must be valid JSON");
    assert_eq!(v["src"], serde_json::Value::String("n1".to_string()));
    assert_eq!(v["body"]["type"], serde_json::Value::String("broadcast".to_string()));
    // The payload's fields sit beside msg_id, not nested under a payload key.
    assert_eq!(v["body"]["message"], serde_json::Value::from(12u64));
    assert!(v["body"].get("payload").is_none());
}

#[test]
fn decode_rejects_malformed_records() {
    for line in [
        "",
        "not json",
        "{\"src\":\"c1\"}",
        "{\"src\":\"c1\",\"dest\":\"n1\",\"body\":{\"type\":\"echo\",\"echo\":5}}",
        "{\"src\":\"c1\",\"dest\":\"n1\",\"body\":{\"type\":\"echo\",\"echo\":\"hi\"}} trailing",
        "{\"src\":\"c1\",\"dest\":\"n1\",\"body\":{\"type\":\"echo\",\"msg_id\":99999999999999999999,\"echo\":\"hi\"}}",
    ] {
        assert_eq!(decode_msg(NodeKind::Echo, line), Err(DecodeError::Malformed), "line: {line}");
    }
}

#[test]
fn decode_rejects_tags_outside_the_union() {
    // A tag no union knows.
    assert_eq!(
        decode_msg(
            NodeKind::Echo,
            "{\"src\":\"c1\",\"dest\":\"n1\",\"body\":{\"type\":\"gossip\",\"msg_id\":1}}"
        ),
        Err(DecodeError::UnknownTag)
    );
    // A known tag outside this node kind's slice of the union.
    assert_eq!(
        decode_msg(
            NodeKind::Echo,
            "{\"src\":\"c1\",\"dest\":\"n1\",\"body\":{\"type\":\"broadcast\",\"msg_id\":1,\"message\":5}}"
        ),
        Err(DecodeError::UnknownTag)
    );
    assert_eq!(
        decode_init("{\"src\":\"c1\",\"dest\":\"n1\",\"body\":{\"type\":\"echo\",\"msg_id\":1,\"echo\":\"hi\"}}"),
        Err(DecodeError::UnknownTag)
    );
}

#[test]
fn decode_unescapes_string_escapes() {
    let line = "{\"src\":\"c1\",\"dest\":\"n1\",\"body\":{\"type\":\"echo\",\"msg_id\":1,\"echo\":\"a\\\"b\\\\c\\nd\\u0007e\\/f\"}}";
    let m = decode_msg(NodeKind::Echo, line).expect("escapes must decode");
    assert_eq!(m.body.payload, Payload::Echo { echo: "a\"b\\c\nd\u{7}e/f".to_string() });
}

//! End-to-end protocol scenarios driven through the engine.

use vortex::behavior::{BroadcastNode, EchoNode, UniqueIdNode};
use vortex::engine::{EngineError, Node, NodeServer};
use vortex::msg::{NodeKind, Payload};

fn json(s: &str) -> serde_json::Value {
    serde_json::from_str(s).expect("expected well-formed JSON")
}

#[test]
fn scenario_handshake() {
    let mut server = NodeServer::new();
    let (nid, out) = server
        .handle_init_line(
            "{\"src\":\"c1\",\"dest\":\"n1\",\"body\":{\"type\":\"init\",\"msg_id\":1,\"node_id\":\"n1\",\"node_ids\":[\"n1\"]}}",
        )
        .expect("handshake should succeed");
    assert_eq!(nid, "n1");
    assert_eq!(
        json(&out),
        json("{\"src\":\"n1\",\"dest\":\"c1\",\"body\":{\"type\":\"init_ok\",\"in_reply_to\":1,\"msg_id\":1}}")
    );
}

#[test]
fn scenario_echo_after_handshake() {
    let mut server = NodeServer::new();
    let (nid, _) = server
        .handle_init_line(
            "{\"src\":\"c1\",\"dest\":\"n1\",\"body\":{\"type\":\"init\",\"msg_id\":1,\"node_id\":\"n1\",\"node_ids\":[\"n1\"]}}",
        )
        .expect("handshake should succeed");
    let mut node = EchoNode::init(nid);
    let out = server
        .handle_line(
            &mut node,
            "{\"src\":\"c1\",\"dest\":\"n1\",\"body\":{\"type\":\"echo\",\"msg_id\":2,\"echo\":\"hi\"}}",
        )
        .expect("echo should decode")
        .expect("echo should draw a reply");
    assert_eq!(
        json(&out),
        json("{\"src\":\"n1\",\"dest\":\"c1\",\"body\":{\"type\":\"echo_ok\",\"msg_id\":2,\"in_reply_to\":2,\"echo\":\"hi\"}}")
    );
}

#[test]
fn outbound_counter_ignores_inbound_msg_id() {
    let mut server = NodeServer::new();
    let (nid, _) = server
        .handle_init_line(
            "{\"src\":\"c1\",\"dest\":\"n1\",\"body\":{\"type\":\"init\",\"msg_id\":41,\"node_id\":\"n1\",\"node_ids\":[\"n1\"]}}",
        )
        .expect("handshake should succeed");
    let mut node = EchoNode::init(nid);
    let out = server
        .handle_line(
            &mut node,
            "{\"src\":\"c1\",\"dest\":\"n1\",\"body\":{\"type\":\"echo\",\"msg_id\":99,\"echo\":\"x\"}}",
        )
        .expect("echo should decode")
        .expect("echo should draw a reply");
    let reply = vortex::codec::decode_msg(NodeKind::Echo, &out).expect("reply must round-trip");
    assert_eq!(reply.body.id, Some(2));
    assert_eq!(reply.body.in_reply_to, Some(99));
}

#[test]
fn scenario_broadcast_accumulates_in_order() {
    let mut server = NodeServer::new();
    let (nid, _) = server
        .handle_init_line(
            "{\"src\":\"c1\",\"dest\":\"n1\",\"body\":{\"type\":\"init\",\"msg_id\":1,\"node_id\":\"n1\",\"node_ids\":[\"n1\",\"n2\"]}}",
        )
        .expect("handshake should succeed");
    let mut node = BroadcastNode::init(nid);
    let topo = server
        .handle_line(
            &mut node,
            "{\"src\":\"c1\",\"dest\":\"n1\",\"body\":{\"type\":\"topology\",\"msg_id\":2,\"topology\":{\"n1\":[\"n2\"],\"n2\":[\"n1\"]}}}",
        )
        .expect("topology should decode")
        .expect("topology is acknowledged");
    let topo_reply = vortex::codec::decode_msg(NodeKind::Broadcast, &topo).unwrap();
    assert_eq!(topo_reply.body.payload, Payload::TopologyOk);
    let b1 = server
        .handle_line(
            &mut node,
            "{\"src\":\"c1\",\"dest\":\"n1\",\"body\":{\"type\":\"broadcast\",\"msg_id\":3,\"message\":5}}",
        )
        .unwrap()
        .expect("broadcast is acknowledged");
    let b2 = server
        .handle_line(
            &mut node,
            "{\"src\":\"c1\",\"dest\":\"n1\",\"body\":{\"type\":\"broadcast\",\"msg_id\":4,\"message\":7}}",
        )
        .unwrap()
        .expect("broadcast is acknowledged");
    assert_eq!(
        vortex::codec::decode_msg(NodeKind::Broadcast, &b1).unwrap().body.payload,
        Payload::BroadcastOk
    );
    assert_eq!(
        vortex::codec::decode_msg(NodeKind::Broadcast, &b2).unwrap().body.payload,
        Payload::BroadcastOk
    );
    // One reply per request and nothing else: no record is ever sent to a
    // peer, even though the earlier topology message listed neighbors.
    let read = server
        .handle_line(
            &mut node,
            "{\"src\":\"c1\",\"dest\":\"n1\",\"body\":{\"type\":\"read\",\"msg_id\":5}}",
        )
        .unwrap()
        .expect("read draws a reply");
    let read_reply = vortex::codec::decode_msg(NodeKind::Broadcast, &read).unwrap();
    assert_eq!(read_reply.src, "n1");
    assert_eq!(read_reply.dest, "c1");
    assert_eq!(read_reply.body.in_reply_to, Some(5));
    assert_eq!(read_reply.body.payload, Payload::ReadOk { messages: vec![5, 7] });
}

#[test]
fn read_twice_same_contents_distinct_sequence_ids() {
    let mut server = NodeServer::new();
    let (nid, _) = server
        .handle_init_line(
            "{\"src\":\"c1\",\"dest\":\"n1\",\"body\":{\"type\":\"init\",\"msg_id\":1,\"node_id\":\"n1\",\"node_ids\":[\"n1\"]}}",
        )
        .unwrap();
    let mut node = BroadcastNode::init(nid);
    server
        .handle_line(
            &mut node,
            "{\"src\":\"c1\",\"dest\":\"n1\",\"body\":{\"type\":\"broadcast\",\"msg_id\":2,\"message\":11}}",
        )
        .unwrap();
    let line = "{\"src\":\"c1\",\"dest\":\"n1\",\"body\":{\"type\":\"read\",\"msg_id\":3}}";
    let r1 = server.handle_line(&mut node, line).unwrap().unwrap();
    let r2 = server.handle_line(&mut node, line).unwrap().unwrap();
    let m1 = vortex::codec::decode_msg(NodeKind::Broadcast, &r1).unwrap();
    let m2 = vortex::codec::decode_msg(NodeKind::Broadcast, &r2).unwrap();
    assert_eq!(m1.body.payload, Payload::ReadOk { messages: vec![11] });
    assert_eq!(m1.body.payload, m2.body.payload);
    let id1 = m1.body.id.unwrap();
    let id2 = m2.body.id.unwrap();
    assert!(id1 < id2);
    assert_eq!(id2, id1 + 1);
}

#[test]
fn handshake_rejects_non_init_records() {
    let mut server = NodeServer::new();
    assert_eq!(server.handle_init_line(""), Err(EngineError::InvalidInit));
    assert_eq!(server.handle_init_line("not json"), Err(EngineError::InvalidInit));
    assert_eq!(
        server.handle_init_line(
            "{\"src\":\"c1\",\"dest\":\"n1\",\"body\":{\"type\":\"echo\",\"msg_id\":1,\"echo\":\"hi\"}}"
        ),
        Err(EngineError::InvalidInit)
    );
    assert_eq!(
        server.handle_init_line(
            "{\"src\":\"c1\",\"dest\":\"n1\",\"body\":{\"type\":\"init_ok\",\"msg_id\":1}}"
        ),
        Err(EngineError::InvalidInit)
    );
    // A well-formed init is still accepted afterwards, and the counter was
    // never advanced by the refused records.
    let (_, out) = server
        .handle_init_line(
            "{\"src\":\"c1\",\"dest\":\"n1\",\"body\":{\"type\":\"init\",\"msg_id\":1,\"node_id\":\"n1\",\"node_ids\":[\"n1\"]}}",
        )
        .expect("handshake should succeed");
    let ack = vortex::codec::decode_init(&out).unwrap();
    assert_eq!(ack.body.id, Some(1));
}

#[test]
fn generate_reply_carries_fresh_identifier() {
    let mut server = NodeServer::new();
    let (nid, _) = server
        .handle_init_line(
            "{\"src\":\"c1\",\"dest\":\"n1\",\"body\":{\"type\":\"init\",\"msg_id\":1,\"node_id\":\"n1\",\"node_ids\":[\"n1\"]}}",
        )
        .unwrap();
    let mut node = UniqueIdNode::init(nid);
    let out = server
        .handle_line(
            &mut node,
            "{\"src\":\"c1\",\"dest\":\"n1\",\"body\":{\"type\":\"generate\",\"msg_id\":2}}",
        )
        .unwrap()
        .expect("generate draws a reply");
    let reply = vortex::codec::decode_msg(NodeKind::UniqueId, &out).unwrap();
    match reply.body.payload {
        Payload::GenerateOk { id } => {
            assert_eq!(id.chars().count(), 26);
            assert!(id.chars().all(|c| c.is_ascii_digit() || c.is_ascii_uppercase()));
        },
        other => panic!("expected generate_ok, got {:?}", other),
    }
}

#[test]
fn acknowledgment_kinds_draw_no_reply() {
    let mut server = NodeServer::new();
    let (nid, _) = server
        .handle_init_line(
            "{\"src\":\"c1\",\"dest\":\"n1\",\"body\":{\"type\":\"init\",\"msg_id\":1,\"node_id\":\"n1\",\"node_ids\":[\"n1\"]}}",
        )
        .unwrap();
    let mut node = EchoNode::init(nid);
    let none = server
        .handle_line(
            &mut node,
            "{\"src\":\"c1\",\"dest\":\"n1\",\"body\":{\"type\":\"echo_ok\",\"msg_id\":2,\"echo\":\"hi\"}}",
        )
        .expect("echo_ok should decode");
    assert_eq!(none, None);
    // The counter did not move: the next reply is numbered 2.
    let out = server
        .handle_line(
            &mut node,
            "{\"src\":\"c1\",\"dest\":\"n1\",\"body\":{\"type\":\"echo\",\"msg_id\":9,\"echo\":\"y\"}}",
        )
        .unwrap()
        .unwrap();
    let reply = vortex::codec::decode_msg(NodeKind::Echo, &out).unwrap();
    assert_eq!(reply.body.id, Some(2));
}

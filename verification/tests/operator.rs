use agent_graph_mcp::json::JsonValue;
use agent_graph_mcp::tool_runtime::UtcTime;
use agent_graph_mcp::operator::{
    decision_material, material_text, rejection, retention_response, OperatorRetentionError,
    OperatorFrame, OperatorRetentionResult, OperatorService, PeerCredentials, PROTOCOL,
};

fn service() -> OperatorService {
    OperatorService::new(vec![4242], "daemon-test".into())
}

#[test]
fn operator_screens_resource_then_peer() {
    let s = service();
    let allowed = PeerCredentials { uid: 4242, gid: 4242 };
    let stranger = PeerCredentials { uid: 7, gid: 7 };
    assert_eq!(s.screen("graph", allowed), Ok(()));
    assert_eq!(s.screen("graph", stranger), Err("OPERATOR_PEER_UNAUTHORIZED"));
    assert_eq!(s.screen("approval", stranger), Err("OPERATOR_RESOURCE_UNSUPPORTED"));
    assert!(s.admits(4242));
    assert!(!s.admits(0));
    assert_eq!(s.daemon_instance_id(), "daemon-test");
}

#[test]
fn retention_outcomes_map_to_responses() {
    let applied = retention_response(Ok(OperatorRetentionResult::Applied { receipt_id: "r1".into() }));
    assert!(applied.ok);
    assert_eq!(applied.receipt_id.as_deref(), Some("r1"));
    assert_eq!(applied.error_code, None);
    assert_eq!(applied.protocol, "agent_graph.operator.v1");
    let replayed = retention_response(Ok(OperatorRetentionResult::Replayed { receipt_id: "r1".into() }));
    assert_eq!(replayed.receipt_id, applied.receipt_id);
    let stale = retention_response(Err(OperatorRetentionError::StaleState));
    assert!(!stale.ok);
    assert_eq!(stale.error_code.as_deref(), Some("AUTHORIZATION_STATE_STALE"));
    assert_eq!(stale.receipt_id, None);
    let codes = [
        (OperatorRetentionError::NonceReplayed, "AUTHORIZATION_NONCE_REPLAYED"),
        (OperatorRetentionError::Tombstoned, "GRAPH_TOMBSTONED"),
        (OperatorRetentionError::Referenced, "GRAPH_REFERENCED"),
        (OperatorRetentionError::ReferencedBySubgraph, "GRAPH_REFERENCED_BY_SUBGRAPH"),
        (OperatorRetentionError::InvalidState, "RETENTION_STATE_INVALID"),
        (OperatorRetentionError::InvalidTransition, "RETENTION_TRANSITION_INVALID"),
        (OperatorRetentionError::NotFound, "GRAPH_NOT_FOUND"),
        (OperatorRetentionError::InvalidAction, "OPERATOR_ACTION_UNSUPPORTED"),
        (OperatorRetentionError::Persistence, "OPERATOR_PERSISTENCE_FAILED"),
    ];
    for (e, code) in codes {
        assert_eq!(e.code(), code);
        assert_eq!(retention_response(Err(e)).error_code.as_deref(), Some(code));
    }
    let refused = rejection("OPERATOR_TIMESTAMP_INVALID");
    assert!(!refused.ok);
    assert_eq!(refused.protocol, PROTOCOL);
}

#[test]
fn decision_material_is_read() {
    let m = decision_material(&Some(r#"{"state":"archived","reason":7}"#.into())).unwrap();
    assert_eq!(material_text(&m, "state").as_deref(), Some("archived"));
    assert_eq!(material_text(&m, "reason"), None);
    assert_eq!(material_text(&m, "review_after"), None);
    assert_eq!(decision_material(&None).unwrap(), JsonValue::Object(Vec::new()));
    assert_eq!(decision_material(&Some("{oops".into())).unwrap_err(), "OPERATOR_DECISION_INVALID");
}

/// 2026-08-18T08:01:00Z, inside the test frames' window.
fn now() -> UtcTime {
    UtcTime { secs: 1_787_040_060, nanos: 0 }
}

fn frame(action: &str) -> OperatorFrame {
    OperatorFrame {
        protocol: PROTOCOL.to_owned(),
        request_id: "req-1".into(),
        action: action.into(),
        resource_kind: "graph".into(),
        resource_id: "g1".into(),
        expected_state_digest: "sha256:abc".into(),
        nonce: "n-1".into(),
        issued_at: "2026-08-18T10:00:00+02:00".into(),
        expires_at: "2026-08-18T08:05:00Z".into(),
        decision_material: Some("{\"state\":\"pinned\",\"reason\":\"audit\"}".into()),
    }
}

#[test]
fn operator_request_builds_the_retention_request() {
    let s = service();
    let peer = PeerCredentials { uid: 4242, gid: 100 };
    let req = s.operator_request(peer, &frame("set_graph_retention"), now()).unwrap();
    assert_eq!(req.action, "set_graph_retention");
    assert_eq!(req.graph_id, "g1");
    assert_eq!(req.expected_state_digest, "sha256:abc");
    assert_eq!(req.nonce, "n-1");
    assert_eq!(req.operator_uid, 4242);
    assert_eq!(req.daemon_instance_id, "daemon-test");
    assert_eq!(req.issued_at, "2026-08-18T08:00:00+00:00");
    assert_eq!(req.expires_at, "2026-08-18T08:05:00+00:00");
    assert_eq!(req.state.as_deref(), Some("pinned"));
    assert_eq!(req.reason.as_deref(), Some("audit"));
    assert_eq!(req.review_after, None);
    assert!(req.request_digest.starts_with("sha256:"));
    let again = s.operator_request(peer, &frame("set_graph_retention"), now()).unwrap();
    assert_eq!(again.request_digest, req.request_digest);
    let other_peer = PeerCredentials { uid: 4242, gid: 101 };
    let moved = s.operator_request(other_peer, &frame("set_graph_retention"), now()).unwrap();
    assert_ne!(moved.request_digest, req.request_digest);
}

#[test]
fn operator_request_refuses_in_order() {
    let s = service();
    let peer = PeerCredentials { uid: 4242, gid: 100 };
    let stranger = PeerCredentials { uid: 7, gid: 7 };

    let mut f = frame("nonsense");
    f.protocol = "agent_graph.operator.v0".into();
    f.resource_kind = "approval".into();
    assert_eq!(s.operator_request(stranger, &f, now()).err(), Some("OPERATOR_PROTOCOL_UNSUPPORTED"));

    let mut f = frame("nonsense");
    f.resource_kind = "approval".into();
    assert_eq!(s.operator_request(stranger, &f, now()).err(), Some("OPERATOR_RESOURCE_UNSUPPORTED"));

    let mut f = frame("nonsense");
    f.issued_at = "yesterday".into();
    assert_eq!(s.operator_request(stranger, &f, now()).err(), Some("OPERATOR_PEER_UNAUTHORIZED"));
    assert_eq!(s.operator_request(peer, &f, now()).err(), Some("OPERATOR_TIMESTAMP_INVALID"));

    let mut f = frame("nonsense");
    f.expires_at = "2026-08-18 08:05:00".into();
    assert_eq!(s.operator_request(peer, &f, now()).err(), Some("OPERATOR_TIMESTAMP_INVALID"));

    let mut f = frame("nonsense");
    f.nonce = String::new();
    assert_eq!(s.operator_request(peer, &f, now()).err(), Some("AUTHORIZATION_NONCE_REQUIRED"));

    let mut f = frame("nonsense");
    f.decision_material = Some("not json".into());
    assert_eq!(s.operator_request(peer, &f, now()).err(), Some("OPERATOR_ACTION_UNSUPPORTED"));

    let mut f = frame("delete_graph");
    f.decision_material = Some("not json".into());
    assert_eq!(s.operator_request(peer, &f, now()).err(), Some("OPERATOR_DECISION_INVALID"));

    let mut f = frame("approve_graph_deletion");
    f.decision_material = None;
    let req = s.operator_request(peer, &f, now()).unwrap();
    assert_eq!(req.state, None);
    assert_eq!(req.reason, None);
}

#[test]
fn operator_request_enforces_the_authorization_window() {
    let s = service();
    let peer = PeerCredentials { uid: 4242, gid: 100 };
    let f = frame("delete_graph");
    let issued = UtcTime { secs: 1_787_040_000, nanos: 0 };
    let expires = UtcTime { secs: 1_787_040_300, nanos: 0 };
    assert!(s.operator_request(peer, &f, issued).is_ok());
    assert_eq!(s.operator_request(peer, &f, expires).err(), Some("AUTHORIZATION_EXPIRED"));
    let just_before = UtcTime { secs: 1_787_040_299, nanos: 999_999_999 };
    assert!(s.operator_request(peer, &f, just_before).is_ok());
    let early = UtcTime { secs: 1_787_039_999, nanos: 999_999_999 };
    assert_eq!(s.operator_request(peer, &f, early).err(), Some("AUTHORIZATION_NOT_YET_VALID"));
    let mut empty = frame("delete_graph");
    empty.nonce = String::new();
    assert_eq!(s.operator_request(peer, &empty, expires).err(), Some("AUTHORIZATION_NONCE_REQUIRED"));
    let mut late_action = frame("nonsense");
    late_action.decision_material = None;
    assert_eq!(s.operator_request(peer, &late_action, expires).err(), Some("AUTHORIZATION_EXPIRED"));
}

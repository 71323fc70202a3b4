use agent_graph_mcp::json::JsonValue;
use agent_graph_mcp::operator::{response_outcome, OperatorResponse};
use agent_graph_mcp::operator_client::{
    client_command, confirmed, council_split, created_graph_id, expand_home, frame_material,
    is_terminal_run_status, mcp_call_request, mcp_reply, operator_args, operator_frame, operator_reply_length,
    parse_status, resolve_socket, resource_kind_for, run_status, socket_argument, started_run_id,
    status_file_path, strip_non_interactive, ClientCommand, DEFAULT_MCP_SOCKET, DEFAULT_OPERATOR_SOCKET,
};

fn json(text: &str) -> JsonValue {
    JsonValue::parse(text).expect("valid JSON")
}

fn strings(v: &[&str]) -> Vec<String> {
    v.iter().map(|s| s.to_string()).collect()
}

#[test]
fn home_expansion() {
    let home = Some("/home/op".to_string());
    assert_eq!(expand_home("~/x/y", &home), "/home/op/x/y");
    assert_eq!(expand_home("~/x/y", &None), "~/x/y");
    assert_eq!(expand_home("/abs", &home), "/abs");
    assert_eq!(expand_home("~user/x", &home), "~user/x");
    assert_eq!(status_file_path(&None, &home), "/home/op/.local/share/agent-graph/run/status.json");
    assert_eq!(status_file_path(&Some("~/s.json".into()), &home), "/home/op/s.json");
}

#[test]
fn sockets_resolve_env_then_status_then_default() {
    let home = Some("/h".to_string());
    let status = parse_status(r#"{"operator_socket":"/run/op.sock","mcp_socket":7}"#);
    assert_eq!(
        resolve_socket(&Some("/env.sock".into()), &status, "operator_socket", DEFAULT_OPERATOR_SOCKET, &home),
        "/env.sock"
    );
    assert_eq!(resolve_socket(&None, &status, "operator_socket", DEFAULT_OPERATOR_SOCKET, &home), "/run/op.sock");
    assert_eq!(
        resolve_socket(&None, &status, "mcp_socket", DEFAULT_MCP_SOCKET, &home),
        "/h/.local/share/agent-graph/run/mcp.sock"
    );
    assert!(parse_status("not json").is_none());
}

#[test]
fn mcp_requests_and_replies() {
    assert_eq!(
        mcp_call_request("graph_status", json(r#"{"resource":"server"}"#)).to_json_string(),
        r#"{"id":1,"jsonrpc":"2.0","method":"tools/call","params":{"arguments":{"resource":"server"},"name":"graph_status"}}"#
    );
    let structured = mcp_reply(r#"{"result":{"structuredContent":{"data":{"ok":true}}}}"#).unwrap();
    assert_eq!(structured, json(r#"{"ok":true}"#));
    let text_json = mcp_reply(r#"{"result":{"content":[{"text":"{\"n\":1}"}]}}"#).unwrap();
    assert_eq!(text_json, json(r#"{"n":1}"#));
    let plain = mcp_reply(r#"{"result":{"content":[{"text":"hello"}]}}"#).unwrap();
    assert_eq!(plain, json(r#""hello""#));
    let bare = mcp_reply(r#"{"result":{"x":2}}"#).unwrap();
    assert_eq!(bare, json(r#"{"x":2}"#));
    assert_eq!(mcp_reply(r#"{"error":{"code":1}}"#).unwrap_err(), r#"mcp error: {"code":1}"#);
    assert!(mcp_reply("garbage").is_err());
    assert_eq!(mcp_reply("{}").unwrap(), JsonValue::Null);
}

#[test]
fn command_line_subcommands() {
    let (args, flag) = strip_non_interactive(&strings(&["--non-interactive", "run-wait", "r1", "500"]));
    assert!(flag);
    assert_eq!(args, strings(&["run-wait", "r1", "500"]));
    match client_command(&args).unwrap() {
        ClientCommand::Call { tool, arguments } => {
            assert_eq!(tool, "graph_run_wait");
            assert_eq!(arguments.to_json_string(), r#"{"run_id":"r1","timeout_ms":500}"#);
        }
        other => panic!("unexpected {other:?}"),
    }
    match client_command(&strings(&["run-wait", "r1", "soon"])).unwrap() {
        ClientCommand::Call { arguments, .. } => {
            assert_eq!(arguments.to_json_string(), r#"{"run_id":"r1","timeout_ms":null}"#)
        }
        other => panic!("unexpected {other:?}"),
    }
    match client_command(&strings(&["retention-review", "-5"])).unwrap() {
        ClientCommand::Call { tool, arguments } => {
            assert_eq!(tool, "graph_retention_review");
            assert_eq!(arguments.to_json_string(), r#"{"limit":-5}"#);
        }
        other => panic!("unexpected {other:?}"),
    }
    match client_command(&strings(&["run-triage", "99999999999"])).unwrap() {
        ClientCommand::Call { arguments, .. } => assert_eq!(arguments.to_json_string(), r#"{"limit":100}"#),
        other => panic!("unexpected {other:?}"),
    }
    match client_command(&strings(&["status"])).unwrap() {
        ClientCommand::Call { tool, arguments } => {
            assert_eq!(tool, "graph_status");
            assert_eq!(arguments.to_json_string(), r#"{"resource":"server"}"#);
        }
        other => panic!("unexpected {other:?}"),
    }
    assert_eq!(client_command(&strings(&["run-poll"])).unwrap_err(), "run-poll requires <run_id>");
    assert_eq!(client_command(&strings(&["receipt"])).unwrap_err(), "receipt requires <run_id>");
    assert_eq!(client_command(&strings(&["council-run"])).unwrap_err(), "council-run requires <spec.json>");
    assert!(matches!(client_command(&strings(&["-h"])).unwrap(), ClientCommand::Help));
    assert!(matches!(client_command(&strings(&["delete_graph", "g"])).unwrap(), ClientCommand::Operator));
    assert!(matches!(
        client_command(&strings(&["council-run", "spec.json"])).unwrap(),
        ClientCommand::CouncilRun { spec_path } if spec_path == "spec.json"
    ));
}

#[test]
fn council_run_pieces() {
    let (graph, input) = council_split(&json(r#"{"input":{"q":1},"name":"g","nodes":[]}"#));
    assert_eq!(graph.to_json_string(), r#"{"name":"g","nodes":[]}"#);
    assert_eq!(input.to_json_string(), r#"{"q":1}"#);
    let (_, input) = council_split(&json(r#"{"name":"g"}"#));
    assert_eq!(input.to_json_string(), "{}");
    assert_eq!(created_graph_id(&json(r#"{"graph_id":"g1","name":"n"}"#)).unwrap(), "g1");
    assert_eq!(created_graph_id(&json(r#"{"name":"n"}"#)).unwrap(), "n");
    assert_eq!(
        created_graph_id(&json(r#"{"graph_id":5,"name":"n"}"#)).unwrap_err(),
        r#"graph_create returned no graph_id: {"graph_id":5,"name":"n"}"#
    );
    assert_eq!(started_run_id(&json(r#"{"run_id":"r"}"#)).unwrap(), "r");
    assert_eq!(started_run_id(&json("{}")).unwrap_err(), "graph_run_start returned no run_id: {}");
    assert_eq!(run_status(&json(r#"{"status":"running"}"#)), "running");
    assert_eq!(run_status(&json("{}")), "");
    for s in ["completed", "failed", "cancelled", "interrupted_non_resumable"] {
        assert!(is_terminal_run_status(s));
    }
    assert!(!is_terminal_run_status("running"));
}

#[test]
fn operator_frame_mode() {
    assert_eq!(socket_argument(&strings(&["/run/op", "delete_graph"])), Some("/run/op".to_string()));
    assert_eq!(socket_argument(&strings(&["delete_graph"])), None);
    assert_eq!(socket_argument(&strings(&["-x/y"])), None);
    assert_eq!(socket_argument(&strings(&["/run/op.sock"])), None);
    assert_eq!(operator_args(&strings(&["delete_graph"])).unwrap_err(), "missing resource ID");
    assert_eq!(operator_args(&strings(&["delete_graph", "g"])).unwrap_err(), "missing expected state digest");
    assert_eq!(operator_args(&strings(&["delete_graph", "g", "d"])).unwrap_err(), "missing nonce");
    let a = operator_args(&strings(&["set_graph_retention", "g", "d", "n", "archived", "old"])).unwrap();
    assert_eq!(frame_material(&a.state, &a.reason).as_deref(), Some(r#"{"reason":"old","state":"archived"}"#));
    assert_eq!(frame_material(&Some("s".into()), &None).as_deref(), Some(r#"{"state":"s"}"#));
    assert_eq!(frame_material(&None, &Some("r".into())), None);
    assert_eq!(resource_kind_for("purge_run"), "run");
    assert_eq!(resource_kind_for("delete_graph"), "graph");
    let frame = operator_frame(&a, "t0", "t1");
    assert_eq!(
        frame.to_json_string(),
        r#"{"action":"set_graph_retention","decision_material":"{\"reason\":\"old\",\"state\":\"archived\"}","expected_state_digest":"d","expires_at":"t1","issued_at":"t0","nonce":"n","protocol":"agent_graph.operator.v1","request_id":"cli-n","resource_id":"g","resource_kind":"graph"}"#
    );
    assert!(confirmed("  yes\n"));
    assert!(!confirmed("y"));
    assert_eq!(operator_reply_length(&[0, 0, 0, 5]).unwrap(), 5);
    assert_eq!(operator_reply_length(&[0, 0, 0, 0]).unwrap_err(), "invalid operator response frame");
    assert!(operator_reply_length(&[0, 0x10, 0, 1]).is_err());
    let refused = OperatorResponse { protocol: "p".into(), ok: false, error_code: None, receipt_id: None };
    assert_eq!(response_outcome(&refused).unwrap_err(), "operator request failed");
}

#[test]
fn socket_argument_follows_the_file_name() {
    let one = |a: &str| socket_argument(&strings(&[a]));
    assert_eq!(one("/run/agent.d/op"), Some("/run/agent.d/op".to_string()));
    assert_eq!(one("/run/agent/.hidden"), Some("/run/agent/.hidden".to_string()));
    assert_eq!(one("/run/agent/op."), None);
    assert_eq!(one("/run/agent/op.sock/"), None);
    assert_eq!(one("/run/agent/op.sock/."), None);
    assert_eq!(one("/run/agent/a.b/.."), Some("/run/agent/a.b/..".to_string()));
    assert_eq!(one("/"), Some("/".to_string()));
}

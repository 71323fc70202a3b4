use agent_graph_mcp::codex_app_server::{
    falls_back_to_stdio, worker_reusable,
    admission_limit, attach_stderr_context, check_handshake, check_reasoning_effort,
    check_turn_input, codex_isolation_args, collect_text, denial_reply, frame_length, frame_start,
    is_terminal_notification, keep_stderr_tail, parse_disabled_mcp_server_names, redacted_stderr_tail,
    remaining, response_for, rpc_request, thread_id_of, turn_start_params, websocket_frame,
    apply_mask, ext_len_of, ProcessAdmission, TurnStep, TurnText, WsAssembler, WsEvent,
};
use agent_graph_mcp::json::JsonValue;

fn json(text: &str) -> JsonValue {
    JsonValue::parse(text).expect("valid JSON")
}

#[test]
fn collects_stream_deltas_and_ignores_non_terminal_events() {
    let events = vec![
        json(r#"{"method":"thread/started","params":{}}"#),
        json(r#"{"method":"item/agentMessage/delta","params":{"delta":"hello "}}"#),
        json(r#"{"method":"item/agentMessage/delta","params":{"delta":"world"}}"#),
        json(r#"{"method":"thread/tokenUsage/updated","params":{}}"#),
        json(r#"{"method":"turn/completed","params":{"turn":{"status":"completed"}}}"#),
    ];
    assert_eq!(collect_text(&events), "hello world");
    assert!(!is_terminal_notification(&events[0]));
    assert!(is_terminal_notification(&events[4]));
}

#[test]
fn falls_back_to_completed_agent_message_when_delta_is_absent() {
    let events = vec![json(
        r#"{
        "method":"item/completed",
        "params":{"item":{"type":"agentMessage","text":"final answer"}}
    }"#,
    )];
    assert_eq!(collect_text(&events), "final answer");
}

#[test]
fn parses_and_deduplicates_bounded_mcp_server_names() {
    let names = parse_disabled_mcp_server_names(
        r#"["semantic-memory","claim-ledger","semantic-memory"]"#,
    )
    .unwrap();
    assert_eq!(names, vec!["claim-ledger", "semantic-memory"]);
}

#[test]
fn rejects_mcp_server_names_that_could_escape_config_path() {
    let error = parse_disabled_mcp_server_names(r#"["safe","bad.name"]"#).unwrap_err();
    assert!(error.contains("invalid MCP server name"), "{error}");
}

#[test]
fn server_name_list_errors() {
    let error = parse_disabled_mcp_server_names("not json").unwrap_err();
    assert!(error.starts_with("invalid AGENT_GRAPH_CODEX_DISABLED_MCP_SERVERS_JSON: "), "{error}");
    let many: Vec<String> = (0..129).map(|i| format!("\"s{i}\"")).collect();
    let raw = format!("[{}]", many.join(","));
    assert_eq!(
        parse_disabled_mcp_server_names(&raw).unwrap_err(),
        "AGENT_GRAPH_CODEX_DISABLED_MCP_SERVERS_JSON exceeds bounded server count (128)"
    );
    assert!(parse_disabled_mcp_server_names(r#"[""]"#).is_err());
    assert_eq!(
        codex_isolation_args(&vec!["a-b".to_owned()]),
        vec!["-c", "features.plugins=false", "-c", "features.apps=false", "-c", "mcp_servers.a-b.enabled=false"]
    );
}

#[test]
fn redacts_sensitive_lines_and_bounds_the_tail() {
    let tail = redacted_stderr_tail("ok line\nAuthorization: Bearer should-not-leak\r\nnext\n".to_owned()).unwrap();
    assert_eq!(tail, "ok line\n[redacted sensitive stderr line]\nnext");
    assert!(redacted_stderr_tail(" \n\t".to_owned()).is_none());
    let long = "é".repeat(3000);
    let tail = redacted_stderr_tail(long).unwrap();
    assert_eq!(tail.len(), 4096);
    assert_eq!(tail, "é".repeat(2048));
    let with_context = attach_stderr_context(Err("boom".to_owned()), "simulated startup failure\n".to_owned());
    assert_eq!(with_context.unwrap_err(), "boom; codex stderr tail: simulated startup failure");
    assert_eq!(attach_stderr_context(Ok("fine".to_owned()), "noise".to_owned()).unwrap(), "fine");
}

#[test]
fn turn_text_accumulates_and_finishes() {
    let mut turn = TurnText::new();
    assert!(matches!(turn.observe(&json(r#"{"id":7,"method":"item/tool/call"}"#)), TurnStep::Deny(7)));
    assert!(matches!(
        turn.observe(&json(r#"{"method":"item/agentMessage/delta","params":{"delta":"hi"}}"#)),
        TurnStep::Continue
    ));
    match turn.observe(&json(r#"{"method":"turn/completed","params":{}}"#)) {
        TurnStep::Finished(Ok(text)) => assert_eq!(text, "hi"),
        _ => panic!("expected the turn's text"),
    }
    let mut empty = TurnText::new();
    match empty.observe(&json(r#"{"method":"turn/completed"}"#)) {
        TurnStep::Finished(Err(e)) => assert_eq!(e, "codex app-server completed without assistant text"),
        _ => panic!("expected an error"),
    }
    let mut big = TurnText::new();
    let huge = "x".repeat(262_145);
    let event = json(&format!(r#"{{"method":"item/agentMessage/delta","params":{{"delta":"{huge}"}}}}"#));
    match big.observe(&event) {
        TurnStep::Finished(Err(e)) => assert!(e.contains("output exceeds bounded limit")),
        _ => panic!("expected the output bound"),
    }
}

#[test]
fn rejects_oversized_prompt_before_starting_child() {
    let prompt = "x".repeat(256 * 1024 + 1);
    let error = check_turn_input("model", &prompt).unwrap_err();
    assert!(error.contains("codex prompt exceeds bounded input limit"), "{error}");
    assert_eq!(check_turn_input("  ", "p").unwrap_err(), "codex model must not be empty");
    assert!(check_turn_input("m", "p").is_ok());
    assert!(check_reasoning_effort("xhigh").is_ok());
    assert_eq!(check_reasoning_effort("max").unwrap_err(), "unsupported Codex reasoning effort: max");
}

#[test]
fn admission_counts_within_the_limit() {
    assert_eq!(admission_limit(None), 3);
    assert_eq!(admission_limit(Some("0")), 3);
    assert_eq!(admission_limit(Some("1")), 1);
    assert_eq!(admission_limit(Some("500")), 32);
    assert_eq!(admission_limit(Some("x")), 3);
    let mut admission = ProcessAdmission::new(1);
    assert!(admission.use_persistent_worker());
    assert!(admission.try_acquire());
    assert!(!admission.try_acquire());
    admission.release();
    assert!(admission.try_acquire());
    assert_eq!(remaining(10, 4).unwrap(), 6);
    assert_eq!(remaining(4, 4).unwrap_err(), "codex app-server timed out");
}

#[test]
fn responses_and_requests_have_their_json_rpc_shape() {
    assert!(response_for(&json(r#"{"id":2,"result":{}}"#), 1).is_none());
    assert_eq!(
        response_for(&json(r#"{"id":1,"error":{"code":5}}"#), 1).unwrap().unwrap_err(),
        r#"codex app-server request 1 failed: {"code":5}"#
    );
    assert_eq!(response_for(&json(r#"{"id":1}"#), 1).unwrap().unwrap(), JsonValue::Null);
    assert_eq!(
        rpc_request(3, "turn/start", turn_start_params("t1", "hi")).to_json_string(),
        r#"{"id":3,"jsonrpc":"2.0","method":"turn/start","params":{"input":[{"text":"hi","type":"text"}],"threadId":"t1"}}"#
    );
    assert_eq!(
        denial_reply(9).to_json_string(),
        r#"{"error":{"code":-32000,"message":"Agent Graph forbids Codex tool/approval requests"},"id":9,"jsonrpc":"2.0"}"#
    );
    assert_eq!(thread_id_of(&json(r#"{"thread":{"sessionId":"s"}}"#)).unwrap(), "s");
    assert_eq!(thread_id_of(&json(r#"{}"#)).unwrap_err(), "codex thread/start returned no thread id");
}

#[test]
fn websocket_frames_roundtrip() {
    let payload = b"{\"a\":1}".to_vec();
    let frame = websocket_frame(0x1, &payload, 0x01020304).unwrap();
    assert_eq!(&frame[..2], &[0x81, 0x80 | 7]);
    assert_eq!(&frame[2..6], &[1, 2, 3, 4]);
    let start = frame_start(frame[0], frame[1]).unwrap();
    assert!(start.fin && start.masked);
    assert_eq!(start.opcode, 1);
    assert_eq!(ext_len_of(start.len7), 0);
    assert_eq!(frame_length(start.len7, &[]), 7);
    assert_eq!(apply_mask(&frame[6..], &frame[2..6]), payload);
    let long = vec![7u8; 70_000];
    let frame = websocket_frame(0x2, &long, 0).unwrap();
    assert_eq!(frame[1], 0xff);
    assert_eq!(frame_length(127, &frame[2..10]), 70_000);
    assert!(frame_start(0xf1, 0).is_err());
}

#[test]
fn websocket_messages_reassemble_fragments() {
    let mut ws = WsAssembler::new();
    assert!(matches!(ws.on_frame(false, 0x1, b"{\"a\":".to_vec()), WsEvent::Ignore));
    match ws.on_frame(true, 0x0, b"1}".to_vec()) {
        WsEvent::Message(m) => assert_eq!(m, b"{\"a\":1}".to_vec()),
        _ => panic!("expected a message"),
    }
    match ws.on_frame(true, 0x0, b"x".to_vec()) {
        WsEvent::Fail(e) => assert_eq!(e, "codex app-server websocket continuation without text frame"),
        _ => panic!("expected a failure"),
    }
    assert!(matches!(ws.on_frame(true, 0x9, b"p".to_vec()), WsEvent::Pong(p) if p == b"p".to_vec()));
    assert!(matches!(ws.on_frame(true, 0x8, Vec::new()), WsEvent::Close));
    match ws.on_frame(true, 0x3, Vec::new()) {
        WsEvent::Fail(e) => assert_eq!(e, "unsupported codex app-server websocket opcode 3"),
        _ => panic!("expected a failure"),
    }
    assert!(check_handshake("HTTP/1.1 101 Switching Protocols\r\n\r\n").is_ok());
    assert!(check_handshake("HTTP/1.1 400 Bad Request\r\n\r\n").is_err());
}

#[test]
fn stderr_tail_keeps_the_last_bytes() {
    let mut tail = Vec::new();
    keep_stderr_tail(&mut tail, &vec![1u8; 8000]);
    keep_stderr_tail(&mut tail, &vec![2u8; 300]);
    assert_eq!(tail.len(), 8192);
    assert_eq!(tail[0], 1);
    assert_eq!(tail[8191], 2);
    assert_eq!(tail.iter().filter(|b| **b == 2).count(), 300);
}

#[test]
fn pooled_worker_reuse_and_stdio_fallback() {
    let worker = Some(("codex".to_string(), "m".to_string(), "/w".to_string()));
    assert!(worker_reusable(&worker, "codex", "m", "/w"));
    assert!(!worker_reusable(&worker, "codex", "other", "/w"));
    assert!(!worker_reusable(&None, "codex", "m", "/w"));
    assert!(falls_back_to_stdio("codex app-server exited during startup (exit status: 0); codex stderr tail: x"));
    assert!(!falls_back_to_stdio("codex app-server exited during startup (exit status: 1)"));
}

#[test]
fn stderr_tail_never_mentions_credentials() {
    let tail = redacted_stderr_tail("start\nuser PASSWORD=hunter2\n  Api_Key: k\nsecretive\nplain token\ndone".to_owned()).unwrap();
    let lower = tail.to_ascii_lowercase();
    for marker in ["authorization", "api key", "api_key", "token", "secret", "password"] {
        assert!(!lower.contains(marker), "{tail}");
    }
    assert_eq!(tail.lines().next(), Some("start"));
    assert_eq!(tail.lines().last(), Some("done"));
}
